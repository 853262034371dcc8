//! The parser: rebuilds a single rooted element tree from a sequence of
//! structural token events.
//!
//! The token machine keeps a working stack of in-progress elements and an
//! optional result slot. A start token pushes an empty element; a text token
//! appends a text run to the top of the stack; an end token removes the
//! *nearest* stack entry whose name matches the closed tag — scanning from
//! the top, not strict last-opened-first-closed popping — and attaches it to
//! the new top, or makes it the root when the stack has emptied. A second
//! completed root is a malformed-document error, and all other token kinds
//! are ignored.

use vstd::prelude::*;
use crate::model::{Element, ElemContent, ElemView, ContentView, NameView, name_matches, elem_view,
    lemma_elem_view};
use crate::errors::{XmlError, ErrorView};
use crate::tokens::{XmlToken, TokenView, token_views};
use crate::reader::{RawToken, RawView, reader_new, reader_next, reader_source, reader_pos,
    scan_token_at, is_terminal, stops_at, stream_tokens, stream_ends};

verus! {

/// The parser's working state: the stack of in-progress elements (bottom
/// first) and the completed root, if one has been produced.
#[verifier::ext_equal]
pub struct StateView {
    /// The working stack, bottom first.
    pub stack: Seq<ElemView>,
    /// The completed root, if any.
    pub root: Option<ElemView>,
}

/// The state a parse starts from: an empty stack and no root.
pub open spec fn init_state() -> StateView {
    StateView { stack: Seq::<ElemView>::empty(), root: None }
}

/// The index of the nearest (topmost) stack entry whose name matches `n`, or
/// `-1` when none matches.
pub open spec fn find_match(stack: Seq<ElemView>, n: NameView) -> int
    decreases stack.len(),
{
    if stack.len() == 0 {
        -1
    } else if name_matches(stack.last().name, n) {
        stack.len() - 1
    } else {
        find_match(stack.drop_last(), n)
    }
}

/// The stack with `item` appended to the content of its top entry.
pub open spec fn append_to_top(stack: Seq<ElemView>, item: ContentView) -> Seq<ElemView>
    recommends
        stack.len() > 0,
{
    stack.update(
        stack.len() - 1,
        ElemView { name: stack.last().name, content: stack.last().content.push(item) },
    )
}

/// One transition of the token machine. `Err(())` reports that a second
/// top-level element was completed.
pub open spec fn step(st: StateView, t: TokenView) -> Result<StateView, ()> {
    match t {
        TokenView::Start(n) => Ok(
            StateView {
                stack: st.stack.push(ElemView { name: n, content: Seq::<ContentView>::empty() }),
                root: st.root,
            },
        ),
        TokenView::Text(s) => {
            if st.stack.len() > 0 {
                Ok(StateView { stack: append_to_top(st.stack, ContentView::Text(s)), root: st.root })
            } else {
                Ok(st)
            }
        },
        TokenView::End(n) => {
            let i = find_match(st.stack, n);
            if i < 0 {
                Ok(st)
            } else {
                let child = st.stack[i];
                let rest = st.stack.remove(i);
                if rest.len() > 0 {
                    Ok(
                        StateView {
                            stack: append_to_top(rest, ContentView::Child(child)),
                            root: st.root,
                        },
                    )
                } else if st.root is None {
                    Ok(StateView { stack: rest, root: Some(child) })
                } else {
                    Err(())
                }
            }
        },
        TokenView::Ignorable => Ok(st),
    }
}

/// The token machine run over a whole token sequence.
pub open spec fn run(st: StateView, toks: Seq<TokenView>) -> Result<StateView, ()>
    decreases toks.len(),
{
    if toks.len() == 0 {
        Ok(st)
    } else {
        match step(st, toks[0]) {
            Ok(st2) => run(st2, toks.drop_first()),
            Err(e) => Err(e),
        }
    }
}

/// What parsing a complete token sequence yields: the single root element,
/// or the error the sequence runs into.
pub open spec fn parse_outcome(toks: Seq<TokenView>) -> Result<ElemView, ErrorView> {
    match run(init_state(), toks) {
        Ok(st) => match st.root {
            Some(r) => Ok(r),
            None => Err(ErrorView::EmptyOrInvalidDocument),
        },
        Err(_) => Err(ErrorView::MultipleRootsDetected),
    }
}

/// Running the token machine over a concatenation runs it over the two
/// parts in order.
pub proof fn lemma_run_concat(st: StateView, a: Seq<TokenView>, b: Seq<TokenView>)
    ensures
        run(st, a + b) == (match run(st, a) {
            Ok(m) => run(m, b),
            Err(e) => Err::<StateView, ()>(e),
        }),
    decreases a.len(),
{
    if a.len() == 0 {
        assert(a + b =~= b);
    } else {
        assert((a + b)[0] == a[0]);
        match step(st, a[0]) {
            Ok(st2) => {
                assert((a + b).drop_first() =~= a.drop_first() + b);
                lemma_run_concat(st2, a.drop_first(), b);
            },
            Err(_) => {},
        }
    }
}

/// Running the machine over one token steps it once.
pub proof fn lemma_run_one(st: StateView, t: TokenView)
    ensures
        run(st, seq![t]) == (match step(st, t) {
            Ok(m) => Ok::<StateView, ()>(m),
            Err(e) => Err::<StateView, ()>(e),
        }),
{
    assert(seq![t].drop_first() =~= Seq::<TokenView>::empty());
    match step(st, t) {
        Ok(m) => {
            assert(run(m, seq![t].drop_first()) == Ok::<StateView, ()>(m));
        },
        Err(_) => {},
    }
}

/// The value of a parse result.
pub open spec fn result_view(r: Result<Element, XmlError>) -> Result<ElemView, ErrorView> {
    match r {
        Ok(e) => Ok(elem_view(e)),
        Err(x) => Err(x@),
    }
}

/// The values of a stack of elements.
pub open spec fn stack_view(stack: Seq<Element>) -> Seq<ElemView> {
    Seq::new(stack.len(), |i: int| elem_view(stack[i]))
}

/// The value of the exec parser's state.
pub open spec fn state_of(stack: Seq<Element>, root: Option<Element>) -> StateView {
    StateView {
        stack: stack_view(stack),
        root: match root {
            Some(e) => Some(elem_view(e)),
            None => None,
        },
    }
}

/// When nothing on the stack matches `n`, `find_match` reports no match.
proof fn lemma_find_match_none(stack: Seq<ElemView>, n: NameView)
    requires
        forall|j: int| 0 <= j < stack.len() ==> !name_matches(stack[j].name, n),
    ensures
        find_match(stack, n) == -1,
    decreases stack.len(),
{
    if stack.len() > 0 {
        lemma_find_match_none(stack.drop_last(), n);
    }
}

/// When `k` matches and nothing above `k` does, `find_match` reports `k`.
proof fn lemma_find_match_at(stack: Seq<ElemView>, n: NameView, k: int)
    requires
        0 <= k < stack.len(),
        name_matches(stack[k].name, n),
        forall|j: int| k < j < stack.len() ==> !name_matches(stack[j].name, n),
    ensures
        find_match(stack, n) == k,
    decreases stack.len(),
{
    if k < stack.len() - 1 {
        lemma_find_match_at(stack.drop_last(), n, k);
    }
}

/// Applies one token to the exec parser's state, mirroring [`step`]. Returns
/// `false` exactly when the token completes a second top-level element.
fn apply_token(stack: &mut Vec<Element>, root: &mut Option<Element>, t: XmlToken) -> (ok: bool)
    ensures
        match step(state_of(old(stack)@, *old(root)), t@) {
            Ok(st2) => ok && state_of(final(stack)@, *final(root)) == st2,
            Err(_) => !ok,
        },
{
    let ghost st0 = state_of(stack@, *root);
    match t {
        XmlToken::Start(n) => {
            let ghost nv = n@;
            stack.push(Element { name: n, content: Vec::new() });
            proof {
                lemma_elem_view(stack@.last());
                assert(elem_view(stack@.last()).content =~= Seq::<ContentView>::empty());
                assert(stack_view(stack@) =~= st0.stack.push(
                    ElemView { name: nv, content: Seq::<ContentView>::empty() },
                ));
                assert(state_of(stack@, *root) =~= (StateView {
                    stack: st0.stack.push(ElemView { name: nv, content: Seq::<ContentView>::empty() }),
                    root: st0.root,
                }));
            }
            true
        },
        XmlToken::Text(s) => {
            let ghost sv = s@;
            match stack.pop() {
                Some(mut top) => {
                    let ghost top0 = top;
                    top.push_text(s);
                    stack.push(top);
                    proof {
                        assert(stack_view(stack@) =~= append_to_top(
                            st0.stack,
                            ContentView::Text(sv),
                        ));
                        assert(state_of(stack@, *root) =~= (StateView {
                            stack: append_to_top(st0.stack, ContentView::Text(sv)),
                            root: st0.root,
                        }));
                    }
                },
                None => {
                    proof {
                        assert(stack_view(stack@) =~= st0.stack);
                        assert(state_of(stack@, *root) =~= st0);
                    }
                },
            }
            true
        },
        XmlToken::End(n) => {
            let mut i: usize = stack.len();
            let mut found: Option<usize> = None;
            while found.is_none() && i > 0
                invariant
                    i <= stack@.len(),
                    match found {
                        None => forall|j: int|
                            i <= j < stack@.len() ==> !name_matches(
                                stack_view(stack@)[j].name,
                                n@,
                            ),
                        Some(k) => i <= k < stack@.len() && name_matches(
                            stack_view(stack@)[k as int].name,
                            n@,
                        ) && forall|j: int|
                            k < j < stack@.len() ==> !name_matches(stack_view(stack@)[j].name, n@),
                    },
                decreases i,
            {
                i = i - 1;
                if stack[i].name == n {
                    found = Some(i);
                }
            }
            match found {
                None => {
                    proof {
                        lemma_find_match_none(st0.stack, n@);
                    }
                    true
                },
                Some(k) => {
                    proof {
                        lemma_find_match_at(st0.stack, n@, k as int);
                    }
                    let child = stack.remove(k);
                    let ghost cv = elem_view(child);
                    proof {
                        assert(stack_view(stack@) =~= st0.stack.remove(k as int));
                    }
                    if stack.len() > 0 {
                        match stack.pop() {
                            Some(mut top) => {
                                top.push_child(child);
                                stack.push(top);
                                proof {
                                    assert(stack_view(stack@) =~= append_to_top(
                                        st0.stack.remove(k as int),
                                        ContentView::Child(cv),
                                    ));
                                    assert(state_of(stack@, *root) =~= (StateView {
                                        stack: append_to_top(
                                            st0.stack.remove(k as int),
                                            ContentView::Child(cv),
                                        ),
                                        root: st0.root,
                                    }));
                                }
                                true
                            },
                            None => {
                                // The stack was just checked to be non-empty.
                                proof {
                                    assert(false);
                                }
                                true
                            },
                        }
                    } else {
                        if root.is_some() {
                            false
                        } else {
                            *root = Some(child);
                            proof {
                                assert(stack_view(stack@) =~= st0.stack.remove(k as int));
                                assert(state_of(stack@, *root) =~= (StateView {
                                    stack: st0.stack.remove(k as int),
                                    root: Some(cv),
                                }));
                            }
                            true
                        }
                    }
                },
            }
        },
        XmlToken::Ignorable => {
            proof {
                assert(stack_view(stack@) =~= st0.stack);
                assert(state_of(stack@, *root) =~= st0);
            }
            true
        },
    }
}

impl Element {
    /// Rebuilds the single rooted element tree that a complete token
    /// sequence describes, under the nearest-match end-tag policy, or
    /// reports that the sequence produced no root or more than one.
    pub fn parse_tokens(tokens: Vec<XmlToken>) -> (r: Result<Element, XmlError>)
        ensures
            result_view(r) == parse_outcome(token_views(tokens@)),
    {
        let ghost orig = token_views(tokens@);
        let mut toks = tokens;
        let mut stack: Vec<Element> = Vec::new();
        let mut root: Option<Element> = None;
        proof {
            assert(stack_view(stack@) =~= init_state().stack);
            assert(state_of(stack@, root) =~= init_state());
            assert(token_views(toks@) =~= orig);
        }
        while toks.len() > 0
            invariant
                orig == token_views(tokens@),
                run(init_state(), orig) == run(state_of(stack@, root), token_views(toks@)),
            decreases toks@.len(),
        {
            let ghost before = token_views(toks@);
            let ghost st_before = state_of(stack@, root);
            let t = toks.remove(0);
            proof {
                assert(token_views(toks@) =~= before.drop_first());
            }
            let ok = apply_token(&mut stack, &mut root, t);
            if !ok {
                proof {
                    assert(before[0] == t@);
                    assert(step(st_before, before[0]) is Err);
                    assert(run(st_before, before) is Err);
                    assert(run(init_state(), orig) is Err);
                }
                return Err(XmlError::MultipleRootsDetected);
            }
        }
        proof {
            assert(token_views(toks@) =~= Seq::<TokenView>::empty());
        }
        match root {
            Some(e) => Ok(e),
            None => Err(XmlError::EmptyOrInvalidDocument),
        }
    }

    /// Reads an `Element` from the given string, which is presumed to hold
    /// a single well-formed XML document.
    ///
    /// An empty string yields the empty-document error at once. Otherwise
    /// the underlying tokenizer's events are fed to the token machine in
    /// order: a fault it reports is propagated with its position, a second
    /// completed top-level element is the multiple-roots error, and a
    /// stream that ends without producing a root is the empty-document
    /// error.
    pub fn from_string(s: &str) -> (r: Result<Element, XmlError>)
        ensures
            s@.len() == 0 ==> r == Err::<Element, XmlError>(XmlError::EmptyOrInvalidDocument),
            forall|n: nat|
                s@.len() > 0 && stops_at(s@, n) ==> result_view(r) == stream_outcome(s@, n),
    {
        if s.is_empty() {
            return Err(XmlError::EmptyOrInvalidDocument);
        }
        let mut reader = reader_new(s);
        let ghost n0: nat = choose|n: nat| stops_at(s@, n);
        let mut stack: Vec<Element> = Vec::new();
        let mut root: Option<Element> = None;
        proof {
            assert(stops_at(s@, n0));
            assert(stack_view(stack@) =~= init_state().stack);
            assert(state_of(stack@, root) =~= init_state());
            assert(stream_tokens(s@, 0) =~= Seq::<TokenView>::empty());
        }
        loop
            invariant_except_break
                s@.len() > 0,
                reader_source(reader) == s@,
                stops_at(s@, n0),
                reader_pos(reader) <= n0,
                forall|k: nat| k < reader_pos(reader) ==> !is_terminal(scan_token_at(s@, k)),
                run(init_state(), stream_tokens(s@, reader_pos(reader))) == Ok::<StateView, ()>(
                    state_of(stack@, root),
                ),
            ensures
                exists|p: nat|
                    stops_at(s@, p) && scan_token_at(s@, p) is Finished && run(
                        init_state(),
                        stream_tokens(s@, p),
                    ) == Ok::<StateView, ()>(state_of(stack@, root)),
            decreases n0 - reader_pos(reader),
        {
            let ghost p = reader_pos(reader);
            let t = reader_next(&mut reader);
            match t {
                RawToken::Finished => {
                    proof {
                        assert(stops_at(s@, p));
                    }
                    break;
                },
                RawToken::Fault(row, column, message) => {
                    proof {
                        assert(stops_at(s@, p));
                        assert forall|n: nat| stops_at(s@, n) implies n == p by {
                            if n < p {
                                assert(!is_terminal(scan_token_at(s@, n)));
                            }
                            if n > p {
                                assert(!is_terminal(scan_token_at(s@, p)));
                            }
                        }
                        assert(run(init_state(), stream_tokens(s@, p)) is Ok);
                    }
                    return Err(XmlError::StreamFault { row, column, message });
                },
                RawToken::Token(tok) => {
                    let ghost st_before = state_of(stack@, root);
                    let ghost tv = tok@;
                    let ok = apply_token(&mut stack, &mut root, tok);
                    proof {
                        assert(stream_tokens(s@, (p + 1) as nat) =~= stream_tokens(s@, p).push(
                            tv,
                        ));
                        lemma_run_concat(init_state(), stream_tokens(s@, p), seq![tv]);
                        lemma_run_one(st_before, tv);
                        assert(stream_tokens(s@, p) + seq![tv] =~= stream_tokens(
                            s@,
                            (p + 1) as nat,
                        ));
                        assert(!is_terminal(scan_token_at(s@, p)));
                        assert(p < n0) by {
                            assert(is_terminal(scan_token_at(s@, n0)));
                        }
                    }
                    if !ok {
                        proof {
                            assert(run(init_state(), stream_tokens(s@, (p + 1) as nat)) is Err);
                            assert forall|n: nat| stops_at(s@, n) implies result_view(
                                Err::<Element, XmlError>(XmlError::MultipleRootsDetected),
                            ) == stream_outcome(s@, n) by {
                                assert(n > p) by {
                                    if n <= p {
                                        assert(is_terminal(scan_token_at(s@, n)));
                                    }
                                }
                                let head = stream_tokens(s@, (p + 1) as nat);
                                let tail = stream_tokens(s@, n).subrange(
                                    p + 1 as int,
                                    n as int,
                                );
                                assert(stream_tokens(s@, n) =~= head + tail);
                                lemma_run_concat(init_state(), head, tail);
                                assert(run(init_state(), stream_tokens(s@, n)) is Err);
                            }
                        }
                        return Err(XmlError::MultipleRootsDetected);
                    }
                },
            }
        }
        proof {
            let p = choose|p: nat|
                stops_at(s@, p) && scan_token_at(s@, p) is Finished && run(
                    init_state(),
                    stream_tokens(s@, p),
                ) == Ok::<StateView, ()>(state_of(stack@, root));
            assert forall|n: nat| stops_at(s@, n) implies n == p by {
                if n < p {
                    assert(!is_terminal(scan_token_at(s@, n)));
                }
                if n > p {
                    assert(!is_terminal(scan_token_at(s@, p)));
                }
            }
        }
        match root {
            Some(e) => Ok(e),
            None => Err(XmlError::EmptyOrInvalidDocument),
        }
    }
}

/// What parsing the stream over `s` yields when the stream ends at pull
/// `n`: the multiple-roots error if the tokens up to there completed a
/// second top-level element, else the fault the stream ended with, else the
/// outcome of the completed token sequence.
pub open spec fn stream_outcome(s: Seq<char>, n: nat) -> Result<ElemView, ErrorView> {
    let toks = stream_tokens(s, n);
    if run(init_state(), toks) is Err {
        Err(ErrorView::MultipleRootsDetected)
    } else {
        match scan_token_at(s, n) {
            RawView::Fault(row, column, message) => Err(
                ErrorView::StreamFault { row, column, message },
            ),
            _ => parse_outcome(toks),
        }
    }
}

} // verus!
