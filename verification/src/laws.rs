//! The laws the library states of itself, proved once and for all.

use vstd::prelude::*;
use crate::model::{ElemView, ContentView, NameView, name_matches};
use crate::errors::ErrorView;
use crate::parse::{StateView, init_state, find_match, append_to_top, step, run, parse_outcome,
    stream_outcome, lemma_run_concat, lemma_run_one};
use crate::reader::{RawView, scan_token_at, stops_at, stream_tokens};
use crate::ser::{ser_elem, ser_contents};
use crate::tokens::TokenView;

verus! {

/// Names that differ only in their prefix are equal.
pub proof fn lemma_name_eq_ignores_prefix(a: NameView, b: NameView)
    requires
        a.local_name == b.local_name,
        a.namespace == b.namespace,
    ensures
        name_matches(a, b),
{
}

/// Names that differ in their local name or in their namespace are unequal,
/// whatever their prefixes.
pub proof fn lemma_name_eq_discriminates(a: NameView, b: NameView)
    requires
        a.local_name != b.local_name || a.namespace != b.namespace,
    ensures
        !name_matches(a, b),
{
}

/// Serializing an element and feeding the tokens to the machine attaches
/// exactly that element: as a child of the top of a non-empty stack, or as
/// the root over an empty stack — the root slot being already taken is then
/// the multiple-roots error.
proof fn lemma_ser_elem_run(st: StateView, e: ElemView)
    ensures
        run(st, ser_elem(e)) == (if st.stack.len() > 0 {
            Ok::<StateView, ()>(
                StateView {
                    stack: append_to_top(st.stack, ContentView::Child(e)),
                    root: st.root,
                },
            )
        } else if st.root is None {
            Ok::<StateView, ()>(StateView { stack: st.stack, root: Some(e) })
        } else {
            Err::<StateView, ()>(())
        }),
    decreases e, 1int,
{
    let start = seq![TokenView::Start(e.name)];
    let mid = ser_contents(e.content, 0);
    let end = seq![TokenView::End(e.name)];
    assert(ser_elem(e) == start + mid + end);
    lemma_run_concat(st, start + mid, end);
    lemma_run_concat(st, start, mid);
    lemma_run_one(st, TokenView::Start(e.name));
    let fresh = ElemView { name: e.name, content: Seq::<ContentView>::empty() };
    let st1 = StateView { stack: st.stack.push(fresh), root: st.root };
    assert(run(st, start) == Ok::<StateView, ()>(st1));
    lemma_ser_contents_run(st1, e.content, 0);
    let st2 = run(st1, mid)->Ok_0;
    assert(st2.stack =~= st.stack.push(e)) by {
        assert(st1.stack.last() == fresh);
        assert(fresh.content + e.content.subrange(0, e.content.len() as int) =~= e.content);
        assert(st2.stack[st.stack.len() as int] =~= e);
    }
    lemma_run_one(st2, TokenView::End(e.name));
    assert(name_matches(st2.stack.last().name, e.name));
    assert(find_match(st2.stack, e.name) == st2.stack.len() - 1);
    assert(st2.stack.remove(st2.stack.len() - 1) =~= st.stack);
    if st.stack.len() > 0 {
        assert(run(st, ser_elem(e)) == Ok::<StateView, ()>(
            StateView { stack: append_to_top(st.stack, ContentView::Child(e)), root: st.root },
        ));
    }
}

/// Serializing content items from position `i` on and feeding the tokens to
/// the machine appends exactly those items to the top of the stack.
proof fn lemma_ser_contents_run(st: StateView, cs: Seq<ContentView>, i: int)
    requires
        st.stack.len() > 0,
        0 <= i <= cs.len(),
    ensures
        run(st, ser_contents(cs, i)) == Ok::<StateView, ()>(
            StateView {
                stack: st.stack.update(
                    st.stack.len() - 1,
                    ElemView {
                        name: st.stack.last().name,
                        content: st.stack.last().content + cs.subrange(i, cs.len() as int),
                    },
                ),
                root: st.root,
            },
        ),
    decreases cs, cs.len() - i + 2,
{
    let target = StateView {
        stack: st.stack.update(
            st.stack.len() - 1,
            ElemView {
                name: st.stack.last().name,
                content: st.stack.last().content + cs.subrange(i, cs.len() as int),
            },
        ),
        root: st.root,
    };
    if i == cs.len() {
        assert(st.stack.last().content + cs.subrange(i, cs.len() as int) =~= st.stack.last(
        ).content);
        assert(target.stack =~= st.stack);
        assert(target =~= st);
    } else {
        let rest = ser_contents(cs, i + 1);
        match cs[i] {
            ContentView::Text(t) => {
                let one = seq![TokenView::Text(t)];
                assert(ser_contents(cs, i) == one + rest);
                lemma_run_concat(st, one, rest);
                lemma_run_one(st, TokenView::Text(t));
                let st1 = StateView {
                    stack: append_to_top(st.stack, ContentView::Text(t)),
                    root: st.root,
                };
                assert(run(st, one) == Ok::<StateView, ()>(st1));
                lemma_ser_contents_run(st1, cs, i + 1);
                let got = run(st1, rest)->Ok_0;
                assert(got.stack =~= target.stack) by {
                    assert(st1.stack.last().content =~= st.stack.last().content.push(
                        ContentView::Text(t),
                    ));
                    assert(st.stack.last().content.push(ContentView::Text(t)) + cs.subrange(
                        i + 1,
                        cs.len() as int,
                    ) =~= st.stack.last().content + cs.subrange(i, cs.len() as int));
                }
                assert(got =~= target);
            },
            ContentView::Child(c) => {
                assert(ser_contents(cs, i) == ser_elem(c) + rest);
                lemma_run_concat(st, ser_elem(c), rest);
                lemma_ser_elem_run(st, c);
                let st1 = StateView {
                    stack: append_to_top(st.stack, ContentView::Child(c)),
                    root: st.root,
                };
                assert(run(st, ser_elem(c)) == Ok::<StateView, ()>(st1));
                lemma_ser_contents_run(st1, cs, i + 1);
                let got = run(st1, rest)->Ok_0;
                assert(got.stack =~= target.stack) by {
                    assert(st1.stack.last().content =~= st.stack.last().content.push(
                        ContentView::Child(c),
                    ));
                    assert(st.stack.last().content.push(ContentView::Child(c)) + cs.subrange(
                        i + 1,
                        cs.len() as int,
                    ) =~= st.stack.last().content + cs.subrange(i, cs.len() as int));
                }
                assert(got =~= target);
            },
        }
    }
}

/// Round trip: parsing the token sequence a tree serializes to rebuilds a
/// structurally equal tree — the same names, the same content order, the
/// same text.
pub proof fn lemma_round_trip(e: ElemView)
    ensures
        parse_outcome(ser_elem(e)) == Ok::<ElemView, ErrorView>(e),
{
    lemma_ser_elem_run(init_state(), e);
}

/// Round trip through text, the library's share: whenever the tokenizer's
/// stream over a text yields exactly the token sequence a tree serializes
/// to and then ends cleanly, parsing that text rebuilds the tree. That the
/// emitter's rendering tokenizes back to those tokens is the collaborator's
/// share, which no trusted item states.
pub proof fn lemma_text_round_trip(t: ElemView, s: Seq<char>, n: nat)
    requires
        stops_at(s, n),
        scan_token_at(s, n) is Finished,
        stream_tokens(s, n) == ser_elem(t),
    ensures
        stream_outcome(s, n) == Ok::<ElemView, ErrorView>(t),
{
    lemma_ser_elem_run(init_state(), t);
}

} // verus!
