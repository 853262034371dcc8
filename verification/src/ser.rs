//! The serializer: walks an element tree depth-first and produces the
//! equivalent sequence of structural token events.
//!
//! Every element becomes its start token, its content items in document
//! order — text runs as text tokens, children serialized recursively — and
//! its end token. Identical trees always yield identical token sequences.

use vstd::prelude::*;
use crate::model::{Element, ElemContent, ElemView, ContentView, lemma_elem_view};
use crate::tokens::{XmlToken, TokenView, token_views};
use crate::errors::XmlError;
use crate::writer::{Directive, TokenWriter, writer_new, writer_directives, writer_pretty,
    rendered, open_depth, lemma_open_depth_push, lemma_open_depth_concat, write_start_plain,
    write_start_default_ns, write_start_prefixed, write_text, write_end, writer_finish};

verus! {

/// The token sequence a tree serializes to.
pub open spec fn ser_elem(e: ElemView) -> Seq<TokenView>
    decreases e, 1int,
{
    seq![TokenView::Start(e.name)] + ser_contents(e.content, 0) + seq![TokenView::End(e.name)]
}

/// The token sequence of the content items of `cs` from position `i` on.
pub open spec fn ser_contents(cs: Seq<ContentView>, i: int) -> Seq<TokenView>
    decreases cs, cs.len() - i,
{
    if i < 0 || i >= cs.len() {
        Seq::<TokenView>::empty()
    } else {
        (match cs[i] {
            ContentView::Text(t) => seq![TokenView::Text(t)],
            ContentView::Child(c) => ser_elem(c),
        }) + ser_contents(cs, i + 1)
    }
}

impl Element {
    /// Appends this tree's token sequence to `out`.
    fn append_tokens(&self, out: &mut Vec<XmlToken>)
        ensures
            token_views(final(out)@) == token_views(old(out)@) + ser_elem(self@),
        decreases *self,
    {
        let ghost base = token_views(out@);
        let ghost ev = self@;
        out.push(XmlToken::Start(self.name.duplicate()));
        proof {
            lemma_elem_view(*self);
            assert(token_views(out@) =~= base.push(TokenView::Start(ev.name)));
        }
        let mut j: usize = 0;
        while j < self.content.len()
            invariant
                j <= self.content@.len(),
                ev == self@,
                base == token_views(old(out)@),
                token_views(out@) + ser_contents(ev.content, j as int) + seq![
                    TokenView::End(ev.name),
                ] == base + ser_elem(ev),
            decreases self.content@.len() - j,
        {
            let ghost mid = token_views(out@);
            proof {
                lemma_elem_view(*self);
                assert(ev.content[j as int] == crate::model::content_view(self.content@[j as int]));
            }
            match &self.content[j] {
                ElemContent::Text(t) => {
                    out.push(XmlToken::Text(t.clone()));
                    proof {
                        assert(token_views(out@) =~= mid.push(TokenView::Text(t@)));
                        assert(ser_contents(ev.content, j as int) =~= seq![
                            TokenView::Text(t@),
                        ] + ser_contents(ev.content, j as int + 1));
                        assert(token_views(out@) + ser_contents(ev.content, j as int + 1) =~= mid
                            + ser_contents(ev.content, j as int));
                        assert(token_views(out@) + ser_contents(ev.content, j as int + 1) + seq![
                            TokenView::End(ev.name),
                        ] =~= mid + ser_contents(ev.content, j as int) + seq![
                            TokenView::End(ev.name),
                        ]);
                    }
                },
                ElemContent::Child(c) => {
                    c.append_tokens(out);
                    proof {
                        assert(ser_contents(ev.content, j as int) =~= ser_elem(c@)
                            + ser_contents(ev.content, j as int + 1));
                        assert(token_views(out@) + ser_contents(ev.content, j as int + 1) =~= mid
                            + ser_contents(ev.content, j as int));
                        assert(token_views(out@) + ser_contents(ev.content, j as int + 1) + seq![
                            TokenView::End(ev.name),
                        ] =~= mid + ser_contents(ev.content, j as int) + seq![
                            TokenView::End(ev.name),
                        ]);
                    }
                },
            }
            j = j + 1;
        }
        let ghost mid = token_views(out@);
        out.push(XmlToken::End(self.name.duplicate()));
        proof {
            lemma_elem_view(*self);
            assert(ser_contents(ev.content, ev.content.len() as int)
                =~= Seq::<TokenView>::empty());
            assert(token_views(out@) =~= mid.push(TokenView::End(ev.name)));
            assert(token_views(out@) =~= mid + ser_contents(
                ev.content,
                ev.content.len() as int,
            ) + seq![TokenView::End(ev.name)]);
            assert(token_views(out@) =~= base + ser_elem(ev));
        }
    }

    /// Serializes this tree into the equivalent token sequence: its start
    /// token, its content items in document order, and its end token.
    pub fn to_tokens(&self) -> (r: Vec<XmlToken>)
        ensures
            token_views(r@) == ser_elem(self@),
    {
        let mut out: Vec<XmlToken> = Vec::new();
        proof {
            assert(token_views(out@) =~= Seq::<TokenView>::empty());
        }
        self.append_tokens(&mut out);
        proof {
            assert(Seq::<TokenView>::empty() + ser_elem(self@) =~= ser_elem(self@));
        }
        out
    }

    /// Writes this tree's directives into the given writer, depth-first.
    /// The start directive follows the three-way rule on the name: with a
    /// namespace and a prefix the tag is the qualified `prefix:local` form
    /// with its binding declared; with a namespace alone the bare local
    /// name with the default binding declared; with neither the bare local
    /// name alone. A fault of the emitter would be propagated, but the
    /// contract records that none occurs: the walk is balanced and the
    /// emitter accepts every directive of it.
    fn write_into(&self, w: &mut TokenWriter) -> (r: Result<(), XmlError>)
        requires
            open_depth(writer_directives(*old(w))) >= 0,
        ensures
            r is Ok,
            writer_directives(*final(w)) == writer_directives(*old(w)) + directives_of(
                ser_elem(self@),
            ),
            writer_pretty(*final(w)) == writer_pretty(*old(w)),
        decreases *self,
    {
        let ghost base = writer_directives(*w);
        let ghost ev = self@;
        let started = match (&self.name.namespace, &self.name.prefix) {
            (Some(ns), Some(prefix)) => write_start_prefixed(
                w,
                &self.name.local_name,
                ns.as_str(),
                prefix.as_str(),
            ),
            (Some(ns), None) => write_start_default_ns(w, &self.name.local_name, ns.as_str()),
            _ => write_start_plain(w, &self.name.local_name),
        };
        match started {
            Ok(()) => {},
            Err(e) => {
                return Err(e);
            },
        }
        proof {
            lemma_elem_view(*self);
            assert(writer_directives(*w) =~= base.push(Directive::Start(emitted_name(ev.name))));
            assert(base.push(Directive::Start(emitted_name(ev.name))) + directives_of(ser_contents(
                ev.content,
                0,
            )).push(Directive::End) =~= base + directives_of(ser_elem(ev)));
            lemma_open_depth_push(base, Directive::Start(emitted_name(ev.name)));
        }
        let mut j: usize = 0;
        while j < self.content.len()
            invariant
                j <= self.content@.len(),
                ev == self@,
                base == writer_directives(*old(w)),
                writer_pretty(*w) == writer_pretty(*old(w)),
                open_depth(base) >= 0,
                open_depth(writer_directives(*w)) == open_depth(base) + 1,
                writer_directives(*w) + directives_of(ser_contents(ev.content, j as int)).push(
                    Directive::End,
                ) == base + directives_of(ser_elem(ev)),
            decreases self.content@.len() - j,
        {
            let ghost mid = writer_directives(*w);
            proof {
                lemma_elem_view(*self);
                assert(ev.content[j as int] == crate::model::content_view(
                    self.content@[j as int],
                ));
            }
            match &self.content[j] {
                ElemContent::Text(t) => {
                    match write_text(w, t.as_str()) {
                        Ok(()) => {},
                        Err(e) => {
                            return Err(e);
                        },
                    }
                    proof {
                        assert(directives_of(ser_contents(ev.content, j as int)) =~= seq![
                            Directive::Text(t@),
                        ] + directives_of(ser_contents(ev.content, j as int + 1)));
                        assert(writer_directives(*w) + directives_of(ser_contents(
                            ev.content,
                            j as int + 1,
                        )).push(Directive::End) =~= mid + directives_of(ser_contents(
                            ev.content,
                            j as int,
                        )).push(Directive::End));
                        lemma_open_depth_push(mid, Directive::Text(t@));
                    }
                },
                ElemContent::Child(c) => {
                    match c.write_into(w) {
                        Ok(()) => {},
                        Err(e) => {
                            return Err(e);
                        },
                    }
                    proof {
                        assert(directives_of(ser_contents(ev.content, j as int)) =~= directives_of(
                            ser_elem(c@),
                        ) + directives_of(ser_contents(ev.content, j as int + 1)));
                        assert(writer_directives(*w) + directives_of(ser_contents(
                            ev.content,
                            j as int + 1,
                        )).push(Directive::End) =~= mid + directives_of(ser_contents(
                            ev.content,
                            j as int,
                        )).push(Directive::End));
                        lemma_open_depth_concat(mid, directives_of(ser_elem(c@)));
                        lemma_ser_dirs_balanced(c@);
                    }
                },
            }
            j = j + 1;
        }
        let ghost mid = writer_directives(*w);
        match write_end(w) {
            Ok(()) => {},
            Err(e) => {
                return Err(e);
            },
        }
        proof {
            lemma_elem_view(*self);
            assert(directives_of(ser_contents(ev.content, ev.content.len() as int))
                =~= Seq::<Directive>::empty());
            assert(mid + Seq::<Directive>::empty().push(Directive::End) =~= mid.push(
                Directive::End,
            ));
            assert(writer_directives(*w) =~= base + directives_of(ser_elem(ev)));
        }
        Ok(())
    }

    /// Converts this tree to printable text: serializes it into an
    /// in-memory buffer through the emitter and decodes the buffer. The
    /// one flag toggles pretty-printing — indentation and line breaks
    /// between structural directives — and nothing else: under either mode
    /// the directives rendered are exactly this tree's. The call always
    /// succeeds: the emitter accepts every balanced walk into an in-memory
    /// buffer and writes only valid text into it. The failure channel
    /// stays in the signature for the interface's sake.
    pub fn to_text(&self, pretty: bool) -> (r: Result<String, XmlError>)
        ensures
            r is Ok,
            r matches Ok(s) ==> s@ == rendered(directives_of(ser_elem(self@)), pretty),
    {
        let mut w = writer_new(pretty);
        match self.write_into(&mut w) {
            Ok(()) => {},
            Err(e) => {
                return Err(e);
            },
        }
        proof {
            assert(Seq::<Directive>::empty() + directives_of(ser_elem(self@)) =~= directives_of(
                ser_elem(self@),
            ));
        }
        writer_finish(w)
    }
}

/// A serialized element's directives are balanced: they leave no element
/// open.
proof fn lemma_ser_dirs_balanced(e: ElemView)
    ensures
        open_depth(directives_of(ser_elem(e))) == 0,
    decreases e, 1int,
{
    let start = seq![TokenView::Start(e.name)];
    let mid = ser_contents(e.content, 0);
    let end = seq![TokenView::End(e.name)];
    assert(directives_of(ser_elem(e)) =~= directives_of(start) + directives_of(mid)
        + directives_of(end));
    lemma_open_depth_concat(directives_of(start) + directives_of(mid), directives_of(end));
    lemma_open_depth_concat(directives_of(start), directives_of(mid));
    lemma_ser_contents_dirs_balanced(e.content, 0);
    assert(directives_of(start) =~= seq![Directive::Start(emitted_name(e.name))]);
    assert(directives_of(end) =~= seq![Directive::End]);
    assert(seq![Directive::Start(emitted_name(e.name))].drop_last() =~= Seq::<Directive>::empty());
    assert(seq![Directive::End].drop_last() =~= Seq::<Directive>::empty());
    assert(open_depth(Seq::<Directive>::empty()) == 0);
    assert(open_depth(seq![Directive::Start(emitted_name(e.name))]) == 1);
    assert(open_depth(seq![Directive::End]) == -1);
}

/// The directives of a run of content items are balanced too.
proof fn lemma_ser_contents_dirs_balanced(cs: Seq<ContentView>, i: int)
    requires
        0 <= i <= cs.len(),
    ensures
        open_depth(directives_of(ser_contents(cs, i))) == 0,
    decreases cs, cs.len() - i + 2,
{
    if i == cs.len() {
        assert(directives_of(ser_contents(cs, i)) =~= Seq::<Directive>::empty());
        assert(open_depth(Seq::<Directive>::empty()) == 0);
    } else {
        let rest = ser_contents(cs, i + 1);
        lemma_ser_contents_dirs_balanced(cs, i + 1);
        match cs[i] {
            ContentView::Text(t) => {
                assert(directives_of(ser_contents(cs, i)) =~= seq![Directive::Text(t)]
                    + directives_of(rest));
                lemma_open_depth_concat(seq![Directive::Text(t)], directives_of(rest));
                assert(seq![Directive::Text(t)].drop_last() =~= Seq::<Directive>::empty());
                assert(open_depth(Seq::<Directive>::empty()) == 0);
                assert(open_depth(seq![Directive::Text(t)]) == 0);
            },
            ContentView::Child(c) => {
                lemma_ser_dirs_balanced(c);
                assert(directives_of(ser_contents(cs, i)) =~= directives_of(ser_elem(c))
                    + directives_of(rest));
                lemma_open_depth_concat(directives_of(ser_elem(c)), directives_of(rest));
            },
        }
    }
}

/// The name an element opens under: a prefix without a namespace is
/// dropped, since only a namespace can be declared; names with a namespace
/// are emitted as they stand.
pub open spec fn emitted_name(n: crate::model::NameView) -> crate::model::NameView {
    if n.namespace is Some {
        n
    } else {
        crate::model::NameView { local_name: n.local_name, namespace: None, prefix: None }
    }
}

/// The emitter directive a structural token corresponds to. The serializer
/// never yields an ignorable token; the arm is present only to keep the
/// function total.
pub open spec fn directive_of(t: TokenView) -> Directive {
    match t {
        TokenView::Start(n) => Directive::Start(emitted_name(n)),
        TokenView::Text(s) => Directive::Text(s),
        TokenView::End(_) => Directive::End,
        TokenView::Ignorable => Directive::End,
    }
}

/// The emitter directives of a token sequence, in order.
pub open spec fn directives_of(ts: Seq<TokenView>) -> Seq<Directive> {
    Seq::new(ts.len(), |i: int| directive_of(ts[i]))
}

} // verus!
