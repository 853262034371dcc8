//! Trusted declarations over the `xml` crate's pull reader.
//!
//! The reader is modelled by the character stream it was created over and by
//! how many events have been pulled from it; what each pull yields is a
//! named, deterministic function of those two alone.

use vstd::prelude::*;
use crate::model::Name;
use crate::tokens::{XmlToken, TokenView};
use xml::common::Position;

verus! {

/// One pull of the reader: a structural token, the end of the document, or
/// a tokenization fault.
pub enum RawToken {
    /// A structural token of the document.
    Token(XmlToken),
    /// The document stream is exhausted.
    Finished,
    /// A tokenization fault: its row, its column, and its description.
    Fault(u64, u64, String),
}

/// The mathematical value of a [`RawToken`].
#[verifier::ext_equal]
pub enum RawView {
    /// A structural token.
    Token(TokenView),
    /// The stream is exhausted.
    Finished,
    /// A tokenization fault.
    Fault(u64, u64, Seq<char>),
}

impl View for RawToken {
    type V = RawView;

    open spec fn view(&self) -> RawView {
        match self {
            RawToken::Token(t) => RawView::Token(t@),
            RawToken::Finished => RawView::Finished,
            RawToken::Fault(row, column, msg) => RawView::Fault(*row, *column, msg@),
        }
    }
}

/// Holds the `xml` crate's pull reader over the borrowed input bytes. The
/// reader type itself cannot be declared to Verus because of the `Read`
/// bound on its type parameter, so it lives behind this opaque struct.
#[verifier::external_body]
pub struct TokenReader<'a> {
    inner: xml::reader::EventReader<&'a [u8]>,
}

/// The character stream a reader was created over.
pub uninterp spec fn reader_source(r: TokenReader) -> Seq<char>;

/// How many events have been pulled from a reader so far.
pub uninterp spec fn reader_pos(r: TokenReader) -> nat;

/// What pull number `i` (counted from zero) over the stream `s` yields. The
/// tokenizer is deterministic: the same stream gives the same pulls.
pub uninterp spec fn scan_token_at(s: Seq<char>, i: nat) -> RawView;

/// Whether a pull ends the stream: the end of the document, or a fault.
pub open spec fn is_terminal(t: RawView) -> bool {
    !(t is Token)
}

/// The structural tokens of the first `n` pulls over `s`.
pub open spec fn stream_tokens(s: Seq<char>, n: nat) -> Seq<TokenView> {
    Seq::new(
        n,
        |i: int| match scan_token_at(s, i as nat) {
            RawView::Token(t) => t,
            _ => TokenView::Ignorable,
        },
    )
}

/// Whether the stream over `s` ends exactly at pull `n`: that pull is the
/// first terminal one.
pub open spec fn stops_at(s: Seq<char>, n: nat) -> bool {
    is_terminal(scan_token_at(s, n)) && forall|k: nat| k < n ==> !is_terminal(scan_token_at(s, k))
}

/// Whether the stream over `s` ends at all.
pub open spec fn stream_ends(s: Seq<char>) -> bool {
    exists|n: nat| stops_at(s, n)
}

/// Relies on `xml::reader::EventReader::new`: a fresh reader over the bytes
/// of `s` has pulled no events yet, and every stream ends — some pull yields
/// the end of the document or a fault, since the tokenizer reads a finite
/// input and reports one of the two when it runs out.
#[verifier::external_body]
pub(crate) fn reader_new<'a>(s: &'a str) -> (r: TokenReader<'a>)
    ensures
        reader_source(r) == s@,
        reader_pos(r) == 0,
        stream_ends(reader_source(r)),
{
    TokenReader { inner: xml::reader::EventReader::new(s.as_bytes()) }
}

/// Relies on `xml::reader::EventReader::next`: each pull yields the next
/// event of the document, a deterministic function of the stream and of how
/// many events were pulled before. Element starts and ends carry their
/// qualified name, character runs carry their text, the end of the document
/// ends the stream, a fault carries its position and description, and every
/// other event kind is ignorable.
#[verifier::external_body]
pub(crate) fn reader_next(r: &mut TokenReader) -> (t: RawToken)
    ensures
        reader_source(*final(r)) == reader_source(*old(r)),
        reader_pos(*final(r)) == reader_pos(*old(r)) + 1,
        t@ == scan_token_at(reader_source(*old(r)), reader_pos(*old(r))),
{
    match r.inner.next() {
        Ok(xml::reader::XmlEvent::StartElement { name, .. }) => RawToken::Token(
            XmlToken::Start(Name { local_name: name.local_name, namespace: name.namespace, prefix: name.prefix }),
        ),
        Ok(xml::reader::XmlEvent::EndElement { name }) => RawToken::Token(
            XmlToken::End(Name { local_name: name.local_name, namespace: name.namespace, prefix: name.prefix }),
        ),
        Ok(xml::reader::XmlEvent::Characters(text)) => RawToken::Token(XmlToken::Text(text)),
        Ok(xml::reader::XmlEvent::EndDocument) => RawToken::Finished,
        Ok(_) => RawToken::Token(XmlToken::Ignorable),
        Err(e) => RawToken::Fault(e.position().row, e.position().column, format!("{e}")),
    }
}

} // verus!
