//! Trusted declarations over the `xml` crate's event emitter.
//!
//! The writer is modelled by the sequence of directives written to it and
//! by its indentation mode; the text the emitter renders is a named,
//! deterministic function of those two alone.

use vstd::prelude::*;
use crate::model::NameView;
use crate::errors::XmlError;

verus! {

/// One directive handed to the emitter, in order.
#[verifier::ext_equal]
pub enum Directive {
    /// Open an element. The name's three parts record the call made: a
    /// prefixed name declares its prefix-to-namespace binding on the
    /// element, a prefixless namespace is declared as the default binding,
    /// and a bare local name declares nothing.
    Start(NameView),
    /// A run of character data.
    Text(Seq<char>),
    /// Close the most recently opened element.
    End,
}

/// Holds the `xml` crate's event writer over an in-memory byte buffer. The
/// writer type itself cannot be declared to Verus because of the `Write`
/// bound on its impls, so it lives behind this opaque struct.
#[verifier::external_body]
pub struct TokenWriter {
    inner: xml::writer::EventWriter<Vec<u8>>,
}

/// The directives written to a writer so far, in order.
pub uninterp spec fn writer_directives(w: TokenWriter) -> Seq<Directive>;

/// Whether a writer pretty-prints: inserts indentation and line breaks
/// between structural directives.
pub uninterp spec fn writer_pretty(w: TokenWriter) -> bool;

/// The text the emitter renders for a sequence of directives under the
/// given indentation mode. The emitter is deterministic: the same
/// directives under the same mode give the same text.
pub uninterp spec fn rendered(ds: Seq<Directive>, pretty: bool) -> Seq<char>;

/// How many elements a directive sequence leaves open: its start
/// directives minus its end directives.
pub open spec fn open_depth(ds: Seq<Directive>) -> int
    decreases ds.len(),
{
    if ds.len() == 0 {
        0
    } else {
        open_depth(ds.drop_last()) + match ds.last() {
            Directive::Start(_) => 1int,
            Directive::Text(_) => 0int,
            Directive::End => -1int,
        }
    }
}

/// Appending one directive changes the open depth by that directive's
/// contribution.
pub proof fn lemma_open_depth_push(ds: Seq<Directive>, d: Directive)
    ensures
        open_depth(ds.push(d)) == open_depth(ds) + (match d {
            Directive::Start(_) => 1int,
            Directive::Text(_) => 0int,
            Directive::End => -1int,
        }),
{
    assert(ds.push(d).drop_last() =~= ds);
}

/// The open depth of a concatenation is the sum of the parts' depths.
pub proof fn lemma_open_depth_concat(a: Seq<Directive>, b: Seq<Directive>)
    ensures
        open_depth(a + b) == open_depth(a) + open_depth(b),
    decreases b.len(),
{
    if b.len() == 0 {
        assert(a + b =~= a);
    } else {
        lemma_open_depth_concat(a, b.drop_last());
        assert((a + b).drop_last() =~= a + b.drop_last());
        assert((a + b).last() == b.last());
    }
}

/// Relies on `xml::writer::EventWriter::new_with_config`, with an
/// `EmitterConfig` whose `perform_indent` is `pretty`: a fresh writer over
/// an empty in-memory buffer, with nothing written yet.
#[verifier::external_body]
pub(crate) fn writer_new(pretty: bool) -> (w: TokenWriter)
    ensures
        writer_directives(w) == Seq::<Directive>::empty(),
        writer_pretty(w) == pretty,
{
    let config = xml::writer::EmitterConfig::new().perform_indent(pretty);
    TokenWriter { inner: xml::writer::EventWriter::new_with_config(Vec::new(), config) }
}

/// Relies on `xml::writer::XmlEvent::start_element` and
/// `EventWriter::write`: opens an element under the bare local name, with
/// no namespace declaration. On this path the emitter can fail only on
/// I/O, which an in-memory byte buffer never reports, so the call
/// succeeds.
#[verifier::external_body]
pub(crate) fn write_start_plain(w: &mut TokenWriter, local: &str) -> (r: Result<(), XmlError>)
    ensures
        r is Ok,
        writer_directives(*final(w)) == writer_directives(*old(w)).push(
            Directive::Start(NameView { local_name: local@, namespace: None, prefix: None }),
        ),
        writer_pretty(*final(w)) == writer_pretty(*old(w)),
{
    match w.inner.write(xml::writer::XmlEvent::start_element(local)) {
        Ok(()) => Ok(()),
        Err(e) => Err(XmlError::StreamFault { row: 0, column: 0, message: format!("{e}") }),
    }
}

/// Relies on `xml::writer::XmlEvent::start_element` with `default_ns` and
/// `EventWriter::write`: opens an element under the bare local name and
/// declares `ns` as the default (unprefixed) namespace binding on it. On
/// this path the emitter can fail only on I/O, which an in-memory byte
/// buffer never reports, so the call succeeds.
#[verifier::external_body]
pub(crate) fn write_start_default_ns(w: &mut TokenWriter, local: &str, ns: &str) -> (r: Result<
    (),
    XmlError,
>)
    ensures
        r is Ok,
        writer_directives(*final(w)) == writer_directives(*old(w)).push(
            Directive::Start(NameView { local_name: local@, namespace: Some(ns@), prefix: None }),
        ),
        writer_pretty(*final(w)) == writer_pretty(*old(w)),
{
    match w.inner.write(xml::writer::XmlEvent::start_element(local).default_ns(ns)) {
        Ok(()) => Ok(()),
        Err(e) => Err(XmlError::StreamFault { row: 0, column: 0, message: format!("{e}") }),
    }
}

/// Relies on `xml::writer::XmlEvent::start_element` with `ns` and
/// `EventWriter::write`: opens an element under the `prefix:local`
/// qualified form and declares the prefix-to-namespace binding on it. On
/// this path the emitter can fail only on I/O, which an in-memory byte
/// buffer never reports, so the call succeeds.
#[verifier::external_body]
pub(crate) fn write_start_prefixed(
    w: &mut TokenWriter,
    local: &str,
    ns: &str,
    prefix: &str,
) -> (r: Result<(), XmlError>)
    ensures
        r is Ok,
        writer_directives(*final(w)) == writer_directives(*old(w)).push(
            Directive::Start(
                NameView { local_name: local@, namespace: Some(ns@), prefix: Some(prefix@) },
            ),
        ),
        writer_pretty(*final(w)) == writer_pretty(*old(w)),
{
    let qualified = format!("{prefix}:{local}");
    match w.inner.write(xml::writer::XmlEvent::start_element(qualified.as_str()).ns(prefix, ns)) {
        Ok(()) => Ok(()),
        Err(e) => Err(XmlError::StreamFault { row: 0, column: 0, message: format!("{e}") }),
    }
}

/// Relies on `xml::writer::XmlEvent::characters` and `EventWriter::write`:
/// writes a run of character data, escaped as the emitter requires. On
/// this path the emitter can fail only on I/O, which an in-memory byte
/// buffer never reports, so the call succeeds.
#[verifier::external_body]
pub(crate) fn write_text(w: &mut TokenWriter, text: &str) -> (r: Result<(), XmlError>)
    ensures
        r is Ok,
        writer_directives(*final(w)) == writer_directives(*old(w)).push(
            Directive::Text(text@),
        ),
        writer_pretty(*final(w)) == writer_pretty(*old(w)),
{
    match w.inner.write(xml::writer::XmlEvent::characters(text)) {
        Ok(()) => Ok(()),
        Err(e) => Err(XmlError::StreamFault { row: 0, column: 0, message: format!("{e}") }),
    }
}

/// Relies on `xml::writer::XmlEvent::end_element` and
/// `EventWriter::write`: closes the most recently opened element. The
/// emitter refuses an end only when no element is open, and otherwise can
/// fail only on I/O, which an in-memory byte buffer never reports; with an
/// element open the call succeeds.
#[verifier::external_body]
pub(crate) fn write_end(w: &mut TokenWriter) -> (r: Result<(), XmlError>)
    requires
        open_depth(writer_directives(*old(w))) > 0,
    ensures
        r is Ok,
        writer_directives(*final(w)) == writer_directives(*old(w)).push(Directive::End),
        writer_pretty(*final(w)) == writer_pretty(*old(w)),
{
    match w.inner.write(xml::writer::XmlEvent::end_element()) {
        Ok(()) => Ok(()),
        Err(e) => Err(XmlError::StreamFault { row: 0, column: 0, message: format!("{e}") }),
    }
}

/// Relies on `xml::writer::EventWriter::into_inner` and
/// `String::from_utf8`: the finished buffer holds exactly the text the
/// emitter rendered for the directives written, under the writer's
/// indentation mode. The emitter writes only valid text into the buffer,
/// so the decode succeeds; the fault arm stands for the interface's sake.
#[verifier::external_body]
pub(crate) fn writer_finish(w: TokenWriter) -> (r: Result<String, XmlError>)
    ensures
        r is Ok,
        r matches Ok(s) ==> s@ == rendered(writer_directives(w), writer_pretty(w)),
{
    match String::from_utf8(w.inner.into_inner()) {
        Ok(text) => Ok(text),
        Err(_) => Err(XmlError::TextDecodingFault),
    }
}

} // verus!
