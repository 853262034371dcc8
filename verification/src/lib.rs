//! A limited, namespace-aware XML tree representation to aid in serializing
//! and deserializing SOAP-style messages.
//!
//! The crate models an XML document as a single rooted [`Element`] tree whose
//! nodes carry a qualified [`Name`] and an ordered mixed sequence of text runs
//! and child elements. A parser rebuilds a tree from the token events of the
//! `xml` crate's pull reader, and a serializer walks a tree back into emitter
//! directives. Attributes, comments, processing instructions and DTDs are out
//! of scope by design.

pub mod model;
pub mod errors;
pub mod tokens;
pub mod reader;
pub mod parse;
pub mod writer;
pub mod ser;
pub mod laws;

pub use model::{Element, ElemContent, Name, ToXml, FromXml};
pub use errors::XmlError;
pub use tokens::XmlToken;
