//! The structural token events that the parser consumes and the serializer
//! produces.

use vstd::prelude::*;
use crate::model::{Name, NameView};

verus! {

/// One structural event of a document, in document order.
#[derive(Debug)]
pub enum XmlToken {
    /// An element starts, with its qualified name.
    Start(Name),
    /// A run of character data.
    Text(String),
    /// An element ends, with the qualified name of the closed tag.
    End(Name),
    /// Any other event kind (whitespace runs, comments, processing
    /// instructions, document declarations); the parser ignores these.
    Ignorable,
}

/// The mathematical value of an [`XmlToken`].
#[verifier::ext_equal]
pub enum TokenView {
    /// An element starts.
    Start(NameView),
    /// A run of character data.
    Text(Seq<char>),
    /// An element ends.
    End(NameView),
    /// An ignored event kind.
    Ignorable,
}

impl View for XmlToken {
    type V = TokenView;

    open spec fn view(&self) -> TokenView {
        match self {
            XmlToken::Start(n) => TokenView::Start(n@),
            XmlToken::Text(s) => TokenView::Text(s@),
            XmlToken::End(n) => TokenView::End(n@),
            XmlToken::Ignorable => TokenView::Ignorable,
        }
    }
}

/// The values of a sequence of tokens.
pub open spec fn token_views(ts: Seq<XmlToken>) -> Seq<TokenView> {
    Seq::new(ts.len(), |i: int| ts[i]@)
}

} // verus!
