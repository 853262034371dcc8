//! The failure values that parsing and formatting return.

use vstd::prelude::*;

verus! {

/// A failure reported while parsing or formatting a document.
#[derive(Debug)]
pub enum XmlError {
    /// Wraps a tokenization or emission fault reported by the underlying
    /// `xml` collaborator, with its source position when one was supplied
    /// (and a zeroed position otherwise).
    StreamFault {
        /// The row of the fault, counted from zero.
        row: u64,
        /// The column of the fault, counted from zero.
        column: u64,
        /// The collaborator's description of the fault.
        message: String,
    },
    /// Parsing completed with zero roots produced. Carries no position.
    EmptyOrInvalidDocument,
    /// A second top-level element was completed during parsing.
    MultipleRootsDetected,
    /// The formatting wrapper's intermediate byte buffer is not valid text.
    TextDecodingFault,
}

/// The mathematical value of an [`XmlError`].
#[verifier::ext_equal]
pub enum ErrorView {
    /// A collaborator fault with its position and description.
    StreamFault { row: u64, column: u64, message: Seq<char> },
    /// Zero roots were produced.
    EmptyOrInvalidDocument,
    /// A second top-level element was completed.
    MultipleRootsDetected,
    /// The intermediate byte buffer is not valid text.
    TextDecodingFault,
}

impl View for XmlError {
    type V = ErrorView;

    open spec fn view(&self) -> ErrorView {
        match *self {
            XmlError::StreamFault { row, column, message } => ErrorView::StreamFault {
                row,
                column,
                message: message@,
            },
            XmlError::EmptyOrInvalidDocument => ErrorView::EmptyOrInvalidDocument,
            XmlError::MultipleRootsDetected => ErrorView::MultipleRootsDetected,
            XmlError::TextDecodingFault => ErrorView::TextDecodingFault,
        }
    }
}

} // verus!
