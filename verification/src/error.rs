//! The ways in which decoding, encoding or validating a value can fail.

use vstd::prelude::*;

verus! {

/// Why an operation of this crate failed.
#[derive(Debug, Clone, PartialEq, Eq)]
pub enum Error {
    /// The event stream ended before the element that was being read was closed.
    Eof,
    /// Character data or an attribute value that had to be read cannot be decoded.
    MalformedText,
    /// The document is not well-formed XML; the text says what the XML parser found.
    Xml(String),
    /// A value failed validation; the text gives the reason.
    Validation(String),
}

/// What an [`Error`] means, without its diagnostic text where that text is
/// not part of the behaviour this crate specifies.
pub enum ErrorModel {
    Eof,
    MalformedText,
    Xml,
    Validation { reason: Seq<char> },
}

impl View for Error {
    type V = ErrorModel;

    open spec fn view(&self) -> ErrorModel {
        match self {
            Error::Eof => ErrorModel::Eof,
            Error::MalformedText => ErrorModel::MalformedText,
            Error::Xml(_) => ErrorModel::Xml,
            Error::Validation(reason) => ErrorModel::Validation { reason: reason@ },
        }
    }
}

} // verus!
