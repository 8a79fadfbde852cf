//! What can go wrong while fields are extracted.

use vstd::prelude::*;

verus! {

/// The reasons for which an extraction is given up.
///
/// An extraction either yields all fields of a document or exactly one of
/// these; no fields are handed out beside an error.
#[derive(Debug, Clone, PartialEq, Eq)]
pub enum Error {
    /// The document is not well-formed where it was read.
    MalformedDocument,
    /// The `type` attribute of a field holds none of the known type names.
    /// Carries the value found.
    UnrecognizedFieldType(String),
    /// A field carries an attribute that fields do not have. Carries its key.
    UnknownFieldAttribute(String),
    /// A field holds a child element other than `value`. Carries its name.
    UnexpectedChildElement(String),
    /// The document ends inside a field.
    UnexpectedEndOfDocument,
}

/// The mathematical content of an [`Error`].
pub enum ErrorModel {
    MalformedDocument,
    UnrecognizedFieldType(Seq<char>),
    UnknownFieldAttribute(Seq<char>),
    UnexpectedChildElement(Seq<char>),
    UnexpectedEndOfDocument,
}

impl View for Error {
    type V = ErrorModel;

    open spec fn view(&self) -> ErrorModel {
        match self {
            Error::MalformedDocument => ErrorModel::MalformedDocument,
            Error::UnrecognizedFieldType(value) => ErrorModel::UnrecognizedFieldType(value@),
            Error::UnknownFieldAttribute(key) => ErrorModel::UnknownFieldAttribute(key@),
            Error::UnexpectedChildElement(name) => ErrorModel::UnexpectedChildElement(name@),
            Error::UnexpectedEndOfDocument => ErrorModel::UnexpectedEndOfDocument,
        }
    }
}

} // verus!
