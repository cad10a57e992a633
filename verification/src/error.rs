//! Typed failures of reading and scalar coercion.  Every error is returned
//! to the immediate caller; nothing is retried or swallowed.

use vstd::prelude::*;

verus! {

/// A failure while tokenizing, reading, or coercing.
#[derive(Debug, PartialEq)]
pub enum Error {
    /// The character input is not a well-formed token stream.
    Syntax,
    /// Integer coercion failed on this text.
    ParseInt { found: String },
    /// Boolean coercion failed on this text.
    ParseBool { found: String },
    /// The stream ended before a required closing token.
    UnexpectedEof,
    /// A different element name stood where `expected` was required.
    UnexpectedTag { expected: String, found: String },
    /// A structurally invalid event: text where only elements may stand, or
    /// a second occurrence of a single-valued child.
    UnexpectedEvent,
    /// A required attribute was absent: `name` is the element tag, `field`
    /// the attribute name.
    MissingField { name: String, field: String },
    /// A scalar was read but its text matches no known value of the target
    /// type.
    UnknownValue { found: String },
}

/// Mathematical model of an `Error`.
#[verifier::ext_equal]
pub enum ErrorModel {
    Syntax,
    ParseInt { found: Seq<char> },
    ParseBool { found: Seq<char> },
    UnexpectedEof,
    UnexpectedTag { expected: Seq<char>, found: Seq<char> },
    UnexpectedEvent,
    MissingField { name: Seq<char>, field: Seq<char> },
    UnknownValue { found: Seq<char> },
}

impl View for Error {
    type V = ErrorModel;

    open spec fn view(&self) -> ErrorModel {
        match self {
            Error::Syntax => ErrorModel::Syntax,
            Error::ParseInt { found } => ErrorModel::ParseInt { found: found@ },
            Error::ParseBool { found } => ErrorModel::ParseBool { found: found@ },
            Error::UnexpectedEof => ErrorModel::UnexpectedEof,
            Error::UnexpectedTag { expected, found } => ErrorModel::UnexpectedTag {
                expected: expected@,
                found: found@,
            },
            Error::UnexpectedEvent => ErrorModel::UnexpectedEvent,
            Error::MissingField { name, field } => ErrorModel::MissingField {
                name: name@,
                field: field@,
            },
            Error::UnknownValue { found } => ErrorModel::UnknownValue { found: found@ },
        }
    }
}

} // verus!
