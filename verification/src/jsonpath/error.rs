//! Errors of JSONPath parsing.
use vstd::prelude::*;

verus! {

/// Why a JSONPath query could not be parsed.
#[derive(Debug)]
pub enum JsonPathError {
    /// A character other than the one expected was found at `position`.
    UnexpectedToken { position: usize, found: String, expected: String },
    /// The query ended where more was expected.
    UnexpectedEnd { expected: String },
    /// The query is malformed in another way.
    InvalidSyntax { message: String },
}

/// The mathematical model of a parse error.
pub enum ErrorModel {
    UnexpectedToken { position: nat, found: Seq<char>, expected: Seq<char> },
    UnexpectedEnd { expected: Seq<char> },
    InvalidSyntax { message: Seq<char> },
}

impl View for JsonPathError {
    type V = ErrorModel;

    open spec fn view(&self) -> ErrorModel {
        match self {
            JsonPathError::UnexpectedToken { position, found, expected } => ErrorModel::UnexpectedToken {
                position: *position as nat,
                found: found@,
                expected: expected@,
            },
            JsonPathError::UnexpectedEnd { expected } => ErrorModel::UnexpectedEnd { expected: expected@ },
            JsonPathError::InvalidSyntax { message } => ErrorModel::InvalidSyntax { message: message@ },
        }
    }
}

} // verus!
