//! The errors of matching a line and of looking up a field.
use vstd::prelude::*;

verus! {

/// Why a line could not be matched, or a field could not be read.
#[allow(inconsistent_fields)]
#[derive(Debug, PartialEq, Eq)]
pub enum ParseErr {
    /// The `request` field did not split into exactly three space-separated parts.
    MalformedRequestField,
    /// A literal did not match the line, or two variables stood side by side.
    WrongSequence { expected: String, actual: String },
    /// The number of segments consumed differs from the number in the template.
    FieldMismatch { expected: usize, actual: usize },
    /// The requested field is not in the result.
    NoField { field: String },
}

/// An error as a mathematical value.
#[allow(inconsistent_fields)]
pub enum ParseErrModel {
    MalformedRequestField,
    WrongSequence { expected: Seq<char>, actual: Seq<char> },
    FieldMismatch { expected: nat, actual: nat },
    NoField { field: Seq<char> },
}

impl View for ParseErr {
    type V = ParseErrModel;

    open spec fn view(&self) -> ParseErrModel {
        match self {
            ParseErr::MalformedRequestField => ParseErrModel::MalformedRequestField,
            ParseErr::WrongSequence { expected, actual } => ParseErrModel::WrongSequence {
                expected: expected@,
                actual: actual@,
            },
            ParseErr::FieldMismatch { expected, actual } => ParseErrModel::FieldMismatch {
                expected: *expected as nat,
                actual: *actual as nat,
            },
            ParseErr::NoField { field } => ParseErrModel::NoField { field: field@ },
        }
    }
}

} // verus!
