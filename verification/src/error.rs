//! What makes a run fail.

use crate::classify::ClassifyError;
use vstd::prelude::*;

verus! {

/// Why no verdicts can be given for a log. Every one of these ends the run:
/// there is no partial result.
#[derive(Debug)]
pub enum OracleError {
    /// The line at index `line` is not JSON; `cause` is what the JSON reader said.
    Syntax { line: usize, cause: serde_json::Error },
    /// The line at index `line` is JSON, but no record: it is not a mapping,
    /// or a mapping without entries.
    Shape { line: usize, fault: ClassifyError },
    /// The assertion `id` was observed, but no record declares it.
    MissingDeclaration { id: String },
}

/// An [`OracleError`] in specifications. What the JSON reader said of a
/// line is left out: it is for people to read.
pub enum ErrorView {
    Syntax { line: int },
    Shape { line: int, fault: ClassifyError },
    MissingDeclaration { id: Seq<char> },
}

impl View for OracleError {
    type V = ErrorView;

    open spec fn view(&self) -> ErrorView {
        match *self {
            OracleError::Syntax { line, cause } => ErrorView::Syntax { line: line as int },
            OracleError::Shape { line, fault } => ErrorView::Shape { line: line as int, fault },
            OracleError::MissingDeclaration { id } => ErrorView::MissingDeclaration { id: id@ },
        }
    }
}

} // verus!
