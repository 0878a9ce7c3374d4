//! Errors surfaced by the statement layer above the file manager.

use vstd::prelude::*;

verus! {

/// Failure of a statement execution.
#[derive(Debug, Clone, Copy, PartialEq, Eq, Structural, Hash, PartialOrd, Ord)]
pub enum StatementError {
    RuntimeError,
}

impl StatementError {
    /// A human-readable description of the error.
    pub fn message(&self) -> (r: &'static str)
        ensures
            r@ == "runtime error"@,
    {
        "runtime error"
    }
}

} // verus!
