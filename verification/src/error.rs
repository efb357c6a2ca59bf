//! Why a lock file could not be read.

use vstd::prelude::*;
use crate::text::optional_text;

verus! {

/// The two ways in which the content of a lock file is unusable.
#[derive(Debug, Clone, Copy, PartialEq, Eq, Structural)]
pub enum LockError {
    /// The text is not a document of the format's syntax at all.
    Syntax,
    /// The text is a document, but not one laid out as the format demands:
    /// the package collection is missing or of the wrong kind, or one of its
    /// entries lacks a required field or holds a value of the wrong kind.
    Shape,
}

/// What the outcome of reading a version stands for: a text in place of the
/// string.
pub open spec fn outcome_view(outcome: Result<Option<String>, LockError>) -> Result<
    Option<Seq<char>>,
    LockError,
> {
    match outcome {
        Ok(version) => Ok(optional_text(version)),
        Err(e) => Err(e),
    }
}

} // verus!
