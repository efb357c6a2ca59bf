//! Composer's `composer.lock`: a JSON document whose member `packages` lists
//! the locked packages.

use vstd::prelude::*;
use crate::error::{outcome_view, LockError};
use crate::json_text::{json_document, parse_json};
use crate::records::{version_in, version_in_document};

verus! {

/// What `composer.lock` content says of `library`: an error where the content
/// is no JSON or not laid out as a lock file, else the version of the first
/// package of that name, if any.
pub open spec fn composer_version(content: Seq<char>, library: Seq<char>) -> Result<
    Option<Seq<char>>,
    LockError,
> {
    match json_document(content) {
        Some(doc) => version_in(doc, "packages"@, library),
        None => Err(LockError::Syntax),
    }
}

/// The version that the lock file `content` pins for `library`.
pub fn get_library_version(content: &str, library: &str) -> (outcome: Result<
    Option<String>,
    LockError,
>)
    ensures
        outcome_view(outcome) == composer_version(content@, library@),
{
    match parse_json(content) {
        Ok(doc) => version_in_document(&doc, "packages", library),
        Err(e) => Err(e),
    }
}

} // verus!
