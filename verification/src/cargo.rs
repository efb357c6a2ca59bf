//! Cargo's `Cargo.lock`: a TOML document whose array of tables `package`
//! lists the locked packages.

use vstd::prelude::*;
use crate::error::{outcome_view, LockError};
use crate::records::{version_in, version_in_document};
use crate::toml_text::{parse_toml, toml_document};

verus! {

/// What `Cargo.lock` content says of `library`: an error where the content is
/// no TOML or not laid out as a lock file, else the version of the first
/// package of that name, if any.
pub open spec fn cargo_version(content: Seq<char>, library: Seq<char>) -> Result<
    Option<Seq<char>>,
    LockError,
> {
    match toml_document(content) {
        Some(doc) => version_in(doc, "package"@, library),
        None => Err(LockError::Syntax),
    }
}

/// The version that the lock file `content` pins for `library`.
pub fn get_library_version(content: &str, library: &str) -> (outcome: Result<
    Option<String>,
    LockError,
>)
    ensures
        outcome_view(outcome) == cargo_version(content@, library@),
{
    match parse_toml(content) {
        Ok(doc) => version_in_document(&doc, "package", library),
        Err(e) => Err(e),
    }
}

} // verus!
