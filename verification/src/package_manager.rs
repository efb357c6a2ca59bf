//! The supported lock-file formats and the file names that select them.

use vstd::prelude::*;
use crate::cargo::cargo_version;
use crate::composer::composer_version;
use crate::error::{outcome_view, LockError};
use crate::npm::npm_version;
use crate::text::text_eq;

verus! {

/// A package manager whose lock file can be read.
#[derive(Debug, Clone, Copy, PartialEq, Eq, Structural)]
pub enum PackageManager {
    /// PHP's Composer: `composer.lock`, a JSON document.
    Composer,
    /// Rust's Cargo: `Cargo.lock`, a TOML document.
    Cargo,
    /// Node's npm: `package-lock.json`, a JSON document.
    Npm,
}

impl PackageManager {
    /// The one file name by which this format is recognised.
    pub open spec fn spec_lock_file_name(self) -> Seq<char> {
        match self {
            PackageManager::Composer => "composer.lock"@,
            PackageManager::Cargo => "Cargo.lock"@,
            PackageManager::Npm => "package-lock.json"@,
        }
    }

    /// The format that a bare file name selects: the name has to be one of the
    /// three recognised names, letter for letter.
    pub open spec fn spec_guess(file_name: Seq<char>) -> Option<PackageManager> {
        if file_name == "composer.lock"@ {
            Some(PackageManager::Composer)
        } else if file_name == "Cargo.lock"@ {
            Some(PackageManager::Cargo)
        } else if file_name == "package-lock.json"@ {
            Some(PackageManager::Npm)
        } else {
            None
        }
    }

    /// What lock-file `content` of this format says of `library`.
    pub open spec fn spec_library_version(
        self,
        content: Seq<char>,
        library: Seq<char>,
    ) -> Result<Option<Seq<char>>, LockError> {
        match self {
            PackageManager::Composer => composer_version(content, library),
            PackageManager::Cargo => cargo_version(content, library),
            PackageManager::Npm => npm_version(content, library),
        }
    }

    /// The format whose lock file is taken where none was asked for: the
    /// first that is present, looking for Cargo's, then Composer's, then npm's.
    pub open spec fn spec_detect(cargo: bool, composer: bool, npm: bool) -> Option<
        PackageManager,
    > {
        if cargo {
            Some(PackageManager::Cargo)
        } else if composer {
            Some(PackageManager::Composer)
        } else if npm {
            Some(PackageManager::Npm)
        } else {
            None
        }
    }

    /// The name of this format's lock file.
    pub fn lock_file_name(&self) -> (name: &'static str)
        ensures
            name@ == self.spec_lock_file_name(),
    {
        match self {
            PackageManager::Composer => "composer.lock",
            PackageManager::Cargo => "Cargo.lock",
            PackageManager::Npm => "package-lock.json",
        }
    }

    /// Picks the format by the bare name of the lock file. Names are matched
    /// exactly and with regard to case; any other name selects no format.
    pub fn guess_from_file_name(file_name: &str) -> (guess: Option<PackageManager>)
        ensures
            guess == Self::spec_guess(file_name@),
    {
        if text_eq(file_name, "composer.lock") {
            Some(PackageManager::Composer)
        } else if text_eq(file_name, "Cargo.lock") {
            Some(PackageManager::Cargo)
        } else if text_eq(file_name, "package-lock.json") {
            Some(PackageManager::Npm)
        } else {
            None
        }
    }

    /// Chooses the lock file to read where the caller named none. Each flag
    /// says whether the lock file of that format is present.
    pub fn detect_file(cargo: bool, composer: bool, npm: bool) -> (found: Option<PackageManager>)
        ensures
            found == Self::spec_detect(cargo, composer, npm),
    {
        if cargo {
            Some(PackageManager::Cargo)
        } else if composer {
            Some(PackageManager::Composer)
        } else if npm {
            Some(PackageManager::Npm)
        } else {
            None
        }
    }

    /// The version that lock-file `content` of this format pins for `library`.
    pub fn get_library_version(&self, content: &str, library: &str) -> (outcome: Result<
        Option<String>,
        LockError,
    >)
        ensures
            outcome_view(outcome) == self.spec_library_version(content@, library@),
    {
        match self {
            PackageManager::Composer => crate::composer::get_library_version(content, library),
            PackageManager::Cargo => crate::cargo::get_library_version(content, library),
            PackageManager::Npm => crate::npm::get_library_version(content, library),
        }
    }
}

/// Every format is selected by its own lock file's name, and a name selects a
/// format only if it is that format's name.
pub proof fn lemma_guess_inverts_lock_file_name(format: PackageManager, file_name: Seq<char>)
    ensures
        PackageManager::spec_guess(format.spec_lock_file_name()) == Some(format),
        PackageManager::spec_guess(file_name) == Some(format) ==> file_name
            == format.spec_lock_file_name(),
{
    reveal_strlit("composer.lock");
    reveal_strlit("Cargo.lock");
    reveal_strlit("package-lock.json");
    assert("composer.lock"@.len() == 13);
    assert("Cargo.lock"@.len() == 10);
    assert("package-lock.json"@.len() == 17);
}

} // verus!
