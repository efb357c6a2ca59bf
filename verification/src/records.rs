//! Lock files that list their packages as records of a name and a version.
//!
//! Two formats share this layout and differ only in their syntax and in the
//! name of the field that holds the list.

use vstd::prelude::*;
use crate::document::{values_of, DocValue, Node};
use crate::error::{outcome_view, LockError};
use crate::text::text_eq;

verus! {

/// One entry of a lock file: a package and the version pinned for it.
#[derive(Debug, Clone, PartialEq, Eq)]
pub struct Package {
    /// Package name
    pub name: String,
    /// Package version
    pub version: String,
}

/// A [`Package`] as a pair of texts.
pub struct PackageModel {
    pub name: Seq<char>,
    pub version: Seq<char>,
}

impl View for Package {
    type V = PackageModel;

    open spec fn view(&self) -> PackageModel {
        PackageModel { name: self.name@, version: self.version@ }
    }
}

/// The models of a sequence of packages, one by one.
pub open spec fn models_of(packages: Seq<Package>) -> Seq<PackageModel> {
    Seq::new(packages.len(), |i: int| packages[i]@)
}

/// The record that a list item holds: the item has to be a table whose
/// members `name` and `version` are both strings. Other members are ignored.
pub open spec fn record(item: DocValue) -> Option<PackageModel> {
    match (item.member("name"@), item.member("version"@)) {
        (Some(DocValue::Text(name)), Some(DocValue::Text(version))) => Some(
            PackageModel { name, version },
        ),
        _ => None,
    }
}

/// The records of a document: its member `field` has to be a list, and every
/// item of the list a record. One item that is none spoils the whole document.
pub open spec fn records(doc: DocValue, field: Seq<char>) -> Option<Seq<PackageModel>> {
    match doc.member(field) {
        Some(DocValue::List(items)) => if forall|i: int|
            0 <= i < items.len() ==> (#[trigger] record(items[i])) is Some {
            Some(Seq::new(items.len(), |i: int| record(items[i])->0))
        } else {
            None
        },
        _ => None,
    }
}

/// The version of the first package called `library`, if there is one.
pub open spec fn pinned_version(packages: Seq<PackageModel>, library: Seq<char>) -> Option<
    Seq<char>,
>
    decreases packages.len(),
{
    if packages.len() == 0 {
        None
    } else if packages[0].name == library {
        Some(packages[0].version)
    } else {
        pinned_version(packages.drop_first(), library)
    }
}

/// What reading the version of `library` out of a document gives.
pub open spec fn version_in(doc: DocValue, field: Seq<char>, library: Seq<char>) -> Result<
    Option<Seq<char>>,
    LockError,
> {
    match records(doc, field) {
        Some(packages) => Ok(pinned_version(packages, library)),
        None => Err(LockError::Shape),
    }
}

/// `pinned_version` finds the first package of the name, and finds none only
/// where no package has the name.
pub proof fn lemma_pinned_version_is_first_match(packages: Seq<PackageModel>, library: Seq<char>)
    ensures
        match pinned_version(packages, library) {
            Some(version) => exists|i: int|
                0 <= i < packages.len() && (#[trigger] packages[i]).name == library
                    && packages[i].version == version && forall|k: int|
                    0 <= k < i ==> (#[trigger] packages[k]).name != library,
            None => forall|i: int|
                0 <= i < packages.len() ==> (#[trigger] packages[i]).name != library,
        },
    decreases packages.len(),
{
    if packages.len() == 0 {
    } else if packages[0].name == library {
        assert(packages[0].version == pinned_version(packages, library)->0);
    } else {
        let rest = packages.drop_first();
        lemma_pinned_version_is_first_match(rest, library);
        match pinned_version(rest, library) {
            Some(version) => {
                let j = choose|j: int|
                    0 <= j < rest.len() && (#[trigger] rest[j]).name == library && rest[j].version
                        == version && forall|k: int|
                        0 <= k < j ==> (#[trigger] rest[k]).name != library;
                let i = j + 1;
                assert(packages[i] == rest[j]);
                assert forall|k: int| 0 <= k < i implies (#[trigger] packages[k]).name
                    != library by {
                    if k > 0 {
                        assert(packages[k] == rest[k - 1]);
                    }
                }
            },
            None => {
                assert forall|i: int| 0 <= i < packages.len() implies (#[trigger] packages[i]).name
                    != library by {
                    if i > 0 {
                        assert(packages[i] == rest[i - 1]);
                    }
                }
            },
        }
    }
}

/// Looking from position `from` on: the packages before it do not count.
proof fn lemma_pinned_version_skips(packages: Seq<PackageModel>, library: Seq<char>, from: int)
    requires
        0 <= from <= packages.len(),
        forall|k: int| 0 <= k < from ==> packages[k].name != library,
    ensures
        pinned_version(packages, library) == pinned_version(packages.skip(from), library),
    decreases from,
{
    if from == 0 {
        assert(packages.skip(0) =~= packages);
    } else {
        lemma_pinned_version_skips(packages, library, from - 1);
        let rest = packages.skip(from - 1);
        assert(rest[0] == packages[from - 1]);
        assert(rest.drop_first() =~= packages.skip(from));
    }
}

/// Reads one list item as a package record.
pub fn read_package(item: &Node) -> (found: Option<Package>)
    ensures
        match found {
            Some(package) => record(item@) == Some(package@),
            None => record(item@) is None,
        },
{
    let name = match item.member("name") {
        Some(node) => match node.text() {
            Some(text) => text.clone(),
            None => {
                return None;
            },
        },
        None => {
            return None;
        },
    };
    let version = match item.member("version") {
        Some(node) => match node.text() {
            Some(text) => text.clone(),
            None => {
                return None;
            },
        },
        None => {
            return None;
        },
    };
    Some(Package { name, version })
}

/// Reads the packages that a document lists under `field`.
pub fn read_packages(doc: &Node, field: &str) -> (outcome: Result<Vec<Package>, LockError>)
    ensures
        match outcome {
            Ok(packages) => records(doc@, field@) == Some(models_of(packages@)),
            Err(e) => e == LockError::Shape && records(doc@, field@) is None,
        },
{
    let items = match doc.member(field) {
        Some(list) => match list.items() {
            Some(items) => items,
            None => {
                return Err(LockError::Shape);
            },
        },
        None => {
            return Err(LockError::Shape);
        },
    };
    let ghost values = values_of(items@);
    let mut packages: Vec<Package> = Vec::new();
    let mut i: usize = 0;
    while i < items.len()
        invariant
            i <= items@.len(),
            values == values_of(items@),
            doc@.member(field@) == Some(DocValue::List(values)),
            packages@.len() == i,
            forall|k: int| 0 <= k < i ==> record(#[trigger] values[k]) == Some(packages@[k]@),
        decreases items@.len() - i,
    {
        match read_package(&items[i]) {
            Some(package) => {
                packages.push(package);
            },
            None => {
                assert(record(values[i as int]) is None);
                return Err(LockError::Shape);
            },
        }
        i += 1;
    }
    proof {
        let expected = Seq::new(values.len(), |k: int| record(values[k])->0);
        assert(expected =~= models_of(packages@));
    }
    Ok(packages)
}

/// The version of the first package whose name is exactly `library`.
pub fn find_version(packages: &Vec<Package>, library: &str) -> (found: Option<String>)
    ensures
        match found {
            Some(version) => pinned_version(models_of(packages@), library@) == Some(version@),
            None => pinned_version(models_of(packages@), library@) is None,
        },
{
    let ghost all = models_of(packages@);
    let mut i: usize = 0;
    while i < packages.len()
        invariant
            i <= packages@.len(),
            all == models_of(packages@),
            forall|k: int| 0 <= k < i ==> all[k].name != library@,
        decreases packages@.len() - i,
    {
        if text_eq(packages[i].name.as_str(), library) {
            proof {
                lemma_pinned_version_skips(all, library@, i as int);
                assert(all.skip(i as int)[0] == all[i as int]);
            }
            return Some(packages[i].version.clone());
        }
        i += 1;
    }
    proof {
        lemma_pinned_version_skips(all, library@, i as int);
        assert(all.skip(i as int).len() == 0);
    }
    None
}

/// Reads the version of `library` out of a parsed document that lists its
/// packages under `field`.
pub fn version_in_document(doc: &Node, field: &str, library: &str) -> (outcome: Result<
    Option<String>,
    LockError,
>)
    ensures
        outcome_view(outcome) == version_in(doc@, field@, library@),
{
    match read_packages(doc, field) {
        Ok(packages) => Ok(find_version(&packages, library)),
        Err(e) => Err(e),
    }
}

} // verus!
