//! npm's `package-lock.json`: a JSON document whose member `packages` maps
//! the path of every installed package to what is known of it.

use vstd::prelude::*;
use vstd::string::StringExecFns;
use crate::document::{members_of, DocValue, Node};
use crate::error::{outcome_view, LockError};
use crate::json_text::{json_document, parse_json};
use crate::text::{optional_text, text_eq};

verus! {

/// One installed package: the path it is installed at and its version, which
/// the lock file may leave out.
#[derive(Debug, Clone, PartialEq, Eq)]
pub struct Installed {
    /// Where the package sits, such as `node_modules/left-pad`.
    pub path: String,
    /// Package version
    pub version: Option<String>,
}

/// An [`Installed`] as texts.
pub struct InstalledModel {
    pub path: Seq<char>,
    pub version: Option<Seq<char>>,
}

impl View for Installed {
    type V = InstalledModel;

    open spec fn view(&self) -> InstalledModel {
        InstalledModel { path: self.path@, version: optional_text(self.version) }
    }
}

/// The models of a sequence of installed packages, one by one.
pub open spec fn models_of(entries: Seq<Installed>) -> Seq<InstalledModel> {
    Seq::new(entries.len(), |i: int| entries[i]@)
}

/// The path under which the lock file keeps `library`.
pub open spec fn install_path(library: Seq<char>) -> Seq<char> {
    "node_modules/"@ + library
}

/// The version that the value of a member of `packages` gives: the value has
/// to be a table, and its member `version` a string, `null` or missing.
pub open spec fn entry_version(item: DocValue) -> Option<Option<Seq<char>>> {
    if item is Table {
        match item.member("version"@) {
            None => Some(None),
            Some(DocValue::Null) => Some(None),
            Some(DocValue::Text(version)) => Some(Some(version)),
            Some(_) => None,
        }
    } else {
        None
    }
}

/// The installed package that a member of `packages` describes.
pub open spec fn entry(member: (Seq<char>, DocValue)) -> Option<InstalledModel> {
    match entry_version(member.1) {
        Some(version) => Some(InstalledModel { path: member.0, version }),
        None => None,
    }
}

/// The installed packages of a document: its member `packages` has to be a
/// table, and every member of that table an entry. One member that is none
/// spoils the whole document.
pub open spec fn entries(doc: DocValue) -> Option<Seq<InstalledModel>> {
    match doc.member("packages"@) {
        Some(DocValue::Table(members)) => if forall|i: int|
            0 <= i < members.len() ==> (#[trigger] entry(members[i])) is Some {
            Some(Seq::new(members.len(), |i: int| entry(members[i])->0))
        } else {
            None
        },
        _ => None,
    }
}

/// The version of the first entry installed at `path`; `None` both where no
/// entry has this path and where the entry gives no version.
pub open spec fn version_at(entries: Seq<InstalledModel>, path: Seq<char>) -> Option<Seq<char>>
    decreases entries.len(),
{
    if entries.len() == 0 {
        None
    } else if entries[0].path == path {
        entries[0].version
    } else {
        version_at(entries.drop_first(), path)
    }
}

/// What reading the version of `library` out of a document gives.
pub open spec fn version_in(doc: DocValue, library: Seq<char>) -> Result<
    Option<Seq<char>>,
    LockError,
> {
    match entries(doc) {
        Some(installed) => Ok(version_at(installed, install_path(library))),
        None => Err(LockError::Shape),
    }
}

/// What `package-lock.json` content says of `library`: an error where the
/// content is no JSON or not laid out as a lock file, else the version that
/// the entry at `node_modules/<library>` gives, if there is such an entry and
/// it has one.
pub open spec fn npm_version(content: Seq<char>, library: Seq<char>) -> Result<
    Option<Seq<char>>,
    LockError,
> {
    match json_document(content) {
        Some(doc) => version_in(doc, library),
        None => Err(LockError::Syntax),
    }
}

/// `version_at` reads the first entry at the path, and finds none only where
/// no entry is installed there.
pub proof fn lemma_version_at_is_first_match(entries: Seq<InstalledModel>, path: Seq<char>)
    ensures
        (exists|i: int|
            0 <= i < entries.len() && (#[trigger] entries[i]).path == path && entries[i].version
                == version_at(entries, path) && forall|k: int|
                0 <= k < i ==> (#[trigger] entries[k]).path != path) || (version_at(entries, path)
            is None && forall|i: int|
            0 <= i < entries.len() ==> (#[trigger] entries[i]).path != path),
    decreases entries.len(),
{
    if entries.len() == 0 {
    } else if entries[0].path == path {
    } else {
        let rest = entries.drop_first();
        lemma_version_at_is_first_match(rest, path);
        if exists|j: int|
            0 <= j < rest.len() && (#[trigger] rest[j]).path == path && rest[j].version
                == version_at(rest, path) && forall|k: int|
                0 <= k < j ==> (#[trigger] rest[k]).path != path {
            let j = choose|j: int|
                0 <= j < rest.len() && (#[trigger] rest[j]).path == path && rest[j].version
                    == version_at(rest, path) && forall|k: int|
                    0 <= k < j ==> (#[trigger] rest[k]).path != path;
            let i = j + 1;
            assert(entries[i] == rest[j]);
            assert forall|k: int| 0 <= k < i implies (#[trigger] entries[k]).path != path by {
                if k > 0 {
                    assert(entries[k] == rest[k - 1]);
                }
            }
        } else {
            assert forall|i: int| 0 <= i < entries.len() implies (#[trigger] entries[i]).path
                != path by {
                if i > 0 {
                    assert(entries[i] == rest[i - 1]);
                }
            }
        }
    }
}

/// Looking from position `from` on: the entries before it do not count.
proof fn lemma_version_at_skips(entries: Seq<InstalledModel>, path: Seq<char>, from: int)
    requires
        0 <= from <= entries.len(),
        forall|k: int| 0 <= k < from ==> entries[k].path != path,
    ensures
        version_at(entries, path) == version_at(entries.skip(from), path),
    decreases from,
{
    if from == 0 {
        assert(entries.skip(0) =~= entries);
    } else {
        lemma_version_at_skips(entries, path, from - 1);
        let rest = entries.skip(from - 1);
        assert(rest[0] == entries[from - 1]);
        assert(rest.drop_first() =~= entries.skip(from));
    }
}

/// Reads one member of `packages` as an installed package.
pub fn read_entry(path: &String, item: &Node) -> (found: Option<Installed>)
    ensures
        match found {
            Some(installed) => entry((path@, item@)) == Some(installed@),
            None => entry((path@, item@)) is None,
        },
{
    if item.members().is_none() {
        return None;
    }
    let version = match item.member("version") {
        None => None,
        Some(node) => {
            if node.is_null() {
                None
            } else {
                match node.text() {
                    Some(text) => Some(text.clone()),
                    None => {
                        return None;
                    },
                }
            }
        },
    };
    Some(Installed { path: path.clone(), version })
}

/// Reads the installed packages that a document maps under `packages`.
pub fn read_entries(doc: &Node) -> (outcome: Result<Vec<Installed>, LockError>)
    ensures
        match outcome {
            Ok(installed) => entries(doc@) == Some(models_of(installed@)),
            Err(e) => e == LockError::Shape && entries(doc@) is None,
        },
{
    let members = match doc.member("packages") {
        Some(table) => match table.members() {
            Some(members) => members,
            None => {
                return Err(LockError::Shape);
            },
        },
        None => {
            return Err(LockError::Shape);
        },
    };
    let ghost pairs = members_of(members@);
    let mut installed: Vec<Installed> = Vec::new();
    let mut i: usize = 0;
    while i < members.len()
        invariant
            i <= members@.len(),
            pairs == members_of(members@),
            doc@.member("packages"@) == Some(DocValue::Table(pairs)),
            installed@.len() == i,
            forall|k: int| 0 <= k < i ==> entry(#[trigger] pairs[k]) == Some(installed@[k]@),
        decreases members@.len() - i,
    {
        match read_entry(&members[i].0, &members[i].1) {
            Some(found) => {
                installed.push(found);
            },
            None => {
                assert(entry(pairs[i as int]) is None);
                return Err(LockError::Shape);
            },
        }
        i += 1;
    }
    proof {
        let expected = Seq::new(pairs.len(), |k: int| entry(pairs[k])->0);
        assert(expected =~= models_of(installed@));
    }
    Ok(installed)
}

/// The path under which the lock file keeps `library`: `node_modules/`, then
/// the library's name.
pub fn path_of(library: &str) -> (path: String)
    ensures
        path@ == install_path(library@),
{
    let mut path = String::from_str("node_modules/");
    path.append(library);
    path
}

/// The version of the entry installed at `node_modules/<library>`, where
/// there is such an entry and it gives one.
pub fn find_version(installed: &Vec<Installed>, library: &str) -> (found: Option<String>)
    ensures
        match found {
            Some(version) => version_at(models_of(installed@), install_path(library@)) == Some(
                version@,
            ),
            None => version_at(models_of(installed@), install_path(library@)) is None,
        },
{
    let path = path_of(library);
    let ghost all = models_of(installed@);
    let mut i: usize = 0;
    while i < installed.len()
        invariant
            i <= installed@.len(),
            all == models_of(installed@),
            path@ == install_path(library@),
            forall|k: int| 0 <= k < i ==> all[k].path != path@,
        decreases installed@.len() - i,
    {
        if text_eq(installed[i].path.as_str(), path.as_str()) {
            proof {
                lemma_version_at_skips(all, path@, i as int);
                assert(all.skip(i as int)[0] == all[i as int]);
            }
            return match &installed[i].version {
                Some(version) => Some(version.clone()),
                None => None,
            };
        }
        i += 1;
    }
    proof {
        lemma_version_at_skips(all, path@, i as int);
        assert(all.skip(i as int).len() == 0);
    }
    None
}

/// Reads the version of `library` out of a parsed `package-lock.json`.
pub fn version_in_document(doc: &Node, library: &str) -> (outcome: Result<
    Option<String>,
    LockError,
>)
    ensures
        outcome_view(outcome) == version_in(doc@, library@),
{
    match read_entries(doc) {
        Ok(installed) => Ok(find_version(&installed, library)),
        Err(e) => Err(e),
    }
}

/// The version that the lock file `content` pins for `library`.
pub fn get_library_version(content: &str, library: &str) -> (outcome: Result<
    Option<String>,
    LockError,
>)
    ensures
        outcome_view(outcome) == npm_version(content@, library@),
{
    match parse_json(content) {
        Ok(doc) => version_in_document(&doc, library),
        Err(e) => Err(e),
    }
}

} // verus!
