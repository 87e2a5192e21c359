//! Paths as strings: a directory and a name make the path of an entry.

use vstd::prelude::*;
use vstd::string::StringExecFns;
use crate::text::last_char;

verus! {

/// The character that stands between a directory and a name in it.
pub open spec fn separator() -> char {
    '/'
}

/// Whether a separator has to go between `dir` and a name: not after the
/// empty path, and not after a path that already ends in one.
pub open spec fn needs_separator(dir: Seq<char>) -> bool {
    dir.len() > 0 && dir.last() != separator()
}

/// What the path of every entry of the directory `dir` begins with: `dir`,
/// and a separator where one has to follow.
pub open spec fn stem(dir: Seq<char>) -> Seq<char> {
    if needs_separator(dir) {
        dir.push(separator())
    } else {
        dir
    }
}

/// The path of the entry `name` in the directory `dir`.
pub open spec fn joined(dir: Seq<char>, name: Seq<char>) -> Seq<char> {
    stem(dir) + name
}

/// A name as a directory hands it out: not empty, and without a separator
/// in it.
pub open spec fn well_named(name: Seq<char>) -> bool {
    name.len() > 0 && forall|i: int| 0 <= i < name.len() ==> name[i] != separator()
}

/// Builds the path of the entry `name` in the directory `dir`.
pub fn join(dir: &str, name: &str) -> (path: String)
    ensures
        path@ == joined(dir@, name@),
{
    let mut path = dir.to_owned();
    let bare = match last_char(dir) {
        Some(c) => c != '/',
        None => false,
    };
    if bare {
        proof {
            reveal_strlit("/");
        }
        path.append("/");
    }
    path.append(name);
    path
}

} // verus!
