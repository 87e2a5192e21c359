//! Which directory entries take part in a scan.

use vstd::prelude::*;
use crate::text::same;

verus! {

/// What a directory entry is, as the file system reports it without following links.
#[derive(Clone, Copy, Debug, PartialEq, Eq, Structural)]
pub enum EntryKind {
    File,
    Directory,
    Symlink,
    Other,
}

/// The part an entry plays in the scan of the directory that lists it.
#[derive(Clone, Copy, Debug, PartialEq, Eq, Structural)]
pub enum EntryClass {
    /// The name begins with a dot: the entry is passed over, whatever it is.
    SkipHidden,
    /// A symbolic link: passed over, whatever it points at.
    SkipSymlink,
    /// A directory named `target`.
    MarkerCandidateDir,
    /// A regular file named `Cargo.toml`.
    MarkerCandidateFile,
    /// Anything else.
    Plain,
}

/// The name of the directory that holds a project's build output.
pub open spec fn artifact_name() -> Seq<char> {
    seq!['t', 'a', 'r', 'g', 'e', 't']
}

/// The name of the file that marks a directory as a project.
pub open spec fn manifest_name() -> Seq<char> {
    seq!['C', 'a', 'r', 'g', 'o', '.', 't', 'o', 'm', 'l']
}

/// A name is hidden when its first character is a dot.
pub open spec fn is_hidden(name: Seq<char>) -> bool {
    name.len() > 0 && name[0] == '.'
}

/// The class of an entry, from its name and kind alone. Hidden wins over
/// symlink, and both win over the two markers.
pub open spec fn class_of(name: Seq<char>, kind: EntryKind) -> EntryClass {
    if is_hidden(name) {
        EntryClass::SkipHidden
    } else if kind == EntryKind::Symlink {
        EntryClass::SkipSymlink
    } else if name == artifact_name() && kind == EntryKind::Directory {
        EntryClass::MarkerCandidateDir
    } else if name == manifest_name() && kind == EntryKind::File {
        EntryClass::MarkerCandidateFile
    } else {
        EntryClass::Plain
    }
}

/// Whether a scan goes down into an entry: only into a directory that is
/// neither hidden nor a symlink.
pub open spec fn descends(name: Seq<char>, kind: EntryKind) -> bool {
    kind == EntryKind::Directory && !is_hidden(name)
}

/// The name of the directory that holds a project's build output: `target`.
pub fn artifact_dir() -> (name: &'static str)
    ensures
        name@ == artifact_name(),
{
    proof {
        reveal_strlit("target");
    }
    let name = "target";
    name
}

/// The name of the file that marks a directory as a project: `Cargo.toml`.
pub fn manifest_file() -> (name: &'static str)
    ensures
        name@ == manifest_name(),
{
    proof {
        reveal_strlit("Cargo.toml");
    }
    let name = "Cargo.toml";
    name
}

/// Tells whether `name` begins with a dot.
pub fn hidden(name: &str) -> (yes: bool)
    ensures
        yes == is_hidden(name@),
{
    let mut chars = name.chars();
    match chars.next() {
        Some(first) => first == '.',
        None => false,
    }
}

/// Tells whether a scan goes down into an entry.
pub fn enters(name: &str, kind: EntryKind) -> (yes: bool)
    ensures
        yes == descends(name@, kind),
{
    kind == EntryKind::Directory && !hidden(name)
}

/// Classifies one directory entry.
pub fn classify(name: &str, kind: EntryKind) -> (class: EntryClass)
    ensures
        class == class_of(name@, kind),
{
    if hidden(name) {
        EntryClass::SkipHidden
    } else if kind == EntryKind::Symlink {
        EntryClass::SkipSymlink
    } else if kind == EntryKind::Directory && same(name, artifact_dir()) {
        EntryClass::MarkerCandidateDir
    } else if kind == EntryKind::File && same(name, manifest_file()) {
        EntryClass::MarkerCandidateFile
    } else {
        EntryClass::Plain
    }
}

} // verus!
