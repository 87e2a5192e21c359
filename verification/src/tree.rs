//! A directory tree as a value, and what a scan of it finds.

use vstd::prelude::*;
use crate::filter::{artifact_name, class_of, descends, EntryClass, EntryKind};
use crate::path::{joined, well_named};

verus! {

/// One entry of a directory listing, as plain values.
pub struct EntryView {
    pub name: Seq<char>,
    pub kind: EntryKind,
}

/// A directory tree, as plain values.
pub enum Tree {
    /// A regular file.
    File,
    /// Neither file, directory nor symlink.
    Other,
    /// A symbolic link, with what it points at.
    Symlink(Box<Tree>),
    /// A directory that cannot be read.
    Locked,
    /// A directory, with its entries in the order in which it lists them.
    Dir(Seq<Branch>),
}

/// A named entry of a directory, with what stands under the name.
pub struct Branch {
    pub name: Seq<char>,
    pub tree: Tree,
}

/// What a scan found: the `target` directories of projects, in the order in
/// which their projects were visited, and the directories that could not be
/// read.
pub struct ReportView {
    pub matches: Seq<Seq<char>>,
    pub failures: Seq<Seq<char>>,
}

impl ReportView {
    /// Nothing found, nothing failed.
    pub open spec fn empty() -> ReportView {
        ReportView { matches: Seq::empty(), failures: Seq::empty() }
    }

    /// This report, followed by a later one.
    pub open spec fn followed_by(self, later: ReportView) -> ReportView {
        ReportView {
            matches: self.matches + later.matches,
            failures: self.failures + later.failures,
        }
    }
}

impl Tree {
    /// The kind under which a listing shows this tree. A link is a link,
    /// whatever it points at.
    pub open spec fn kind(self) -> EntryKind {
        match self {
            Tree::File => EntryKind::File,
            Tree::Other => EntryKind::Other,
            Tree::Symlink(_) => EntryKind::Symlink,
            Tree::Locked => EntryKind::Directory,
            Tree::Dir(_) => EntryKind::Directory,
        }
    }
}

impl Branch {
    /// The entry under which a listing shows this branch.
    pub open spec fn entry(self) -> EntryView {
        EntryView { name: self.name, kind: self.tree.kind() }
    }

    /// Whether a scan goes down into this branch.
    pub open spec fn entered(self) -> bool {
        descends(self.name, self.tree.kind())
    }
}

/// The listing of a directory with these branches.
pub open spec fn listing(branches: Seq<Branch>) -> Seq<EntryView> {
    Seq::new(branches.len(), |i: int| branches[i].entry())
}

/// The class of the `i`-th entry of a listing.
pub open spec fn class_at(entries: Seq<EntryView>, i: int) -> EntryClass {
    class_of(entries[i].name, entries[i].kind)
}

/// Whether the listing holds a directory named `target` that is neither
/// hidden nor a symlink.
pub open spec fn has_artifact_dir(entries: Seq<EntryView>) -> bool {
    exists|i: int|
        0 <= i < entries.len() && #[trigger] class_at(entries, i) == EntryClass::MarkerCandidateDir
}

/// Whether the listing holds a regular file named `Cargo.toml` that is
/// neither hidden nor a symlink.
pub open spec fn has_manifest(entries: Seq<EntryView>) -> bool {
    exists|i: int|
        0 <= i < entries.len() && #[trigger] class_at(entries, i)
            == EntryClass::MarkerCandidateFile
}

/// What the directory `dir` itself adds to the matches: its `target`
/// directory, once, if it holds both markers; nothing otherwise.
pub open spec fn own_match(dir: Seq<char>, entries: Seq<EntryView>) -> Seq<Seq<char>> {
    if has_artifact_dir(entries) && has_manifest(entries) {
        seq![joined(dir, artifact_name())]
    } else {
        Seq::empty()
    }
}

/// The directories that a scan of `dir` goes down into, as paths, the last
/// listed first: pushed onto a stack in this order, they come off it in
/// listing order.
pub open spec fn stacked(dir: Seq<char>, entries: Seq<EntryView>) -> Seq<Seq<char>>
    decreases entries.len(),
{
    if entries.len() == 0 {
        Seq::empty()
    } else {
        let later = stacked(dir, entries.drop_first());
        if descends(entries[0].name, entries[0].kind) {
            later.push(joined(dir, entries[0].name))
        } else {
            later
        }
    }
}

/// What a scan of `tree` at `path` finds. A directory adds its own match
/// first, then what its entries add, in listing order; anything that cannot
/// be read as a directory is a failure.
pub open spec fn report_of(path: Seq<char>, tree: Tree) -> ReportView
    decreases tree,
{
    match tree {
        Tree::Dir(branches) => ReportView {
            matches: own_match(path, listing(branches)),
            failures: Seq::empty(),
        }.followed_by(reports_of(path, branches)),
        _ => ReportView { matches: Seq::empty(), failures: seq![path] },
    }
}

/// What one branch of the directory `dir` adds: the scan of it where the
/// scan goes down into it, nothing otherwise.
pub open spec fn branch_report(dir: Seq<char>, branch: Branch) -> ReportView
    decreases branch,
{
    if branch.entered() {
        report_of(joined(dir, branch.name), branch.tree)
    } else {
        ReportView::empty()
    }
}

/// What the branches of the directory `dir` add, one after the other.
pub open spec fn reports_of(dir: Seq<char>, branches: Seq<Branch>) -> ReportView
    decreases branches,
{
    if branches.len() == 0 {
        ReportView::empty()
    } else {
        reports_of(dir, branches.drop_last()).followed_by(branch_report(dir, branches.last()))
    }
}

/// A tree as a file system holds it: in every directory each name is well
/// formed and stands for one entry only.
pub open spec fn well_formed(tree: Tree) -> bool
    decreases tree,
{
    match tree {
        Tree::Dir(branches) => {
            &&& forall|i: int| 0 <= i < branches.len() ==> well_named(#[trigger] branches[i].name)
            &&& forall|i: int, j: int|
                0 <= i < j < branches.len() ==> #[trigger] branches[i].name
                    != #[trigger] branches[j].name
            &&& forall|i: int|
                0 <= i < branches.len() ==> well_formed((#[trigger] branches[i]).tree)
        },
        _ => true,
    }
}

} // verus!
