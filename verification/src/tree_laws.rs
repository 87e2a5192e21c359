//! What holds of every scan of every tree.

use vstd::prelude::*;
use crate::filter::{artifact_name, class_of, descends, is_hidden, EntryClass, EntryKind};
use crate::path::joined;
use crate::tree::{
    branch_report, class_at, has_artifact_dir, has_manifest, listing, own_match, report_of,
    reports_of, stacked, Branch, EntryView, ReportView, Tree,
};

verus! {

/// A scan goes down into an entry only if its class is one of the two that
/// are not passed over: never into a hidden entry, never into a symlink.
pub proof fn lemma_skipped_is_never_entered(name: Seq<char>, kind: EntryKind)
    ensures
        is_hidden(name) ==> !descends(name, kind),
        kind == EntryKind::Symlink ==> !descends(name, kind),
        descends(name, kind) ==> class_of(name, kind) == EntryClass::MarkerCandidateDir || class_of(
            name,
            kind,
        ) == EntryClass::Plain,
        class_of(name, kind) == EntryClass::MarkerCandidateDir ==> descends(name, kind),
{
}

/// An empty listing holds neither marker.
pub proof fn lemma_no_markers_in_nothing(entries: Seq<EntryView>)
    requires
        entries.len() == 0,
    ensures
        !has_artifact_dir(entries),
        !has_manifest(entries),
{
}

/// The first `i + 1` entries of a listing hold a marker where the first `i`
/// hold it or the entry after them is it.
pub proof fn lemma_markers_with_one_more(entries: Seq<EntryView>, i: int)
    requires
        0 <= i < entries.len(),
    ensures
        has_artifact_dir(entries.subrange(0, i + 1)) == (has_artifact_dir(entries.subrange(0, i))
            || class_at(entries, i) == EntryClass::MarkerCandidateDir),
        has_manifest(entries.subrange(0, i + 1)) == (has_manifest(entries.subrange(0, i))
            || class_at(entries, i) == EntryClass::MarkerCandidateFile),
{
    let before = entries.subrange(0, i);
    let after = entries.subrange(0, i + 1);
    assert(class_at(after, i) == class_at(entries, i));
    assert forall|k: int| 0 <= k < i implies class_at(before, k) == class_at(after, k) by {}
    if has_artifact_dir(before) {
        let k = choose|k: int|
            0 <= k < before.len() && class_at(before, k) == EntryClass::MarkerCandidateDir;
        assert(class_at(after, k) == EntryClass::MarkerCandidateDir);
    }
    if has_manifest(before) {
        let k = choose|k: int|
            0 <= k < before.len() && class_at(before, k) == EntryClass::MarkerCandidateFile;
        assert(class_at(after, k) == EntryClass::MarkerCandidateFile);
    }
    if has_artifact_dir(after) && class_at(entries, i) != EntryClass::MarkerCandidateDir {
        let k = choose|k: int|
            0 <= k < after.len() && class_at(after, k) == EntryClass::MarkerCandidateDir;
        assert(class_at(before, k) == EntryClass::MarkerCandidateDir);
    }
    if has_manifest(after) && class_at(entries, i) != EntryClass::MarkerCandidateFile {
        let k = choose|k: int|
            0 <= k < after.len() && class_at(after, k) == EntryClass::MarkerCandidateFile;
        assert(class_at(before, k) == EntryClass::MarkerCandidateFile);
    }
}

/// The branches of a directory add their reports one after the other: what
/// two runs of branches add is what the first adds, then what the second adds.
pub proof fn lemma_reports_of_concat(dir: Seq<char>, first: Seq<Branch>, second: Seq<Branch>)
    ensures
        reports_of(dir, first + second) == reports_of(dir, first).followed_by(
            reports_of(dir, second),
        ),
    decreases second.len(),
{
    let whole = reports_of(dir, first + second);
    let parts = reports_of(dir, first).followed_by(reports_of(dir, second));
    if second.len() > 0 {
        assert((first + second).drop_last() =~= first + second.drop_last());
        lemma_reports_of_concat(dir, first, second.drop_last());
    }
    assert(whole.matches =~= parts.matches);
    assert(whole.failures =~= parts.failures);
}

/// What a single branch adds is the report of that branch.
pub proof fn lemma_reports_of_one(dir: Seq<char>, branch: Branch)
    ensures
        reports_of(dir, seq![branch]) == branch_report(dir, branch),
{
    assert(reports_of(dir, seq![branch].drop_last()) == ReportView::empty());
}

/// Every branch of a directory has its place in the report of the directory:
/// after the directory's own match and what the branches before it add, and
/// before what the branches after it add. What one branch holds, or whether
/// it can be read, takes nothing away from the others.
pub proof fn lemma_branch_in_place(dir: Seq<char>, branches: Seq<Branch>, i: int)
    requires
        0 <= i < branches.len(),
    ensures
        report_of(dir, Tree::Dir(branches)) == (ReportView {
            matches: own_match(dir, listing(branches)),
            failures: Seq::empty(),
        }).followed_by(reports_of(dir, branches.subrange(0, i))).followed_by(
            branch_report(dir, branches[i]),
        ).followed_by(reports_of(dir, branches.subrange(i + 1, branches.len() as int))),
{
    let before = branches.subrange(0, i);
    let after = branches.subrange(i + 1, branches.len() as int);
    let own = ReportView { matches: own_match(dir, listing(branches)), failures: Seq::empty() };
    assert(branches =~= before + seq![branches[i]] + after);
    lemma_reports_of_concat(dir, before + seq![branches[i]], after);
    lemma_reports_of_concat(dir, before, seq![branches[i]]);
    lemma_reports_of_one(dir, branches[i]);
    let whole = report_of(dir, Tree::Dir(branches));
    let parts = own.followed_by(reports_of(dir, before)).followed_by(
        branch_report(dir, branches[i]),
    ).followed_by(reports_of(dir, after));
    assert(whole.matches =~= parts.matches);
    assert(whole.failures =~= parts.failures);
}

/// Leaving out an entry that is neither marker changes neither whether the
/// listing holds a `target` directory nor whether it holds a `Cargo.toml`
/// file.
pub proof fn lemma_markers_without(entries: Seq<EntryView>, i: int)
    requires
        0 <= i < entries.len(),
        class_at(entries, i) != EntryClass::MarkerCandidateDir,
        class_at(entries, i) != EntryClass::MarkerCandidateFile,
    ensures
        has_artifact_dir(entries.remove(i)) == has_artifact_dir(entries),
        has_manifest(entries.remove(i)) == has_manifest(entries),
{
    let fewer = entries.remove(i);
    assert forall|k: int| 0 <= k < fewer.len() implies #[trigger] class_at(fewer, k) == class_at(
        entries,
        if k < i {
            k
        } else {
            k + 1
        },
    ) by {}
    if has_artifact_dir(entries) {
        let k = choose|k: int|
            0 <= k < entries.len() && class_at(entries, k) == EntryClass::MarkerCandidateDir;
        let j = if k < i {
            k
        } else {
            k - 1
        };
        assert(class_at(fewer, j) == EntryClass::MarkerCandidateDir);
    }
    if has_artifact_dir(fewer) {
        let k = choose|k: int|
            0 <= k < fewer.len() && class_at(fewer, k) == EntryClass::MarkerCandidateDir;
        let j = if k < i {
            k
        } else {
            k + 1
        };
        assert(class_at(entries, j) == EntryClass::MarkerCandidateDir);
    }
    if has_manifest(entries) {
        let k = choose|k: int|
            0 <= k < entries.len() && class_at(entries, k) == EntryClass::MarkerCandidateFile;
        let j = if k < i {
            k
        } else {
            k - 1
        };
        assert(class_at(fewer, j) == EntryClass::MarkerCandidateFile);
    }
    if has_manifest(fewer) {
        let k = choose|k: int|
            0 <= k < fewer.len() && class_at(fewer, k) == EntryClass::MarkerCandidateFile;
        let j = if k < i {
            k
        } else {
            k + 1
        };
        assert(class_at(entries, j) == EntryClass::MarkerCandidateFile);
    }
}

/// Leaving out an entry that a scan does not go down into changes nothing
/// in the directories that it does go down into.
pub proof fn lemma_stacked_without(dir: Seq<char>, entries: Seq<EntryView>, i: int)
    requires
        0 <= i < entries.len(),
        !descends(entries[i].name, entries[i].kind),
    ensures
        stacked(dir, entries.remove(i)) == stacked(dir, entries),
    decreases i,
{
    if i > 0 {
        assert(entries.remove(i).drop_first() =~= entries.drop_first().remove(i - 1));
        lemma_stacked_without(dir, entries.drop_first(), i - 1);
    }
}

/// An entry that the filter passes over is as good as absent: the scan of a
/// directory finds the same with it and without it, whatever stands under
/// its name.
pub proof fn lemma_skipped_entry_is_invisible(dir: Seq<char>, branches: Seq<Branch>, i: int)
    requires
        0 <= i < branches.len(),
        class_of(branches[i].name, branches[i].tree.kind()) == EntryClass::SkipHidden || class_of(
            branches[i].name,
            branches[i].tree.kind(),
        ) == EntryClass::SkipSymlink,
    ensures
        report_of(dir, Tree::Dir(branches.remove(i))) == report_of(dir, Tree::Dir(branches)),
{
    let fewer = branches.remove(i);
    let before = branches.subrange(0, i);
    let after = branches.subrange(i + 1, branches.len() as int);
    assert(listing(fewer) =~= listing(branches).remove(i));
    lemma_markers_without(listing(branches), i);
    lemma_branch_in_place(dir, branches, i);
    lemma_reports_of_concat(dir, before, after);
    lemma_skipped_is_never_entered(branches[i].name, branches[i].tree.kind());
    let with = report_of(dir, Tree::Dir(branches));
    let without = report_of(dir, Tree::Dir(fewer));
    assert(with.matches =~= without.matches);
    assert(with.failures =~= without.failures);
}

/// A hidden entry never adds to a scan and is never gone down into: the
/// scan of a directory finds the same with the entry and without it, be it a
/// file, a directory with projects below it, or anything else.
pub proof fn lemma_hidden_entry_is_invisible(dir: Seq<char>, branches: Seq<Branch>, i: int)
    requires
        0 <= i < branches.len(),
        is_hidden(branches[i].name),
    ensures
        !branches[i].entered(),
        report_of(dir, Tree::Dir(branches.remove(i))) == report_of(dir, Tree::Dir(branches)),
{
    lemma_skipped_entry_is_invisible(dir, branches, i);
}

/// A symlink never adds to a scan and is never gone down into, whatever its
/// name and whatever it points at: the scan of a directory finds the same
/// with the link and without it.
pub proof fn lemma_symlink_is_invisible(dir: Seq<char>, branches: Seq<Branch>, i: int)
    requires
        0 <= i < branches.len(),
        branches[i].tree is Symlink,
    ensures
        !branches[i].entered(),
        report_of(dir, Tree::Dir(branches.remove(i))) == report_of(dir, Tree::Dir(branches)),
{
    lemma_skipped_entry_is_invisible(dir, branches, i);
}

/// A directory that holds both markers adds exactly one match of its own,
/// its `target` directory, ahead of whatever the directories below it add.
/// Scanned from a parent that holds nothing else, that match and those from
/// below are all there is.
pub proof fn lemma_project_is_found_once(parent: Seq<char>, name: Seq<char>, branches: Seq<Branch>)
    requires
        !is_hidden(name),
        has_artifact_dir(listing(branches)),
        has_manifest(listing(branches)),
    ensures
        ({
            let dir = joined(parent, name);
            let project = Branch { name, tree: Tree::Dir(branches) };
            let found = seq![joined(dir, artifact_name())] + reports_of(dir, branches).matches;
            &&& own_match(dir, listing(branches)) == seq![joined(dir, artifact_name())]
            &&& report_of(dir, Tree::Dir(branches)).matches == found
            &&& branch_report(parent, project).matches == found
            &&& report_of(parent, Tree::Dir(seq![project])).matches == found
            &&& reports_of(dir, branches).matches.len() == 0 ==> report_of(
                parent,
                Tree::Dir(seq![project]),
            ).matches == seq![joined(dir, artifact_name())]
        }),
{
    let project = Branch { name, tree: Tree::Dir(branches) };
    lemma_reports_of_one(parent, project);
    let entries = listing(seq![project]);
    assert(!has_manifest(entries)) by {
        if has_manifest(entries) {
            let k = choose|k: int|
                0 <= k < entries.len() && class_at(entries, k) == EntryClass::MarkerCandidateFile;
            assert(entries[k].kind == EntryKind::Directory);
        }
    }
}

/// A directory that lacks one of the two markers, or both, adds no match of
/// its own: all that its scan finds comes from the directories below it.
pub proof fn lemma_half_project_adds_nothing(dir: Seq<char>, branches: Seq<Branch>)
    requires
        !has_artifact_dir(listing(branches)) || !has_manifest(listing(branches)),
    ensures
        own_match(dir, listing(branches)).len() == 0,
        report_of(dir, Tree::Dir(branches)) == reports_of(dir, branches),
{
    let whole = report_of(dir, Tree::Dir(branches));
    let below = reports_of(dir, branches);
    assert(whole.matches =~= below.matches);
    assert(whole.failures =~= below.failures);
}

/// A directory that cannot be read is noted as a failure and stops nothing:
/// the scan of its parent still holds, whole and in its place, what each of
/// its siblings adds, and it finds the very matches that it would find if
/// the directory could be read and were empty.
pub proof fn lemma_unreadable_directory_stops_nothing(
    dir: Seq<char>,
    branches: Seq<Branch>,
    locked: int,
    sibling: int,
)
    requires
        0 <= locked < branches.len(),
        0 <= sibling < branches.len(),
        locked != sibling,
        branches[locked].tree is Locked,
        !is_hidden(branches[locked].name),
    ensures
        branch_report(dir, branches[locked]) == (ReportView {
            matches: Seq::empty(),
            failures: seq![joined(dir, branches[locked].name)],
        }),
        report_of(dir, Tree::Dir(branches)).failures.contains(
            joined(dir, branches[locked].name),
        ),
        report_of(dir, Tree::Dir(branches)).matches == own_match(dir, listing(branches))
            + reports_of(dir, branches.subrange(0, sibling)).matches + branch_report(
            dir,
            branches[sibling],
        ).matches + reports_of(
            dir,
            branches.subrange(sibling + 1, branches.len() as int),
        ).matches,
        report_of(dir, Tree::Dir(branches)).matches == report_of(
            dir,
            Tree::Dir(
                branches.update(
                    locked,
                    Branch { name: branches[locked].name, tree: Tree::Dir(Seq::empty()) },
                ),
            ),
        ).matches,
{
    lemma_branch_in_place(dir, branches, sibling);
    lemma_branch_in_place(dir, branches, locked);
    let path = joined(dir, branches[locked].name);
    let before = reports_of(dir, branches.subrange(0, locked)).failures;
    let whole = report_of(dir, Tree::Dir(branches)).failures;
    assert(whole[before.len() as int] == path);

    let empty = Branch { name: branches[locked].name, tree: Tree::Dir(Seq::empty()) };
    let opened = branches.update(locked, empty);
    lemma_branch_in_place(dir, opened, locked);
    lemma_no_markers_in_nothing(listing(Seq::<Branch>::empty()));
    assert(listing(opened) =~= listing(branches));
    assert(opened.subrange(0, locked) =~= branches.subrange(0, locked));
    assert(opened.subrange(locked + 1, opened.len() as int) =~= branches.subrange(
        locked + 1,
        branches.len() as int,
    ));
    assert(branch_report(dir, empty).matches =~= Seq::<Seq<char>>::empty());
    assert(report_of(dir, Tree::Dir(branches)).matches =~= report_of(
        dir,
        Tree::Dir(opened),
    ).matches);
}

} // verus!
