//! A tree read through the scanner: what the scanner is fed when it meets a
//! file system that holds the tree, and what comes of it.

use vstd::prelude::*;
use crate::filter::enters;
use crate::match_laws::lemma_matches_are_distinct;
use crate::node::{branches_of, lemma_branches_of, Child, Node};
use crate::path::joined;
use crate::scan::{Entry, Listing, Report, ScanError, Scanner, ScannerView};
use crate::tree::{
    branch_report, listing, report_of, reports_of, stacked, well_formed, Branch, Tree,
};
use crate::tree_laws::{lemma_reports_of_concat, lemma_reports_of_one};

verus! {

/// The scanner after it has read through the tree that stands at its next
/// directory: it is fed the listing of the tree, and then reads through each
/// branch that it goes down into, in listing order.
pub open spec fn walked(scanner: ScannerView, tree: Tree) -> ScannerView
    decreases tree,
{
    match tree {
        Tree::Dir(branches) => walked_all(scanner.fed(Some(listing(branches))), branches),
        _ => scanner.fed(None),
    }
}

/// The scanner after it has read through one branch, if it goes down into it.
pub open spec fn walked_one(scanner: ScannerView, branch: Branch) -> ScannerView
    decreases branch,
{
    if branch.entered() {
        walked(scanner, branch.tree)
    } else {
        scanner
    }
}

/// The scanner after it has read through these branches, the first one first.
pub open spec fn walked_all(scanner: ScannerView, branches: Seq<Branch>) -> ScannerView
    decreases branches,
{
    if branches.len() == 0 {
        scanner
    } else {
        walked_all(walked_one(scanner, branches.first()), branches.drop_first())
    }
}

/// Reading a tree through the scanner finds what a scan of the tree finds.
/// The scanner names the directories in the order of the scan, so whoever
/// feeds it the listing of each directory that it names ends up with the
/// report of the tree, and with the scanner back at the directories that
/// waited before. The root counts as failed if it is the tree and cannot be
/// read as a directory.
pub proof fn lemma_walk_reports(scanner: ScannerView, tree: Tree)
    requires
        scanner.pending.len() > 0,
    ensures
        walked(scanner, tree).pending == scanner.pending.drop_last(),
        walked(scanner, tree).report == scanner.report.followed_by(
            report_of(scanner.pending.last(), tree),
        ),
        !walked(scanner, tree).fresh,
        walked(scanner, tree).root_failed == (scanner.root_failed || (scanner.fresh && !(tree
            is Dir))),
    decreases tree,
{
    let dir = scanner.pending.last();
    let after = walked(scanner, tree);
    let all = scanner.report.followed_by(report_of(dir, tree));
    match tree {
        Tree::Dir(branches) => {
            let fed = scanner.fed(Some(listing(branches)));
            lemma_walk_all_reports(fed, dir, scanner.pending.drop_last(), branches);
        },
        _ => {},
    }
    assert(after.report.matches =~= all.matches);
    assert(after.report.failures =~= all.failures);
}

/// Reading the branches of a directory through the scanner, where the
/// directories to go down into wait on top of the stack, finds what the
/// branches add to a scan and takes just these directories off the stack.
pub proof fn lemma_walk_all_reports(
    scanner: ScannerView,
    dir: Seq<char>,
    rest: Seq<Seq<char>>,
    branches: Seq<Branch>,
)
    requires
        scanner.pending == rest + stacked(dir, listing(branches)),
        !scanner.fresh,
    ensures
        walked_all(scanner, branches).pending == rest,
        walked_all(scanner, branches).report == scanner.report.followed_by(
            reports_of(dir, branches),
        ),
        !walked_all(scanner, branches).fresh,
        walked_all(scanner, branches).root_failed == scanner.root_failed,
    decreases branches,
{
    let after = walked_all(scanner, branches);
    let all = scanner.report.followed_by(reports_of(dir, branches));
    if branches.len() > 0 {
        let first = branches.first();
        let later = branches.drop_first();
        let next = walked_one(scanner, first);
        assert(listing(branches).drop_first() =~= listing(later));
        assert(branches =~= seq![first] + later);
        lemma_reports_of_concat(dir, seq![first], later);
        lemma_reports_of_one(dir, first);
        if first.entered() {
            let waiting = rest + stacked(dir, listing(later));
            assert(scanner.pending =~= waiting.push(joined(dir, first.name)));
            assert(waiting.push(joined(dir, first.name)).drop_last() =~= waiting);
            lemma_walk_reports(scanner, first.tree);
        }
        lemma_walk_all_reports(next, dir, rest, later);
        let step = scanner.report.followed_by(branch_report(dir, first));
        assert(next.report.matches =~= step.matches);
        assert(next.report.failures =~= step.failures);
    } else {
        assert(scanner.pending =~= rest);
    }
    assert(after.report.matches =~= all.matches);
    assert(after.report.failures =~= all.failures);
}

/// The listing of a directory in memory.
pub fn entries_of(children: &Vec<Child>) -> (entries: Vec<Entry>)
    ensures
        entries.deep_view() == listing(branches_of(children@)),
{
    proof {
        lemma_branches_of(children@);
    }
    let mut entries: Vec<Entry> = Vec::new();
    let mut i: usize = 0;
    while i < children.len()
        invariant
            i <= children.len(),
            entries.len() == i,
            forall|k: int| 0 <= k < i ==> entries[k]@ == (#[trigger] children[k])@.entry(),
        decreases children.len() - i,
    {
        let child = &children[i];
        entries.push(Entry { name: child.name.clone(), kind: child.node.kind() });
        i += 1;
    }
    entries
}

/// Reads the tree that stands at the next directory of the scanner through
/// the scanner.
pub fn walk(scanner: &mut Scanner, node: &Node)
    ensures
        final(scanner)@ == walked(old(scanner)@, node@),
    decreases node,
{
    match node {
        Node::Directory(children) => {
            let ghost branches = branches_of(children@);
            proof {
                lemma_branches_of(children@);
            }
            let entries = entries_of(children);
            scanner.feed(&Listing::Entries(entries));
            let ghost goal = walked_all(scanner@, branches);
            let mut i: usize = 0;
            assert(branches.subrange(0, branches.len() as int) =~= branches);
            while i < children.len()
                invariant
                    i <= children.len(),
                    decreases_to!(node => children),
                    branches.len() == children.len(),
                    forall|k: int|
                        0 <= k < children.len() ==> #[trigger] branches[k] == children[k]@,
                    walked_all(scanner@, branches.subrange(i as int, branches.len() as int))
                        == goal,
                decreases children.len() - i,
            {
                let child = &children[i];
                let ghost before = scanner@;
                let ghost left = branches.subrange(i as int, branches.len() as int);
                assert(left.drop_first() =~= branches.subrange(i + 1, branches.len() as int));
                assert(left.first() == child@);
                if enters(child.name.as_str(), child.node.kind()) {
                    walk(scanner, &child.node);
                }
                assert(scanner@ == walked_one(before, left.first()));
                i += 1;
            }
        },
        _ => {
            scanner.feed(&Listing::Unreadable);
        },
    }
}

/// Scans a directory tree held in memory, as if it stood at the path `root`.
/// The scan fails as a whole where the root is not a directory that can be
/// read. In a tree as a file system holds it, no match comes twice.
pub fn scan(root: &str, tree: &Node) -> (outcome: Result<Report, ScanError>)
    ensures
        match outcome {
            Ok(report) => {
                &&& tree@ is Dir
                &&& report@ == report_of(root@, tree@)
                &&& well_formed(tree@) ==> report@.matches.no_duplicates()
            },
            Err(e) => !(tree@ is Dir) && e == ScanError::RootUnreadable,
        },
{
    let mut scanner = Scanner::new(root);
    walk(&mut scanner, tree);
    proof {
        let start = ScannerView::start(root@);
        lemma_walk_reports(start, tree@);
        let all = start.report.followed_by(report_of(root@, tree@));
        assert(all.matches =~= report_of(root@, tree@).matches);
        assert(all.failures =~= report_of(root@, tree@).failures);
        if well_formed(tree@) {
            lemma_matches_are_distinct(root@, tree@);
        }
    }
    scanner.finish()
}

} // verus!
