//! Where the matches of a scan lie, and that none comes twice.

use vstd::prelude::*;
use crate::filter::artifact_name;
use crate::path::{joined, separator, stem, well_named};
use crate::tree::{
    branch_report, has_artifact_dir, has_manifest, listing, own_match, report_of, reports_of,
    well_formed, Branch, Tree,
};
use crate::tree_laws::lemma_branch_in_place;

verus! {

/// Whether a path is that of a `target` directory below `dir`, at any depth.
pub open spec fn target_below(dir: Seq<char>, path: Seq<char>) -> bool {
    &&& stem(dir).is_prefix_of(path)
    &&& artifact_name().is_suffix_of(path)
    &&& path.len() >= stem(dir).len() + artifact_name().len()
}

/// Whether a path lies below the entry `name` of the directory `dir`.
pub open spec fn below_entry(dir: Seq<char>, name: Seq<char>, path: Seq<char>) -> bool {
    stem(joined(dir, name)).is_prefix_of(path)
}

/// The path of a well-named entry is not empty and does not end in a
/// separator, so what lies below the entry begins with the path, a separator
/// after it.
pub proof fn lemma_stem_of_entry(dir: Seq<char>, name: Seq<char>)
    requires
        well_named(name),
    ensures
        stem(joined(dir, name)) == stem(dir) + name + seq![separator()],
        stem(dir).is_prefix_of(stem(joined(dir, name))),
{
    let path = joined(dir, name);
    assert(path.last() == name.last());
    assert(stem(path) =~= stem(dir) + name + seq![separator()]);
    assert(stem(dir) =~= stem(path).subrange(0, stem(dir).len() as int));
}

/// What begins the paths of every entry of a directory also begins the
/// paths below each of its entries.
proof fn lemma_stem_grows(dir: Seq<char>, name: Seq<char>)
    ensures
        stem(dir).is_prefix_of(stem(joined(dir, name))),
        stem(joined(dir, name)).len() >= stem(dir).len(),
{
    let path = joined(dir, name);
    assert(stem(dir) =~= stem(path).subrange(0, stem(dir).len() as int));
}

/// A prefix of a prefix is a prefix.
proof fn lemma_prefix_of_prefix(short: Seq<char>, long: Seq<char>, text: Seq<char>)
    requires
        short.is_prefix_of(long),
        long.is_prefix_of(text),
    ensures
        short.is_prefix_of(text),
{
    assert(short =~= text.subrange(0, short.len() as int)) by {
        assert forall|i: int| 0 <= i < short.len() implies short[i] == text[i] by {
            assert(short[i] == long.subrange(0, short.len() as int)[i]);
            assert(long[i] == text.subrange(0, long.len() as int)[i]);
        }
    }
}

/// Every match of a scan is the path of a `target` directory below the
/// directory that was scanned.
pub proof fn lemma_matches_lie_below(path: Seq<char>, tree: Tree)
    ensures
        forall|k: int|
            0 <= k < report_of(path, tree).matches.len() ==> target_below(
                path,
                #[trigger] report_of(path, tree).matches[k],
            ),
    decreases tree,
{
    match tree {
        Tree::Dir(branches) => {
            lemma_branch_matches_lie_below(path, branches);
            let matches = report_of(path, tree).matches;
            let own = joined(path, artifact_name());
            assert(target_below(path, own)) by {
                assert(stem(path) =~= own.subrange(0, stem(path).len() as int));
                assert(artifact_name() =~= own.subrange(
                    own.len() - artifact_name().len(),
                    own.len() as int,
                ));
            }
            assert forall|k: int| 0 <= k < matches.len() implies target_below(
                path,
                #[trigger] matches[k],
            ) by {
                let below = reports_of(path, branches).matches;
                let ahead = matches.len() - below.len();
                if k >= ahead {
                    let m = below[k - ahead];
                    assert(m == matches[k]);
                    let b = choose|b: int|
                        0 <= b < branches.len() && target_below(
                            joined(path, (#[trigger] branches[b]).name),
                            m,
                        );
                    lemma_stem_grows(path, branches[b].name);
                    lemma_prefix_of_prefix(stem(path), stem(joined(path, branches[b].name)), m);
                }
            }
        },
        _ => {},
    }
}

/// Every match that comes from the branches of a directory is the path of
/// a `target` directory below one of them.
pub proof fn lemma_branch_matches_lie_below(dir: Seq<char>, branches: Seq<Branch>)
    ensures
        forall|k: int|
            0 <= k < reports_of(dir, branches).matches.len() ==> exists|b: int|
                0 <= b < branches.len() && target_below(
                    joined(dir, (#[trigger] branches[b]).name),
                    #[trigger] reports_of(dir, branches).matches[k],
                ),
    decreases branches,
{
    if branches.len() > 0 {
        let earlier = branches.drop_last();
        let last = branches.last();
        lemma_branch_matches_lie_below(dir, earlier);
        if last.entered() {
            lemma_matches_lie_below(joined(dir, last.name), last.tree);
        }
        let matches = reports_of(dir, branches).matches;
        let first = reports_of(dir, earlier).matches;
        assert forall|k: int| 0 <= k < matches.len() implies exists|b: int|
            0 <= b < branches.len() && target_below(
                joined(dir, (#[trigger] branches[b]).name),
                #[trigger] matches[k],
            ) by {
            if k < first.len() {
                assert(matches[k] == first[k]);
                let b = choose|b: int|
                    0 <= b < earlier.len() && target_below(
                        joined(dir, (#[trigger] earlier[b]).name),
                        first[k],
                    );
                assert(branches[b] == earlier[b]);
            } else {
                let own = report_of(joined(dir, last.name), last.tree).matches;
                assert(matches == first + branch_report(dir, last).matches);
                assert(last.entered());
                assert(matches[k] == own[k - first.len()]);
                assert(target_below(joined(dir, last.name), own[k - first.len()]));
                assert(branches[branches.len() - 1] == last);
            }
        }
    }
}

/// Nothing lies below two entries of one directory that differ in name.
pub proof fn lemma_entries_lie_apart(
    dir: Seq<char>,
    first: Seq<char>,
    second: Seq<char>,
    path: Seq<char>,
)
    requires
        well_named(first),
        well_named(second),
        first != second,
    ensures
        !(below_entry(dir, first, path) && below_entry(dir, second, path)),
{
    if below_entry(dir, first, path) && below_entry(dir, second, path) {
        lemma_stem_of_entry(dir, first);
        lemma_stem_of_entry(dir, second);
        let start = stem(dir).len() as int;
        let one = stem(joined(dir, first));
        let other = stem(joined(dir, second));
        assert forall|i: int| 0 <= i < one.len() implies path[i] == one[i] by {
            assert(one[i] == path.subrange(0, one.len() as int)[i]);
        }
        assert forall|i: int| 0 <= i < other.len() implies path[i] == other[i] by {
            assert(other[i] == path.subrange(0, other.len() as int)[i]);
        }
        assert forall|i: int| 0 <= i < first.len() implies one[start + i] == first[i] by {}
        assert forall|i: int| 0 <= i < second.len() implies other[start + i] == second[i] by {}
        assert(one[start + first.len()] == separator());
        assert(other[start + second.len()] == separator());
        if first.len() < second.len() {
            assert(path[start + first.len()] == second[first.len() as int]);
        } else if second.len() < first.len() {
            assert(path[start + second.len()] == first[second.len() as int]);
        } else {
            assert forall|i: int| 0 <= i < first.len() implies first[i] == second[i] by {
                assert(path[start + i] == first[i]);
                assert(path[start + i] == second[i]);
            }
            assert(first =~= second);
        }
    }
}

/// The `target` directory of a directory lies below none of its entries.
pub proof fn lemma_own_target_lies_apart(dir: Seq<char>, name: Seq<char>)
    requires
        well_named(name),
    ensures
        !below_entry(dir, name, joined(dir, artifact_name())),
{
    let own = joined(dir, artifact_name());
    if below_entry(dir, name, own) {
        lemma_stem_of_entry(dir, name);
        let start = stem(dir).len() as int;
        let below = stem(joined(dir, name));
        assert(below[start + name.len()] == own.subrange(0, below.len() as int)[start
            + name.len()]);
        assert(own[start + name.len()] == artifact_name()[name.len() as int]);
    }
}

/// In a tree as a file system holds it, no match of a scan comes twice.
pub proof fn lemma_matches_are_distinct(path: Seq<char>, tree: Tree)
    requires
        well_formed(tree),
    ensures
        report_of(path, tree).matches.no_duplicates(),
    decreases tree,
{
    match tree {
        Tree::Dir(branches) => {
            lemma_branch_matches_are_distinct(path, branches);
            lemma_branch_matches_lie_below(path, branches);
            let matches = report_of(path, tree).matches;
            let below = reports_of(path, branches).matches;
            let ahead = matches.len() - below.len();
            assert forall|i: int, j: int|
                0 <= i < matches.len() && 0 <= j < matches.len() && i != j implies matches[i]
                != matches[j] by {
                if i >= ahead && j >= ahead {
                    assert(matches[i] == below[i - ahead]);
                    assert(matches[j] == below[j - ahead]);
                } else {
                    let (own, other) = if i < ahead {
                        (i, j)
                    } else {
                        (j, i)
                    };
                    assert(matches[own] == joined(path, artifact_name()));
                    assert(matches[other] == below[other - ahead]);
                    let b = choose|b: int|
                        0 <= b < branches.len() && target_below(
                            joined(path, (#[trigger] branches[b]).name),
                            below[other - ahead],
                        );
                    lemma_own_target_lies_apart(path, branches[b].name);
                }
            }
        },
        _ => {},
    }
}

/// In a directory as a file system holds it, no match that comes from its
/// branches comes twice.
pub proof fn lemma_branch_matches_are_distinct(dir: Seq<char>, branches: Seq<Branch>)
    requires
        well_formed(Tree::Dir(branches)),
    ensures
        reports_of(dir, branches).matches.no_duplicates(),
    decreases branches,
{
    if branches.len() > 0 {
        let earlier = branches.drop_last();
        let last = branches.last();
        assert(well_formed(Tree::Dir(earlier))) by {
            assert forall|i: int| 0 <= i < earlier.len() implies earlier[i] == branches[i] by {}
        }
        assert(branches[branches.len() - 1] == last);
        lemma_branch_matches_are_distinct(dir, earlier);
        lemma_branch_matches_lie_below(dir, earlier);
        let inner = joined(dir, last.name);
        if last.entered() {
            lemma_matches_are_distinct(inner, last.tree);
            lemma_matches_lie_below(inner, last.tree);
        }
        let matches = reports_of(dir, branches).matches;
        let first = reports_of(dir, earlier).matches;
        let own = branch_report(dir, last).matches;
        assert(matches == first + own);
        assert forall|i: int, j: int|
            0 <= i < matches.len() && 0 <= j < matches.len() && i != j implies matches[i]
            != matches[j] by {
            if i < first.len() && j < first.len() {
                assert(matches[i] == first[i]);
                assert(matches[j] == first[j]);
            } else if i >= first.len() && j >= first.len() {
                assert(matches[i] == own[i - first.len()]);
                assert(matches[j] == own[j - first.len()]);
            } else {
                let (old, new) = if i < first.len() {
                    (i, j)
                } else {
                    (j, i)
                };
                let found = report_of(inner, last.tree).matches;
                assert(matches[old] == first[old]);
                assert(matches[new] == found[new - first.len()]);
                assert(target_below(inner, found[new - first.len()]));
                let b = choose|b: int|
                    0 <= b < earlier.len() && target_below(
                        joined(dir, (#[trigger] earlier[b]).name),
                        first[old],
                    );
                assert(earlier[b] == branches[b]);
                lemma_entries_lie_apart(dir, branches[b].name, last.name, matches[new]);
            }
        }
    }
}

/// Scanning the parent of a project finds the `target` directory of the
/// project exactly once: in a directory as a file system holds it, for every
/// entry that is a directory with both markers, neither hidden nor a symlink,
/// one match and no more is the path of its `target` directory.
pub proof fn lemma_project_is_matched_exactly_once(
    parent: Seq<char>,
    branches: Seq<Branch>,
    i: int,
    inner: Seq<Branch>,
)
    requires
        well_formed(Tree::Dir(branches)),
        0 <= i < branches.len(),
        branches[i].entered(),
        branches[i].tree == Tree::Dir(inner),
        has_artifact_dir(listing(inner)),
        has_manifest(listing(inner)),
    ensures
        ({
            let matches = report_of(parent, Tree::Dir(branches)).matches;
            let target = joined(joined(parent, branches[i].name), artifact_name());
            exists|k: int|
                {
                    &&& 0 <= k < matches.len()
                    &&& #[trigger] matches[k] == target
                    &&& forall|j: int| 0 <= j < matches.len() && matches[j] == target ==> j == k
                }
        }),
{
    let matches = report_of(parent, Tree::Dir(branches)).matches;
    let dir = joined(parent, branches[i].name);
    let target = joined(dir, artifact_name());
    lemma_branch_in_place(parent, branches, i);
    lemma_matches_are_distinct(parent, Tree::Dir(branches));
    let ahead = own_match(parent, listing(branches)) + reports_of(
        parent,
        branches.subrange(0, i),
    ).matches;
    let own = branch_report(parent, branches[i]).matches;
    assert(own[0] == target);
    let k = ahead.len() as int;
    assert(matches[k] == own[0]);
}

} // verus!
