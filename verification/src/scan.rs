//! The scanner: a stack of directories still to read, fed one listing at a
//! time by whoever reads the file system.

use vstd::prelude::*;
use crate::filter::{artifact_dir, classify, enters, EntryClass, EntryKind};
use crate::path::{join, joined};
use crate::tree::{
    class_at, has_artifact_dir, has_manifest, own_match, stacked, EntryView, ReportView,
};
use crate::tree_laws::{
    lemma_markers_with_one_more, lemma_markers_without, lemma_no_markers_in_nothing,
    lemma_stacked_without,
};

verus! {

/// One entry of a directory listing: its name and what it is.
#[derive(Debug, PartialEq, Eq)]
pub struct Entry {
    pub name: String,
    pub kind: EntryKind,
}

impl View for Entry {
    type V = EntryView;

    open spec fn view(&self) -> EntryView {
        EntryView { name: self.name@, kind: self.kind }
    }
}

impl DeepView for Entry {
    type V = EntryView;

    open spec fn deep_view(&self) -> EntryView {
        self@
    }
}

/// What came of reading a directory.
#[derive(Debug, PartialEq, Eq)]
pub enum Listing {
    /// The directory could not be opened or read.
    Unreadable,
    /// The entries of the directory, in the order in which they were read.
    Entries(Vec<Entry>),
}

impl View for Listing {
    type V = Option<Seq<EntryView>>;

    open spec fn view(&self) -> Option<Seq<EntryView>> {
        match self {
            Listing::Unreadable => None,
            Listing::Entries(entries) => Some(entries.deep_view()),
        }
    }
}

/// What a scan found.
#[derive(Debug, PartialEq, Eq)]
pub struct Report {
    /// The `target` directories of the projects found, in the order in which
    /// the projects were visited.
    pub matches: Vec<String>,
    /// The directories that could not be read, in the order in which that
    /// was found out.
    pub failures: Vec<String>,
}

impl View for Report {
    type V = ReportView;

    open spec fn view(&self) -> ReportView {
        ReportView { matches: self.matches.deep_view(), failures: self.failures.deep_view() }
    }
}

/// Why a scan came to nothing.
#[derive(Clone, Copy, Debug, PartialEq, Eq, Structural)]
pub enum ScanError {
    /// The root itself could not be read.
    RootUnreadable,
}

/// A scanner as plain values.
pub struct ScannerView {
    /// The directories still to read; the last one is read next.
    pub pending: Seq<Seq<char>>,
    /// What was found so far.
    pub report: ReportView,
    /// No listing was fed yet: the next one is that of the root.
    pub fresh: bool,
    /// The root could not be read.
    pub root_failed: bool,
}

impl ScannerView {
    /// A scanner that has only the root to read.
    pub open spec fn start(root: Seq<char>) -> ScannerView {
        ScannerView {
            pending: seq![root],
            report: ReportView::empty(),
            fresh: true,
            root_failed: false,
        }
    }

    /// The scanner after the listing of its next directory came in. An
    /// unreadable directory is noted as a failure. A readable one adds its own
    /// match, and the directories to go down into take its place on the stack,
    /// the first listed on top. With nothing left to read, nothing changes.
    pub open spec fn fed(self, listing: Option<Seq<EntryView>>) -> ScannerView {
        if self.pending.len() == 0 {
            self
        } else {
            let dir = self.pending.last();
            let rest = self.pending.drop_last();
            match listing {
                None => ScannerView {
                    pending: rest,
                    report: ReportView {
                        matches: self.report.matches,
                        failures: self.report.failures.push(dir),
                    },
                    fresh: false,
                    root_failed: self.root_failed || self.fresh,
                },
                Some(entries) => ScannerView {
                    pending: rest + stacked(dir, entries),
                    report: ReportView {
                        matches: self.report.matches + own_match(dir, entries),
                        failures: self.report.failures,
                    },
                    fresh: false,
                    root_failed: self.root_failed,
                },
            }
        }
    }
}

/// A directory that cannot be read costs the scan nothing but itself: it is
/// noted as a failure, the matches stay, and every other directory that was
/// waiting to be read still is.
pub proof fn lemma_failure_keeps_the_rest(scanner: ScannerView)
    requires
        scanner.pending.len() > 0,
    ensures
        scanner.fed(None).pending == scanner.pending.drop_last(),
        scanner.fed(None).report.matches == scanner.report.matches,
        scanner.fed(None).report.failures == scanner.report.failures.push(scanner.pending.last()),
{
}

/// The scanner does not see an entry that the filter passes over: a listing
/// with a hidden entry or a symlink in it leaves the scanner as the listing
/// without that entry does.
pub proof fn lemma_skipped_entry_is_not_seen(
    scanner: ScannerView,
    entries: Seq<EntryView>,
    i: int,
)
    requires
        0 <= i < entries.len(),
        class_at(entries, i) == EntryClass::SkipHidden || class_at(entries, i)
            == EntryClass::SkipSymlink,
    ensures
        scanner.fed(Some(entries.remove(i))) == scanner.fed(Some(entries)),
{
    lemma_markers_without(entries, i);
    lemma_stacked_without(scanner.pending.last(), entries, i);
}

/// The state of a scan between two readings of a directory.
pub struct Scanner {
    pending: Vec<String>,
    matches: Vec<String>,
    failures: Vec<String>,
    fresh: bool,
    root_failed: bool,
}

impl View for Scanner {
    type V = ScannerView;

    closed spec fn view(&self) -> ScannerView {
        ScannerView {
            pending: self.pending.deep_view(),
            report: ReportView {
                matches: self.matches.deep_view(),
                failures: self.failures.deep_view(),
            },
            fresh: self.fresh,
            root_failed: self.root_failed,
        }
    }
}

/// Tells whether a listing holds both markers of a project.
pub fn is_project(entries: &Vec<Entry>) -> (yes: bool)
    ensures
        yes == (has_artifact_dir(entries.deep_view()) && has_manifest(entries.deep_view())),
{
    let ghost views = entries.deep_view();
    let mut artifact = false;
    let mut manifest = false;
    let mut i: usize = 0;
    proof {
        lemma_no_markers_in_nothing(views.subrange(0, 0));
    }
    while i < entries.len()
        invariant
            i <= entries.len(),
            views == entries.deep_view(),
            artifact == has_artifact_dir(views.subrange(0, i as int)),
            manifest == has_manifest(views.subrange(0, i as int)),
        decreases entries.len() - i,
    {
        proof {
            lemma_markers_with_one_more(views, i as int);
        }
        match classify(entries[i].name.as_str(), entries[i].kind) {
            EntryClass::MarkerCandidateDir => {
                artifact = true;
            },
            EntryClass::MarkerCandidateFile => {
                manifest = true;
            },
            _ => {},
        }
        i += 1;
    }
    assert(views.subrange(0, i as int) =~= views);
    artifact && manifest
}

impl Scanner {
    /// A scanner that has only `root` to read.
    pub fn new(root: &str) -> (scanner: Scanner)
        ensures
            scanner@ == ScannerView::start(root@),
    {
        let mut pending: Vec<String> = Vec::new();
        pending.push(root.to_owned());
        let scanner = Scanner {
            pending,
            matches: Vec::new(),
            failures: Vec::new(),
            fresh: true,
            root_failed: false,
        };
        assert(scanner@.pending =~= seq![root@]);
        assert(scanner@.report.matches =~= Seq::<Seq<char>>::empty());
        assert(scanner@.report.failures =~= Seq::<Seq<char>>::empty());
        scanner
    }

    /// The directory to read next, or `None` when the scan is over.
    pub fn next_dir(&self) -> (dir: Option<&String>)
        ensures
            match dir {
                Some(d) => self@.pending.len() > 0 && d@ == self@.pending.last(),
                None => self@.pending.len() == 0,
            },
    {
        let len = self.pending.len();
        if len == 0 {
            None
        } else {
            Some(&self.pending[len - 1])
        }
    }

    /// Whether the scan is over.
    pub fn is_done(&self) -> (done: bool)
        ensures
            done == (self@.pending.len() == 0),
    {
        self.pending.len() == 0
    }

    /// Takes in what came of reading the directory that `next_dir` named.
    pub fn feed(&mut self, listing: &Listing)
        ensures
            final(self)@ == old(self)@.fed(listing@),
    {
        let ghost rest = self@.pending.drop_last();
        let dir = match self.pending.pop() {
            Some(dir) => dir,
            None => {
                return ;
            },
        };
        assert(self.pending.deep_view() =~= rest);
        let fresh = self.fresh;
        self.fresh = false;
        match listing {
            Listing::Unreadable => {
                if fresh {
                    self.root_failed = true;
                }
                let ghost before = self.failures.deep_view();
                self.failures.push(dir);
                assert(self.failures.deep_view() =~= before.push(dir@));
            },
            Listing::Entries(entries) => {
                let ghost views = entries.deep_view();
                let ghost before = self.matches.deep_view();
                if is_project(entries) {
                    self.matches.push(join(dir.as_str(), artifact_dir()));
                }
                let mut i: usize = entries.len();
                while i > 0
                    invariant
                        i <= entries.len(),
                        views == entries.deep_view(),
                        self.pending.deep_view() == rest + stacked(
                            dir@,
                            views.subrange(i as int, views.len() as int),
                        ),
                        self.matches.deep_view() == before + own_match(dir@, views),
                        self.failures == old(self).failures,
                        self.fresh == false,
                        self.root_failed == old(self).root_failed,
                    decreases i,
                {
                    i -= 1;
                    let ghost tail = views.subrange(i as int, views.len() as int);
                    assert(tail.drop_first() =~= views.subrange(i + 1, views.len() as int));
                    let ghost stack = self.pending.deep_view();
                    let entry = &entries[i];
                    if enters(entry.name.as_str(), entry.kind) {
                        self.pending.push(join(dir.as_str(), entry.name.as_str()));
                        assert(self.pending.deep_view() =~= stack.push(joined(dir@, entry.name@)));
                    }
                }
                assert(views.subrange(0, views.len() as int) =~= views);
            },
        }
    }

    /// Ends the scan and hands out what was found so far: everything, once
    /// `next_dir` has nothing left to name. A scan whose root could not be
    /// read has failed as a whole.
    pub fn finish(self) -> (outcome: Result<Report, ScanError>)
        ensures
            match outcome {
                Ok(report) => !self@.root_failed && report@ == self@.report,
                Err(e) => self@.root_failed && e == ScanError::RootUnreadable,
            },
    {
        if self.root_failed {
            Err(ScanError::RootUnreadable)
        } else {
            Ok(Report { matches: self.matches, failures: self.failures })
        }
    }
}

} // verus!
