//! What a run does once the scan is over, and how it ends.

use vstd::prelude::*;
use crate::scan::{Report, ScanError};
use crate::state::{Events, EventsView, State};
use crate::tree::ReportView;

verus! {

/// How a run ends.
#[derive(Clone, Copy, Debug, PartialEq, Eq, Structural)]
pub enum Exit {
    /// The operator left, or there was nothing to show.
    Clean,
    /// The scan failed as a whole.
    ScanFailed,
    /// Handling an input event failed beyond repair.
    EventFailed,
}

impl Exit {
    /// The exit code of the process: 0, 1 and 2, in the order of the variants.
    pub open spec fn code_of(self) -> int {
        match self {
            Exit::Clean => 0,
            Exit::ScanFailed => 1,
            Exit::EventFailed => 2,
        }
    }

    /// The exit code of the process.
    pub fn code(&self) -> (code: i32)
        ensures
            code == self.code_of(),
    {
        match self {
            Exit::Clean => 0,
            Exit::ScanFailed => 1,
            Exit::EventFailed => 2,
        }
    }
}

/// What follows the scan.
pub enum Startup {
    /// Leave at once, without showing the list.
    Leave(Exit),
    /// Show the list and wait for input.
    Interact(Events, State),
}

/// The list with which the interaction starts: the matches of the scan, with
/// the first row highlighted.
pub open spec fn first_screen(report: ReportView) -> EventsView {
    EventsView { items: report.matches, selected: Some(0int) }
}

/// Decides what follows the scan. A scan that failed as a whole ends the run
/// with that failure, and one that found nothing ends it cleanly; otherwise
/// the matches are shown with the first row highlighted. `millis` is what the
/// scan took.
pub fn begin(outcome: Result<Report, ScanError>, millis: u64) -> (startup: Startup)
    ensures
        match outcome {
            Err(_) => startup matches Startup::Leave(exit) && exit == Exit::ScanFailed,
            Ok(report) => if report@.matches.len() == 0 {
                startup matches Startup::Leave(exit) && exit == Exit::Clean
            } else {
                startup matches Startup::Interact(events, state) && events@ == first_screen(report@)
                    && state.figures() == (report@.matches.len(), millis as nat)
            },
        },
{
    match outcome {
        Err(_) => Startup::Leave(Exit::ScanFailed),
        Ok(report) => {
            let found = report.matches.len();
            if found == 0 {
                Startup::Leave(Exit::Clean)
            } else {
                let mut events = Events::new(report.matches);
                events.next();
                Startup::Interact(events, State::new(found, millis))
            }
        },
    }
}

} // verus!
