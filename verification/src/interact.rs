//! What an input event does to the list, and what it asks of the caller.
//!
//! Moving a path to the trash is the caller's work. The functions here say
//! which paths to trash and bring the list in step with how that went.

use vstd::prelude::*;
use crate::input::{command_for, command_of, Command, Event};
use crate::state::{
    lemma_removing_the_only_item, lemma_removing_the_selected_item, Events, EventsView,
};

verus! {

/// What the caller has to do after an event was handled.
#[derive(Debug, PartialEq, Eq)]
pub enum Action {
    /// Draw the list again.
    Redraw,
    /// Move this path to the trash, then report with `trash_selected`.
    Trash(String),
    /// Move these paths to the trash, in this order and without stopping at
    /// one that fails, then report with `trash_all`.
    TrashAll(Vec<String>),
    /// Restore the terminal and leave.
    Quit,
}

/// An action as plain values.
pub enum ActionView {
    Redraw,
    Trash(Seq<char>),
    TrashAll(Seq<Seq<char>>),
    Quit,
}

impl View for Action {
    type V = ActionView;

    open spec fn view(&self) -> ActionView {
        match self {
            Action::Redraw => ActionView::Redraw,
            Action::Trash(path) => ActionView::Trash(path@),
            Action::TrashAll(paths) => ActionView::TrashAll(paths.deep_view()),
            Action::Quit => ActionView::Quit,
        }
    }
}

/// The list after a command: only the two cursor movements change it.
pub open spec fn moved(before: EventsView, command: Command) -> EventsView {
    match command {
        Command::Previous => before.previous(),
        Command::Next => before.next(),
        _ => before,
    }
}

/// The action that a command calls for. Trashing the highlighted path with no
/// row highlighted is nothing but a redraw.
pub open spec fn action_of(before: EventsView, command: Command) -> ActionView {
    match command {
        Command::TrashSelected => match before.selected {
            Some(i) => ActionView::Trash(before.items[i]),
            None => ActionView::Redraw,
        },
        Command::TrashAll => ActionView::TrashAll(before.items),
        Command::Quit => ActionView::Quit,
        _ => ActionView::Redraw,
    }
}

/// The list after the caller tried to trash the highlighted path. Only a path
/// that is gone leaves the list; after a failure everything stays as it was.
pub open spec fn settled(before: EventsView, deleted: bool) -> EventsView {
    match before.selected {
        Some(i) if deleted => before.without(i),
        _ => before,
    }
}

/// Whether the `index`-th path went to the trash: a missing outcome counts as
/// a failure.
pub open spec fn went(outcomes: Seq<bool>, index: int) -> bool {
    0 <= index < outcomes.len() && outcomes[index]
}

/// The paths that did not go to the trash, in list order.
pub open spec fn left_behind(items: Seq<Seq<char>>, outcomes: Seq<bool>) -> Seq<Seq<char>>
    decreases items.len(),
{
    if items.len() == 0 {
        Seq::empty()
    } else {
        let rest = left_behind(items.drop_last(), outcomes);
        if went(outcomes, items.len() - 1) {
            rest
        } else {
            rest.push(items.last())
        }
    }
}

/// Handles one input event: moves the cursor where the event says so, and
/// tells the caller what is left to do.
pub fn handle_event(event: &Event, events: &mut Events) -> (action: Action)
    ensures
        final(events)@ == moved(old(events)@, command_of(*event)),
        action@ == action_of(old(events)@, command_of(*event)),
{
    match command_for(event) {
        Command::Previous => {
            events.previous();
            Action::Redraw
        },
        Command::Next => {
            events.next();
            Action::Redraw
        },
        Command::TrashSelected => match events.selected_path() {
            Some(path) => Action::Trash(path.clone()),
            None => Action::Redraw,
        },
        Command::TrashAll => Action::TrashAll(copy_of(events.items())),
        Command::Quit => Action::Quit,
        Command::Ignore => Action::Redraw,
    }
}

/// Copies a list of paths.
fn copy_of(paths: &Vec<String>) -> (copy: Vec<String>)
    ensures
        copy.deep_view() == paths.deep_view(),
{
    let mut copy: Vec<String> = Vec::new();
    let mut i: usize = 0;
    while i < paths.len()
        invariant
            i <= paths.len(),
            copy.len() == i,
            forall|k: int| 0 <= k < i ==> copy[k]@ == paths[k]@,
        decreases paths.len() - i,
    {
        copy.push(paths[i].clone());
        i += 1;
    }
    copy
}

/// Brings the list in step with an attempt to trash the highlighted path.
/// `deleted` says whether the path is gone.
pub fn trash_selected(events: &mut Events, deleted: bool)
    ensures
        final(events)@ == settled(old(events)@, deleted),
{
    if deleted {
        match events.selected() {
            Some(i) => {
                let _ = events.remove(i);
            },
            None => {},
        }
    }
}

/// Brings the list in step with an attempt to trash every path: the list is
/// emptied and the cursor unset, however the attempts went. `outcomes` holds,
/// in list order, whether each path is gone. The paths that are not are
/// handed back.
pub fn trash_all(events: &mut Events, outcomes: &Vec<bool>) -> (failed: Vec<String>)
    ensures
        final(events)@ == EventsView::cleared(),
        failed.deep_view() == left_behind(old(events)@.items, outcomes@),
{
    let mut failed: Vec<String> = Vec::new();
    let mut i: usize = 0;
    let len = events.len();
    while i < len
        invariant
            i <= len,
            len == events@.items.len(),
            events@ == old(events)@,
            failed.deep_view() == left_behind(events@.items.subrange(0, i as int), outcomes@),
        decreases len - i,
    {
        assert(events@.items.subrange(0, i + 1).drop_last() =~= events@.items.subrange(
            0,
            i as int,
        ));
        let gone = i < outcomes.len() && outcomes[i];
        if !gone {
            match events.get(i) {
                Some(path) => {
                    failed.push(path.clone());
                },
                None => {},
            }
        }
        i += 1;
    }
    assert(events@.items.subrange(0, len as int) =~= events@.items);
    events.clear();
    failed
}

/// Trashing the highlighted path where it is the only one leaves an empty
/// list with no row highlighted.
pub proof fn lemma_trashing_the_only_path(before: EventsView)
    requires
        before.valid(),
        before.items.len() == 1,
        before.selected is Some,
    ensures
        settled(before, true) == EventsView::cleared(),
{
    lemma_removing_the_only_item(before);
}

/// Trashing the highlighted path where it is not the last one brings the
/// path that followed it into its row, and the cursor stays on that row.
pub proof fn lemma_trashing_keeps_the_row(before: EventsView, row: int)
    requires
        before.valid(),
        before.selected == Some(row),
        row + 1 < before.items.len(),
    ensures
        settled(before, true).items[row] == before.items[row + 1],
        settled(before, true).selected == Some(row),
        settled(before, true).items.len() == before.items.len() - 1,
{
    lemma_removing_the_selected_item(before, row);
}

/// A path that could not be trashed stays listed, and the cursor stays
/// where it is.
pub proof fn lemma_failed_trash_changes_nothing(before: EventsView)
    ensures
        settled(before, false) == before,
{
}

} // verus!
