//! The list of paths that a scan found, and the cursor over it.

use vstd::prelude::*;

verus! {

/// A list of paths and a cursor, as plain values.
pub struct EventsView {
    pub items: Seq<Seq<char>>,
    pub selected: Option<int>,
}

impl EventsView {
    /// The cursor is either unset or points at one of the items, so it is
    /// unset whenever the list is empty.
    pub open spec fn valid(self) -> bool {
        self.selected matches Some(i) ==> 0 <= i < self.items.len()
    }

    /// The state after moving the cursor down one row, from the last row to the first.
    pub open spec fn next(self) -> EventsView {
        EventsView {
            items: self.items,
            selected: if self.items.len() == 0 {
                None
            } else {
                match self.selected {
                    Some(i) if i + 1 < self.items.len() => Some(i + 1),
                    _ => Some(0),
                }
            },
        }
    }

    /// The state after moving the cursor up one row, from the first row to the last.
    pub open spec fn previous(self) -> EventsView {
        EventsView {
            items: self.items,
            selected: if self.items.len() == 0 {
                None
            } else {
                match self.selected {
                    Some(i) if 0 < i => Some(i - 1),
                    _ => Some(self.items.len() - 1),
                }
            },
        }
    }

    /// The state after the item at `index` has left the list. Later items
    /// move up by one. The cursor keeps its row where that row still exists,
    /// goes to the first row where it stood on the last one, and is unset
    /// once the list is empty.
    pub open spec fn without(self, index: int) -> EventsView
        recommends
            0 <= index < self.items.len(),
    {
        EventsView {
            items: self.items.remove(index),
            selected: match self.selected {
                Some(i) if i + 1 < self.items.len() => Some(i),
                Some(_) if 1 < self.items.len() => Some(0),
                _ => None,
            },
        }
    }

    /// The empty list, with the cursor unset.
    pub open spec fn cleared() -> EventsView {
        EventsView { items: Seq::empty(), selected: None }
    }
}

/// An index that is not below the length of the list.
#[derive(Clone, Copy, Debug, PartialEq, Eq, Structural)]
pub struct OutOfRange {
    pub index: usize,
    pub len: usize,
}

/// The paths still listed, in the order in which they were found, and the
/// row that is highlighted, if any.
pub struct Events {
    items: Vec<String>,
    selected: Option<usize>,
}

impl View for Events {
    type V = EventsView;

    closed spec fn view(&self) -> EventsView {
        EventsView {
            items: self.items.deep_view(),
            selected: match self.selected {
                Some(i) => Some(i as int),
                None => None,
            },
        }
    }
}

impl Events {
    #[verifier::type_invariant]
    spec fn in_range(self) -> bool {
        self.selected matches Some(i) ==> i < self.items.len()
    }

    /// A list with no row highlighted.
    pub fn new(items: Vec<String>) -> (events: Events)
        ensures
            events@.items == items.deep_view(),
            events@.selected is None,
            events@.valid(),
    {
        Events { items, selected: None }
    }

    /// Empties the list and unsets the cursor.
    pub fn clear(&mut self)
        ensures
            final(self)@ == EventsView::cleared(),
    {
        self.selected = None;
        self.items = Vec::new();
        assert(self.items.deep_view() =~= Seq::<Seq<char>>::empty());
    }

    /// The number of paths in the list.
    pub fn len(&self) -> (len: usize)
        ensures
            len == self@.items.len(),
    {
        self.items.len()
    }

    /// Whether the list holds no path.
    pub fn is_empty(&self) -> (empty: bool)
        ensures
            empty == (self@.items.len() == 0),
    {
        self.items.len() == 0
    }

    /// The path at `index`, if there is one.
    pub fn get(&self, index: usize) -> (path: Option<&String>)
        ensures
            match path {
                Some(p) => index < self@.items.len() && p@ == self@.items[index as int],
                None => index >= self@.items.len(),
            },
    {
        if index < self.items.len() {
            Some(&self.items[index])
        } else {
            None
        }
    }

    /// The paths in the list, in order.
    pub fn items(&self) -> (items: &Vec<String>)
        ensures
            items.deep_view() == self@.items,
    {
        &self.items
    }

    /// The highlighted row, if any.
    pub fn selected(&self) -> (selected: Option<usize>)
        ensures
            self@.valid(),
            match selected {
                Some(i) => self@.selected == Some(i as int),
                None => self@.selected is None,
            },
    {
        proof {
            use_type_invariant(self);
        }
        self.selected
    }

    /// The path in the highlighted row, if any.
    pub fn selected_path(&self) -> (path: Option<&String>)
        ensures
            match self@.selected {
                Some(i) => path matches Some(p) && p@ == self@.items[i],
                None => path is None,
            },
    {
        proof {
            use_type_invariant(self);
        }
        match self.selected {
            Some(i) => Some(&self.items[i]),
            None => None,
        }
    }

    /// Takes the path at `index` out of the list and hands it back. With an
    /// index past the end nothing changes.
    pub fn remove(&mut self, index: usize) -> (removed: Result<String, OutOfRange>)
        ensures
            final(self)@.valid(),
            match removed {
                Ok(path) => {
                    &&& index < old(self)@.items.len()
                    &&& path@ == old(self)@.items[index as int]
                    &&& final(self)@ == old(self)@.without(index as int)
                },
                Err(e) => {
                    &&& index >= old(self)@.items.len()
                    &&& e == (OutOfRange { index, len: old(self)@.items.len() as usize })
                    &&& final(self)@ == old(self)@
                },
            },
    {
        proof {
            use_type_invariant(&*self);
        }
        let len = self.items.len();
        if index >= len {
            return Err(OutOfRange { index, len });
        }
        let selected = match self.selected {
            Some(i) if i + 1 < len => Some(i),
            Some(_) if 1 < len => Some(0),
            _ => None,
        };
        // The list is taken out while it shrinks, and the cursor unset, so
        // that the cursor never points past the end of the list.
        self.selected = None;
        let mut items = Vec::new();
        std::mem::swap(&mut items, &mut self.items);
        let path = items.remove(index);
        assert(items.deep_view() =~= old(self)@.items.remove(index as int));
        self.items = items;
        self.selected = selected;
        Ok(path)
    }

    /// Moves the cursor to the previous row, or to the last row from the
    /// first one or from no row. Nothing happens on an empty list.
    pub fn previous(&mut self)
        ensures
            final(self)@ == old(self)@.previous(),
            final(self)@.valid(),
    {
        proof {
            use_type_invariant(&*self);
        }
        let len = self.items.len();
        if len == 0 {
            self.selected = None;
        } else {
            self.selected = match self.selected {
                Some(i) if 0 < i => Some(i - 1),
                _ => Some(len - 1),
            };
        }
    }

    /// Moves the cursor to the next row, or to the first row from the last
    /// one or from no row. Nothing happens on an empty list.
    pub fn next(&mut self)
        ensures
            final(self)@ == old(self)@.next(),
            final(self)@.valid(),
    {
        proof {
            use_type_invariant(&*self);
        }
        let len = self.items.len();
        if len == 0 {
            self.selected = None;
        } else {
            self.selected = match self.selected {
                Some(i) if i + 1 < len => Some(i + 1),
                _ => Some(0),
            };
        }
    }
}

/// The figures of a scan, fixed once it is over: how many `target`
/// directories it found and how long it took.
#[derive(Clone, Copy, Debug, PartialEq, Eq)]
pub struct State {
    found: usize,
    millis: u64,
}

impl State {
    /// Notes the figures of a scan that is over.
    pub fn new(found: usize, millis: u64) -> (state: State)
        ensures
            state.figures() == (found as nat, millis as nat),
    {
        State { found, millis }
    }

    /// The figures as plain values: the number of matches and the duration
    /// in milliseconds.
    pub closed spec fn figures(&self) -> (nat, nat) {
        (self.found as nat, self.millis as nat)
    }

    /// The number of `target` directories that the scan found.
    pub fn found(&self) -> (found: usize)
        ensures
            found == self.figures().0,
    {
        self.found
    }

    /// The duration of the scan in milliseconds.
    pub fn millis(&self) -> (millis: u64)
        ensures
            millis == self.figures().1,
    {
        self.millis
    }
}

/// Moving the cursor and taking an item out keep a valid state valid.
pub proof fn lemma_valid_is_kept(state: EventsView, index: int)
    requires
        state.valid(),
    ensures
        state.next().valid(),
        state.previous().valid(),
        0 <= index < state.items.len() ==> state.without(index).valid(),
        EventsView::cleared().valid(),
{
}

/// On an empty list neither movement of the cursor changes anything.
pub proof fn lemma_empty_list_stands_still(state: EventsView)
    requires
        state.valid(),
        state.items.len() == 0,
    ensures
        state.next() == state,
        state.previous() == state,
        state.selected is None,
{
}

/// With a row highlighted, one step down and one step up lead back to where
/// the cursor was, and so do one step up and one step down. On a list of one
/// item both steps stay on the only row.
pub proof fn lemma_next_previous_round_trip(state: EventsView)
    requires
        state.valid(),
        state.selected is Some,
    ensures
        state.next().previous() == state,
        state.previous().next() == state,
        state.items.len() == 1 ==> state.next().selected == Some(0int) && state.previous().selected
            == Some(0int),
{
}

/// Taking the only item out leaves an empty list and no row highlighted.
pub proof fn lemma_removing_the_only_item(state: EventsView)
    requires
        state.valid(),
        state.items.len() == 1,
    ensures
        state.without(0).items.len() == 0,
        state.without(0).selected is None,
        state.without(0) == EventsView::cleared(),
{
    assert(state.without(0).items =~= Seq::<Seq<char>>::empty());
}

/// Taking out the highlighted item, where it is not the last one, brings the
/// item that followed it into its row, and the cursor stays on that row. The
/// items before it stay, and those after it move up by one.
pub proof fn lemma_removing_the_selected_item(state: EventsView, index: int)
    requires
        state.valid(),
        state.selected == Some(index),
        index + 1 < state.items.len(),
    ensures
        state.without(index).items.len() == state.items.len() - 1,
        state.without(index).items[index] == state.items[index + 1],
        state.without(index).selected == Some(index),
        forall|k: int| 0 <= k < index ==> state.without(index).items[k] == state.items[k],
        forall|k: int|
            index <= k < state.items.len() - 1 ==> state.without(index).items[k] == state.items[k
                + 1],
{
}

/// Taking out the highlighted item where it is the last one sends the cursor
/// to the first row, as long as an item is left.
pub proof fn lemma_removing_the_last_item(state: EventsView, index: int)
    requires
        state.valid(),
        state.selected == Some(index),
        index + 1 == state.items.len(),
        state.items.len() > 1,
    ensures
        state.without(index).selected == Some(0int),
        state.without(index).items == state.items.drop_last(),
{
}

} // verus!
