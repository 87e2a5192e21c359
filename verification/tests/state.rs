use trash_targets::state::{Events, OutOfRange, State};

fn paths(names: &[&str]) -> Vec<String> {
    names.iter().map(|n| n.to_string()).collect()
}

#[test]
fn new_list_has_no_row_highlighted() {
    let events = Events::new(paths(&["a/target", "b/target"]));
    assert_eq!(events.len(), 2);
    assert!(!events.is_empty());
    assert_eq!(events.selected(), None);
    assert_eq!(events.selected_path(), None);
    assert_eq!(events.items(), &paths(&["a/target", "b/target"]));
}

#[test]
fn next_on_an_empty_list_changes_nothing() {
    let mut events = Events::new(vec![]);
    events.next();
    assert_eq!(events.selected(), None);
    assert_eq!(events.len(), 0);
    events.next();
    assert_eq!(events.selected(), None);
}

#[test]
fn previous_on_an_empty_list_changes_nothing() {
    let mut events = Events::new(vec![]);
    events.previous();
    assert_eq!(events.selected(), None);
    assert_eq!(events.len(), 0);
    assert!(events.is_empty());
}

#[test]
fn next_from_no_row_goes_to_the_first() {
    let mut events = Events::new(paths(&["a", "b", "c"]));
    events.next();
    assert_eq!(events.selected(), Some(0));
    assert_eq!(events.selected_path(), Some(&"a".to_string()));
}

#[test]
fn previous_from_no_row_goes_to_the_last() {
    let mut events = Events::new(paths(&["a", "b", "c"]));
    events.previous();
    assert_eq!(events.selected(), Some(2));
    assert_eq!(events.selected_path(), Some(&"c".to_string()));
}

#[test]
fn next_steps_down_and_wraps() {
    let mut events = Events::new(paths(&["a", "b", "c"]));
    events.next();
    events.next();
    assert_eq!(events.selected(), Some(1));
    events.next();
    assert_eq!(events.selected(), Some(2));
    events.next();
    assert_eq!(events.selected(), Some(0));
}

#[test]
fn previous_steps_up_and_wraps() {
    let mut events = Events::new(paths(&["a", "b", "c"]));
    events.next();
    assert_eq!(events.selected(), Some(0));
    events.previous();
    assert_eq!(events.selected(), Some(2));
    events.previous();
    assert_eq!(events.selected(), Some(1));
    events.previous();
    assert_eq!(events.selected(), Some(0));
}

#[test]
fn next_then_previous_is_a_round_trip() {
    for start in 0..4 {
        let mut events = Events::new(paths(&["a", "b", "c", "d"]));
        for _ in 0..=start {
            events.next();
        }
        assert_eq!(events.selected(), Some(start));
        events.next();
        events.previous();
        assert_eq!(events.selected(), Some(start));
        events.previous();
        events.next();
        assert_eq!(events.selected(), Some(start));
    }
}

#[test]
fn single_item_stays_selected() {
    let mut events = Events::new(paths(&["only"]));
    events.next();
    assert_eq!(events.selected(), Some(0));
    events.next();
    assert_eq!(events.selected(), Some(0));
    events.previous();
    assert_eq!(events.selected(), Some(0));
}

#[test]
fn get_reads_by_index() {
    let events = Events::new(paths(&["a", "b"]));
    assert_eq!(events.get(0), Some(&"a".to_string()));
    assert_eq!(events.get(1), Some(&"b".to_string()));
    assert_eq!(events.get(2), None);
    assert_eq!(events.get(usize::MAX), None);
}

#[test]
fn remove_shifts_later_items_up() {
    let mut events = Events::new(paths(&["a", "b", "c", "d"]));
    assert_eq!(events.remove(1), Ok("b".to_string()));
    assert_eq!(events.items(), &paths(&["a", "c", "d"]));
    assert_eq!(events.len(), 3);
    assert_eq!(events.selected(), None);
}

#[test]
fn remove_past_the_end_changes_nothing() {
    let mut events = Events::new(paths(&["a", "b"]));
    events.next();
    assert_eq!(events.remove(2), Err(OutOfRange { index: 2, len: 2 }));
    assert_eq!(events.remove(7), Err(OutOfRange { index: 7, len: 2 }));
    assert_eq!(events.items(), &paths(&["a", "b"]));
    assert_eq!(events.selected(), Some(0));
    let mut empty = Events::new(vec![]);
    assert_eq!(empty.remove(0), Err(OutOfRange { index: 0, len: 0 }));
}

#[test]
fn removing_the_only_item_unsets_the_cursor() {
    let mut events = Events::new(paths(&["only"]));
    events.next();
    assert_eq!(events.remove(0), Ok("only".to_string()));
    assert_eq!(events.len(), 0);
    assert_eq!(events.selected(), None);
}

#[test]
fn removing_the_selected_item_keeps_the_row() {
    let mut events = Events::new(paths(&["a", "b", "c"]));
    events.next();
    events.next();
    assert_eq!(events.selected(), Some(1));
    assert_eq!(events.remove(1), Ok("b".to_string()));
    assert_eq!(events.selected(), Some(1));
    assert_eq!(events.selected_path(), Some(&"c".to_string()));
    assert_eq!(events.get(1), Some(&"c".to_string()));
}

#[test]
fn removing_the_selected_last_item_wraps_to_the_first() {
    let mut events = Events::new(paths(&["a", "b", "c"]));
    events.previous();
    assert_eq!(events.selected(), Some(2));
    assert_eq!(events.remove(2), Ok("c".to_string()));
    assert_eq!(events.selected(), Some(0));
    assert_eq!(events.items(), &paths(&["a", "b"]));
}

#[test]
fn removing_another_item_keeps_the_row_where_it_exists() {
    let mut events = Events::new(paths(&["a", "b", "c"]));
    events.next();
    events.next();
    assert_eq!(events.remove(0), Ok("a".to_string()));
    assert_eq!(events.selected(), Some(1));
    assert_eq!(events.selected_path(), Some(&"c".to_string()));
    let mut last = Events::new(paths(&["a", "b", "c"]));
    last.previous();
    assert_eq!(last.remove(0), Ok("a".to_string()));
    assert_eq!(last.selected(), Some(0));
}

#[test]
fn clear_empties_the_list() {
    let mut events = Events::new(paths(&["a", "b"]));
    events.next();
    events.clear();
    assert_eq!(events.len(), 0);
    assert_eq!(events.selected(), None);
    events.clear();
    assert!(events.is_empty());
}

#[test]
fn state_keeps_its_figures() {
    let state = State::new(3, 1250);
    assert_eq!(state.found(), 3);
    assert_eq!(state.millis(), 1250);
}
