use trash_targets::input::{
    command_for, Command, Event, KeyCode, KeyEvent, KeyEventKind, KeyEventState, KeyModifiers,
};

fn press(code: KeyCode) -> Event {
    Event::Key(KeyEvent {
        code,
        modifiers: KeyModifiers::Bare,
        kind: KeyEventKind::Press,
        state: KeyEventState::Bare,
    })
}

#[test]
fn plain_keys_have_their_commands() {
    assert_eq!(command_for(&press(KeyCode::Up)), Command::Previous);
    assert_eq!(command_for(&press(KeyCode::Down)), Command::Next);
    assert_eq!(command_for(&press(KeyCode::Delete)), Command::TrashSelected);
    assert_eq!(command_for(&press(KeyCode::Char('a'))), Command::TrashAll);
    assert_eq!(command_for(&press(KeyCode::Esc)), Command::Quit);
}

#[test]
fn other_keys_stand_for_nothing() {
    assert_eq!(command_for(&press(KeyCode::Other)), Command::Ignore);
    assert_eq!(command_for(&press(KeyCode::Char('A'))), Command::Ignore);
    assert_eq!(command_for(&press(KeyCode::Char('c'))), Command::Ignore);
    assert_eq!(command_for(&press(KeyCode::Char('q'))), Command::Ignore);
    assert_eq!(command_for(&Event::Other), Command::Ignore);
}

#[test]
fn control_c_quits() {
    let key = KeyEvent {
        code: KeyCode::Char('c'),
        modifiers: KeyModifiers::Control,
        kind: KeyEventKind::Press,
        state: KeyEventState::Bare,
    };
    assert_eq!(command_for(&Event::Key(key)), Command::Quit);
}

#[test]
fn modifiers_take_the_command_away() {
    for code in [KeyCode::Up, KeyCode::Down, KeyCode::Delete, KeyCode::Esc, KeyCode::Char('a')] {
        for modifiers in [KeyModifiers::Control, KeyModifiers::Other] {
            let key = KeyEvent {
                code,
                modifiers,
                kind: KeyEventKind::Press,
                state: KeyEventState::Bare,
            };
            assert_eq!(command_for(&Event::Key(key)), Command::Ignore);
        }
    }
    let key = KeyEvent {
        code: KeyCode::Char('c'),
        modifiers: KeyModifiers::Other,
        kind: KeyEventKind::Press,
        state: KeyEventState::Bare,
    };
    assert_eq!(command_for(&Event::Key(key)), Command::Ignore);
}

#[test]
fn only_a_press_counts() {
    for kind in [KeyEventKind::Repeat, KeyEventKind::Release] {
        for code in [KeyCode::Up, KeyCode::Down, KeyCode::Delete, KeyCode::Esc, KeyCode::Char('a')]
        {
            let key = KeyEvent {
                code,
                modifiers: KeyModifiers::Bare,
                kind,
                state: KeyEventState::Bare,
            };
            assert_eq!(command_for(&Event::Key(key)), Command::Ignore);
        }
        let key = KeyEvent {
            code: KeyCode::Char('c'),
            modifiers: KeyModifiers::Control,
            kind,
            state: KeyEventState::Bare,
        };
        assert_eq!(command_for(&Event::Key(key)), Command::Ignore);
    }
}

#[test]
fn a_state_flag_takes_the_command_away() {
    for code in [KeyCode::Up, KeyCode::Down, KeyCode::Delete, KeyCode::Esc, KeyCode::Char('a')] {
        let key = KeyEvent {
            code,
            modifiers: KeyModifiers::Bare,
            kind: KeyEventKind::Press,
            state: KeyEventState::Other,
        };
        assert_eq!(command_for(&Event::Key(key)), Command::Ignore);
    }
}
