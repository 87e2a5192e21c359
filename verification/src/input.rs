//! Keyboard input as plain values, and the command that each key stands for.

use vstd::prelude::*;

verus! {

/// The key that was struck.
#[derive(Clone, Copy, Debug, PartialEq, Eq, Structural)]
pub enum KeyCode {
    Up,
    Down,
    Delete,
    Esc,
    Char(char),
    Other,
}

/// The modifier keys held down with the key.
#[derive(Clone, Copy, Debug, PartialEq, Eq, Structural)]
pub enum KeyModifiers {
    /// No modifier at all.
    Bare,
    /// Control and nothing else.
    Control,
    /// Any other modifier or combination.
    Other,
}

/// What happened to the key.
#[derive(Clone, Copy, Debug, PartialEq, Eq, Structural)]
pub enum KeyEventKind {
    Press,
    Repeat,
    Release,
}

/// The keyboard state reported with the key.
#[derive(Clone, Copy, Debug, PartialEq, Eq, Structural)]
pub enum KeyEventState {
    /// No state flag is set.
    Bare,
    /// Keypad, caps lock or num lock is flagged.
    Other,
}

/// One keyboard event.
#[derive(Clone, Copy, Debug, PartialEq, Eq, Structural)]
pub struct KeyEvent {
    pub code: KeyCode,
    pub modifiers: KeyModifiers,
    pub kind: KeyEventKind,
    pub state: KeyEventState,
}

/// One input event.
#[derive(Clone, Copy, Debug, PartialEq, Eq, Structural)]
pub enum Event {
    Key(KeyEvent),
    /// Mouse, resize, focus and whatever else is not a key.
    Other,
}

/// What the operator asks for.
#[derive(Clone, Copy, Debug, PartialEq, Eq, Structural)]
pub enum Command {
    /// Move the cursor up.
    Previous,
    /// Move the cursor down.
    Next,
    /// Trash the highlighted path.
    TrashSelected,
    /// Trash every listed path.
    TrashAll,
    /// Leave.
    Quit,
    /// The event stands for nothing.
    Ignore,
}

/// A key counts only as a plain press: no repeat, no release, no state flag.
pub open spec fn plain_press(key: KeyEvent) -> bool {
    key.kind == KeyEventKind::Press && key.state == KeyEventState::Bare
}

/// The command of an event. Up and Down move the cursor, Delete trashes the
/// highlighted path, `a` trashes all, Esc and Control-c quit. Each key but the
/// last counts only without modifiers.
pub open spec fn command_of(event: Event) -> Command {
    match event {
        Event::Key(key) => {
            if !plain_press(key) {
                Command::Ignore
            } else if key.modifiers == KeyModifiers::Bare {
                match key.code {
                    KeyCode::Up => Command::Previous,
                    KeyCode::Down => Command::Next,
                    KeyCode::Delete => Command::TrashSelected,
                    KeyCode::Char(c) => if c == 'a' {
                        Command::TrashAll
                    } else {
                        Command::Ignore
                    },
                    KeyCode::Esc => Command::Quit,
                    KeyCode::Other => Command::Ignore,
                }
            } else if key.modifiers == KeyModifiers::Control && key.code == KeyCode::Char('c') {
                Command::Quit
            } else {
                Command::Ignore
            }
        },
        Event::Other => Command::Ignore,
    }
}

/// Maps an input event to its command.
pub fn command_for(event: &Event) -> (command: Command)
    ensures
        command == command_of(*event),
{
    match event {
        Event::Key(key) => {
            if key.kind != KeyEventKind::Press || key.state != KeyEventState::Bare {
                return Command::Ignore;
            }
            match key.modifiers {
                KeyModifiers::Bare => match key.code {
                    KeyCode::Up => Command::Previous,
                    KeyCode::Down => Command::Next,
                    KeyCode::Delete => Command::TrashSelected,
                    KeyCode::Char(c) => if c == 'a' {
                        Command::TrashAll
                    } else {
                        Command::Ignore
                    },
                    KeyCode::Esc => Command::Quit,
                    KeyCode::Other => Command::Ignore,
                },
                KeyModifiers::Control => match key.code {
                    KeyCode::Char(c) => if c == 'c' {
                        Command::Quit
                    } else {
                        Command::Ignore
                    },
                    _ => Command::Ignore,
                },
                KeyModifiers::Other => Command::Ignore,
            }
        },
        Event::Other => Command::Ignore,
    }
}

} // verus!
