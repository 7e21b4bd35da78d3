//! What the user's input asks for.

use vstd::prelude::*;

verus! {

/// What the frame loop is asked to do.
#[derive(Debug, Clone, Copy, PartialEq, Eq, Structural)]
pub enum Command {
    /// End the loop.
    Quit,
    /// Show the position that the pointer was dragged to: column, then row.
    Look(u16, u16),
}

/// A key, as far as the commands tell keys apart.
#[derive(Debug, Clone, Copy, PartialEq, Eq, Structural)]
pub enum Key {
    Char(char),
    Esc,
    Other,
}

/// A mouse button.
#[derive(Debug, Clone, Copy, PartialEq, Eq, Structural)]
pub enum MouseButton {
    Left,
    Right,
    Middle,
}

/// What the mouse did, as far as the commands tell it apart.
#[derive(Debug, Clone, Copy, PartialEq, Eq, Structural)]
pub enum MouseAction {
    /// It moved while the button was held down.
    Drag(MouseButton),
    Other,
}

/// One event of the terminal.
#[derive(Debug, Clone, Copy, PartialEq, Eq, Structural)]
pub enum InputEvent {
    Key(Key),
    Mouse { action: MouseAction, column: u16, row: u16 },
    Other,
}

/// The command that an event stands for: `q`, `Q` and escape quit, a drag
/// with the left button looks at the position under the pointer, and nothing
/// else is a command.
pub open spec fn command_of(event: InputEvent) -> Option<Command> {
    match event {
        InputEvent::Key(Key::Char(c)) => if c == 'q' || c == 'Q' {
            Some(Command::Quit)
        } else {
            None
        },
        InputEvent::Key(Key::Esc) => Some(Command::Quit),
        InputEvent::Mouse { action: MouseAction::Drag(MouseButton::Left), column, row } => Some(
            Command::Look(column, row),
        ),
        _ => None,
    }
}

/// The command that an event stands for, if it stands for one.
pub fn process_input(event: InputEvent) -> (command: Option<Command>)
    ensures
        command == command_of(event),
{
    match event {
        InputEvent::Key(key) => {
            match key {
                Key::Char('q') | Key::Char('Q') | Key::Esc => Some(Command::Quit),
                _ => None,
            }
        },
        InputEvent::Mouse { action, column, row } => {
            match action {
                MouseAction::Drag(MouseButton::Left) => Some(Command::Look(column, row)),
                _ => None,
            }
        },
        _ => None,
    }
}

} // verus!
