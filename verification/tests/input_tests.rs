use termscape::input::{process_input, Command, InputEvent, Key, MouseAction, MouseButton};

#[test]
fn q_and_escape_quit() {
    assert_eq!(process_input(InputEvent::Key(Key::Char('q'))), Some(Command::Quit));
    assert_eq!(process_input(InputEvent::Key(Key::Char('Q'))), Some(Command::Quit));
    assert_eq!(process_input(InputEvent::Key(Key::Esc)), Some(Command::Quit));
}

#[test]
fn other_keys_are_no_command() {
    assert_eq!(process_input(InputEvent::Key(Key::Char('x'))), None);
    assert_eq!(process_input(InputEvent::Key(Key::Char(' '))), None);
    assert_eq!(process_input(InputEvent::Key(Key::Other)), None);
}

#[test]
fn left_drag_looks_at_the_pointer() {
    let event = InputEvent::Mouse { action: MouseAction::Drag(MouseButton::Left), column: 12, row: 7 };
    assert_eq!(process_input(event), Some(Command::Look(12, 7)));
}

#[test]
fn other_mouse_events_are_no_command() {
    for action in [
        MouseAction::Drag(MouseButton::Right),
        MouseAction::Drag(MouseButton::Middle),
        MouseAction::Other,
    ] {
        assert_eq!(process_input(InputEvent::Mouse { action, column: 1, row: 2 }), None);
    }
}

#[test]
fn other_events_are_no_command() {
    assert_eq!(process_input(InputEvent::Other), None);
}
