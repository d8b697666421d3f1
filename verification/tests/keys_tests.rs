use text_editor::keys::{EditorState, KEY_BACKSPACE, KEY_DOWN, KEY_ENTER, KEY_LEFT, KEY_RIGHT, KEY_UP, KEY_Y, KEY_Z};

fn press(e: &mut EditorState, key: i32, ctrl: bool) {
    assert!(e.can_handle_key(key, true, ctrl));
    e.handle_key(key, true, ctrl);
}

#[test]
fn typing_enter_and_backspace() {
    let mut e = EditorState::new(12);
    assert_eq!(e.buffer().text(), "Welcome to Mega Editor!\nType something...");
    assert_eq!(e.viewport_lines(), 12);
    assert_eq!(e.scroll_line(), 0);
    press(&mut e, 'A' as i32, false);
    press(&mut e, KEY_ENTER, false);
    assert_eq!(e.cursor_pos(), 2);
    assert!(e.buffer().text().starts_with("A\nWelcome"));
    press(&mut e, KEY_BACKSPACE, false);
    assert_eq!(e.cursor_pos(), 1);
    assert!(e.buffer().text().starts_with("AWelcome"));
}

#[test]
fn undo_and_redo_keys() {
    let mut e = EditorState::new(12);
    press(&mut e, 'x' as i32, false);
    press(&mut e, 'y' as i32, false);
    press(&mut e, KEY_BACKSPACE, false);
    assert!(e.buffer().text().starts_with("xWelcome"));
    // Undo puts back the deleted 'y'.
    press(&mut e, KEY_Z, true);
    assert!(e.buffer().text().starts_with("xyWelcome"));
    // The two typed characters were merged into one entry.
    press(&mut e, KEY_Z, true);
    assert!(e.buffer().text().starts_with("Welcome"));
    press(&mut e, KEY_Y, true);
    assert!(e.buffer().text().starts_with("xyWelcome"));
    // Without ctrl, Z and Y do nothing.
    press(&mut e, KEY_Z, false);
    assert!(e.buffer().text().starts_with("xyWelcome"));
    // The cursor is left where it was.
    assert_eq!(e.cursor_pos(), 1);
}

#[test]
fn arrow_keys_move_the_cursor() {
    let mut e = EditorState::new(12);
    press(&mut e, KEY_LEFT, false);
    assert_eq!(e.cursor_pos(), 0);
    for _ in 0..5 {
        press(&mut e, KEY_RIGHT, false);
    }
    assert_eq!(e.cursor_pos(), 5);
    // Down keeps the column on the next line.
    press(&mut e, KEY_DOWN, false);
    assert_eq!(e.cursor_pos(), 29);
    // There is no line after the last one.
    press(&mut e, KEY_DOWN, false);
    assert_eq!(e.cursor_pos(), 29);
    // Up keeps the column on the previous line.
    press(&mut e, KEY_UP, false);
    assert_eq!(e.cursor_pos(), 5);
    for _ in 0..100 {
        press(&mut e, KEY_RIGHT, false);
    }
    assert_eq!(e.cursor_pos(), 41);
    press(&mut e, KEY_LEFT, false);
    assert_eq!(e.cursor_pos(), 40);
}

#[test]
fn released_and_unprintable_keys_are_ignored() {
    let mut e = EditorState::new(12);
    let before = e.buffer().text();
    e.handle_key('A' as i32, false, false);
    press(&mut e, 200, false);
    press(&mut e, -3, false);
    press(&mut e, 10, false);
    assert_eq!(e.buffer().text(), before);
    assert_eq!(e.cursor_pos(), 0);
    // Backspace at the start does nothing.
    press(&mut e, KEY_BACKSPACE, false);
    assert_eq!(e.buffer().text(), before);
    assert_eq!(e.buffer().version(), 0);
}

#[test]
fn space_and_tilde_are_typed() {
    let mut e = EditorState::new(1);
    press(&mut e, ' ' as i32, false);
    press(&mut e, '~' as i32, false);
    assert!(e.buffer().text().starts_with(" ~Welcome"));
    assert_eq!(e.history().undo_possible(e.buffer()), true);
}
