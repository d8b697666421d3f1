use text_editor::buffer::EditorBuffer;
use text_editor::cursor::Cursor;

#[test]
fn insert_and_delete() {
    let mut buf = EditorBuffer::new("hello");
    buf.insert_text(5, " world");
    assert_eq!(buf.text(), "hello world");
    buf.delete_range(5, 11);
    assert_eq!(buf.text(), "hello");
}

#[test]
fn cursor_adjustment() {
    let mut buf = EditorBuffer::new("hello");
    buf.set_cursor(3);
    buf.insert_text(5, " world");
    // Cursor at 3 should not move.
    assert_eq!(buf.cursors()[0].head, 3);
    buf.set_cursor(5);
    buf.insert_text(5, "XX");
    // Cursor at 5 should move to 7.
    assert_eq!(buf.cursors()[0].head, 7);
}

#[test]
fn multi_cursor() {
    let mut buf = EditorBuffer::new("hello world");
    buf.set_cursor(0);
    buf.add_cursor(6);
    // Insert at beginning affects both cursors.
    buf.insert_text(0, "Hi ");
    let cursors = buf.cursors();
    assert_eq!(cursors[0].head, 3);
    assert_eq!(cursors[1].head, 9);
}

#[test]
fn cursor_selection_orders_ends() {
    let c = Cursor { head: 7, tail: 2 };
    assert_eq!(c.selection(), Some(2..7));
    let c = Cursor { head: 2, tail: 7 };
    assert_eq!(c.selection(), Some(2..7));
    assert_eq!(Cursor::new(4).selection(), None);
}

#[test]
fn cursor_move_to_clears_selection() {
    let mut c = Cursor { head: 1, tail: 9 };
    c.move_to(5);
    assert_eq!((c.head, c.tail), (5, 5));
    let d = Cursor::default();
    assert_eq!((d.head, d.tail), (0, 0));
}

#[test]
fn delete_moves_cursors_inside_and_after() {
    let mut buf = EditorBuffer::new("abcdefghij");
    buf.set_cursor(1);
    buf.add_cursor(4);
    buf.add_cursor(8);
    buf.cursors_mut()[1].tail = 9;
    buf.delete_range(3, 6);
    assert_eq!(buf.text(), "abcghij");
    let cs = buf.cursors();
    assert_eq!((cs[0].head, cs[0].tail), (1, 1));
    assert_eq!((cs[1].head, cs[1].tail), (3, 6));
    assert_eq!((cs[2].head, cs[2].tail), (5, 5));
    assert_eq!(buf.version(), 1);
}

#[test]
fn empty_delete_changes_nothing() {
    let mut buf = EditorBuffer::new("abc");
    buf.delete_range(2, 2);
    buf.delete_range(3, 1);
    assert_eq!(buf.text(), "abc");
    assert_eq!(buf.version(), 0);
}

#[test]
fn insert_counts_characters_not_bytes() {
    let mut buf = EditorBuffer::new("añb");
    buf.set_cursor(2);
    buf.insert_text(1, "éé");
    assert_eq!(buf.text(), "aééñb");
    assert_eq!(buf.len_chars(), 5);
    assert_eq!(buf.cursors()[0].head, 4);
    assert_eq!(buf.version(), 1);
}

#[test]
fn cursor_list_edits() {
    let mut buf = EditorBuffer::default();
    assert_eq!(buf.text(), "");
    assert_eq!(buf.cursors().len(), 1);
    buf.add_cursor(0);
    buf.add_cursor(0);
    buf.remove_cursor(1);
    assert_eq!(buf.cursors().len(), 2);
    buf.remove_cursor(10);
    assert_eq!(buf.cursors().len(), 2);
    buf.clear_cursors();
    assert_eq!(buf.cursors().len(), 1);
    assert_eq!(buf.cursors()[0].head, 0);
}

#[test]
fn snapshot_and_rope_hold_the_text() {
    let mut buf = EditorBuffer::new("one\ntwo");
    let snap = buf.snapshot();
    buf.insert_text(0, ">");
    assert_eq!(snap.to_string(), "one\ntwo");
    assert_eq!(buf.rope().to_string(), ">one\ntwo");
    assert_eq!(buf.version(), 1);
}

#[test]
fn can_insert_and_can_delete_check_bounds() {
    let buf = EditorBuffer::new("abc");
    assert!(buf.can_insert(3, 2));
    assert!(!buf.can_insert(4, 1));
    assert!(buf.can_delete(0, 3));
    assert!(!buf.can_delete(1, 4));
    assert!(buf.can_delete(5, 2));
}

#[test]
fn insert_then_delete_restores_the_buffer() {
    let mut buf = EditorBuffer::new("héllo");
    buf.set_cursor(1);
    buf.add_cursor(4);
    let before: Vec<(usize, usize)> = buf.cursors().iter().map(|c| (c.head, c.tail)).collect();
    buf.insert_text(2, "añb");
    buf.delete_range(2, 5);
    assert_eq!(buf.text(), "héllo");
    let after: Vec<(usize, usize)> = buf.cursors().iter().map(|c| (c.head, c.tail)).collect();
    assert_eq!(after, before);
    assert_eq!(buf.version(), 2);
}
