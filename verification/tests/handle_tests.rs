use text_editor::handle::EditorHandle;

#[test]
fn handle_edits_with_undo_and_redo() {
    let mut h = EditorHandle::create("abc");
    assert_eq!(h.len_chars(), 3);
    h.insert_text(3, "d");
    assert_eq!(h.text(), "abcd");
    h.delete_range(0, 1);
    assert_eq!(h.text(), "bcd");
    assert!(h.undo());
    assert_eq!(h.text(), "abcd");
    assert!(h.undo());
    assert_eq!(h.text(), "abc");
    assert!(!h.undo());
    assert!(h.redo());
    assert_eq!(h.text(), "abcd");
    assert_eq!(h.version(), 5);
}

#[test]
fn handle_cursor() {
    let mut h = EditorHandle::create("hello");
    assert_eq!(h.cursor(), 0);
    h.set_cursor(4);
    assert_eq!(h.cursor(), 4);
    h.insert_text(0, "--");
    assert_eq!(h.cursor(), 6);
    h.delete_range(3, 3);
    assert_eq!(h.text(), "--hello");
}

#[test]
fn handle_without_grammar_has_no_tree() {
    let mut h = EditorHandle::create("fn main() {}");
    assert!(!h.highlight());
    assert!(h.fold_regions().is_none());
}
