use text_editor::buffer::EditorBuffer;
use text_editor::history::{Delta, History, HistoryEntry};

#[test]
fn undo_redo_simple() {
    let mut buf = EditorBuffer::new("hello");
    let mut history = History::new(10);

    let insert = Delta::Insert {
        start: 5,
        text: " world".into(),
    };
    history.push_entry(HistoryEntry::new(vec![insert], "typing"), &mut buf);
    assert_eq!(buf.text(), "hello world");

    assert!(history.undo(&mut buf));
    assert_eq!(buf.text(), "hello");
    assert!(history.redo(&mut buf));
    assert_eq!(buf.text(), "hello world");
}

#[test]
fn reverse_of_insert_deletes_the_inserted_characters() {
    let d = Delta::Insert { start: 2, text: "añ".into() };
    match d.reverse() {
        Delta::Delete { start, end, text } => {
            assert_eq!((start, end), (2, 4));
            assert_eq!(text, "añ");
        }
        _ => panic!("expected a deletion"),
    }
    let d = Delta::Delete { start: 1, end: 3, text: "xy".into() };
    match d.reverse() {
        Delta::Insert { start, text } => {
            assert_eq!(start, 1);
            assert_eq!(text, "xy");
        }
        _ => panic!("expected an insertion"),
    }
}

#[test]
fn undo_restores_text_of_a_group() {
    let mut buf = EditorBuffer::new("abcdef");
    let entry = HistoryEntry::new(
        vec![
            Delta::Delete { start: 1, end: 3, text: "bc".into() },
            Delta::Insert { start: 0, text: "XY".into() },
            Delta::Insert { start: 6, text: "!".into() },
        ],
        "edit",
    );
    entry.apply_forward(&mut buf);
    assert_eq!(buf.text(), "XYadef!");
    entry.apply_backward(&mut buf);
    assert_eq!(buf.text(), "abcdef");
    entry.apply_forward(&mut buf);
    assert_eq!(buf.text(), "XYadef!");
}

#[test]
fn typing_entries_coalesce() {
    let mut buf = EditorBuffer::new("");
    let mut history = History::new(0);
    history.push_entry(HistoryEntry::new(vec![Delta::Insert { start: 0, text: "a".into() }], "typing"), &mut buf);
    history.push_entry(HistoryEntry::new(vec![Delta::Insert { start: 1, text: "b".into() }], "typing"), &mut buf);
    assert_eq!(buf.text(), "ab");
    assert!(history.undo(&mut buf));
    assert_eq!(buf.text(), "");
    assert!(!history.undo(&mut buf));
    assert!(history.redo(&mut buf));
    assert_eq!(buf.text(), "ab");
    assert!(!history.redo(&mut buf));
}

#[test]
fn no_coalescing_when_turned_off_or_other_names() {
    let mut buf = EditorBuffer::new("");
    let mut history = History::new(0);
    history.set_coalescing(false);
    history.push_entry(HistoryEntry::new(vec![Delta::Insert { start: 0, text: "a".into() }], "typing"), &mut buf);
    history.push_entry(HistoryEntry::new(vec![Delta::Insert { start: 1, text: "b".into() }], "typing"), &mut buf);
    assert!(history.undo(&mut buf));
    assert_eq!(buf.text(), "a");

    let mut buf = EditorBuffer::new("");
    let mut history = History::new(0);
    history.push_entry(HistoryEntry::new(vec![Delta::Insert { start: 0, text: "a".into() }], "paste"), &mut buf);
    history.push_entry(HistoryEntry::new(vec![Delta::Insert { start: 1, text: "b".into() }], "paste"), &mut buf);
    assert!(history.undo(&mut buf));
    assert_eq!(buf.text(), "a");
}

#[test]
fn push_clears_redo_and_limit_drops_oldest() {
    let mut buf = EditorBuffer::new("");
    let mut history = History::new(2);
    for (i, s) in ["a", "b", "c"].iter().enumerate() {
        history.push_entry(HistoryEntry::new(vec![Delta::Insert { start: i, text: s.to_string() }], "step"), &mut buf);
    }
    assert_eq!(buf.text(), "abc");
    assert!(history.undo(&mut buf));
    assert!(history.undo(&mut buf));
    assert_eq!(buf.text(), "a");
    assert!(!history.undo(&mut buf));
    history.push_entry(HistoryEntry::new(vec![Delta::Insert { start: 1, text: "z".into() }], "step"), &mut buf);
    assert!(!history.redo(&mut buf));
    assert_eq!(buf.text(), "az");
}

#[test]
fn clear_empties_both_stacks() {
    let mut buf = EditorBuffer::new("");
    let mut history = History::new(0);
    history.push_entry(HistoryEntry::new(vec![Delta::Insert { start: 0, text: "a".into() }], "step"), &mut buf);
    history.push_entry(HistoryEntry::new(vec![Delta::Insert { start: 1, text: "b".into() }], "step"), &mut buf);
    assert!(history.undo(&mut buf));
    history.clear();
    assert!(!history.undo(&mut buf));
    assert!(!history.redo(&mut buf));
    assert_eq!(buf.text(), "a");
}

#[test]
fn undo_possible_checks_bounds() {
    let mut buf = EditorBuffer::new("abc");
    let mut history = History::new(0);
    assert!(history.undo_possible(&buf));
    assert!(history.redo_possible(&buf));
    history.push_entry(HistoryEntry::new(vec![Delta::Insert { start: 2, text: "zz".into() }], "step"), &mut buf);
    assert_eq!(buf.text(), "abzzc");
    assert!(history.undo_possible(&buf));
    // With the inserted text removed behind the history's back, the deletion that undoes
    // the entry would run past the end.
    buf.delete_range(1, 5);
    assert!(!history.undo_possible(&buf));

    let mut buf = EditorBuffer::new("abc");
    let mut history = History::new(0);
    history.push_entry(HistoryEntry::new(vec![Delta::Delete { start: 0, end: 3, text: "abc".into() }], "step"), &mut buf);
    assert_eq!(buf.text(), "");
    assert!(history.undo(&mut buf));
    assert_eq!(buf.text(), "abc");
    assert!(history.redo_possible(&buf));
    buf.delete_range(0, 2);
    assert!(!history.redo_possible(&buf));
}

#[test]
fn entry_name() {
    let e = HistoryEntry::new(vec![], "typing");
    assert_eq!(e.name(), "typing");
}
