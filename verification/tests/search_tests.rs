use text_editor::buffer::EditorBuffer;
use text_editor::search;
use text_editor::search::{search_buffer, try_search_buffer, try_search_range};

#[test]
fn basic_search() {
    let buf = EditorBuffer::new("hello world");
    let matches = search_buffer(&buf, r"l+");
    assert_eq!(matches.len(), 2);
    assert_eq!(matches[0].text, "ll");
    assert_eq!(matches[0].char_range, 2..4);
}

#[test]
fn search_range() {
    let buf = EditorBuffer::new("hello world");
    let matches = search::search_range(&buf, r"l+", 0..5);
    assert_eq!(matches.len(), 1);
    assert_eq!(matches[0].text, "ll");
    assert_eq!(matches[0].char_range, 2..4);
}

#[test]
fn search_reports_character_ranges() {
    let buf = EditorBuffer::new("ñaña ña");
    let matches = search_buffer(&buf, "ña");
    let ranges: Vec<_> = matches.iter().map(|m| m.char_range.clone()).collect();
    assert_eq!(ranges, vec![0..2, 2..4, 5..7]);
    assert!(matches.iter().all(|m| m.text == "ña"));
}

#[test]
fn search_range_keeps_to_the_range() {
    let buf = EditorBuffer::new("ab ab ab");
    let matches = search::search_range(&buf, "ab", 3..7);
    let ranges: Vec<_> = matches.iter().map(|m| m.char_range.clone()).collect();
    assert_eq!(ranges, vec![3..5]);

    let buf = EditorBuffer::new("hello world");
    let matches = search::search_range(&buf, "l", 3..9);
    assert_eq!(matches.len(), 1);
    assert_eq!(matches[0].char_range, 3..4);
    assert_eq!(matches[0].text, "l");
}

#[test]
fn search_finds_matches_across_chunks() {
    let text = "a".repeat(5000);
    let buf = EditorBuffer::new(&text);
    let matches = search_buffer(&buf, "a+");
    assert_eq!(matches.len(), 1);
    assert_eq!(matches[0].char_range, 0..5000);
    let matches = search::search_range(&buf, "a+", 10..4000);
    assert_eq!(matches.len(), 1);
    assert_eq!(matches[0].char_range, 10..4000);
}

#[test]
fn reversed_range_finds_nothing() {
    let buf = EditorBuffer::new("abc");
    assert!(search::search_range(&buf, "b", 2..1).is_empty());
}

#[test]
fn search_range_at_the_end_finds_nothing() {
    let buf = EditorBuffer::new("abc");
    assert!(search::search_range(&buf, "c", 3..3).is_empty());
}

#[test]
fn invalid_pattern_is_rejected() {
    let buf = EditorBuffer::new("abc");
    assert!(try_search_buffer(&buf, "(").is_none());
    assert!(try_search_range(&buf, "[", 0..1).is_none());
    assert_eq!(try_search_buffer(&buf, "b").unwrap().len(), 1);
    assert_eq!(try_search_range(&buf, "b", 0..3).unwrap()[0].char_range, 1..2);
}

#[test]
fn matches_from_given_ranges() {
    let buf = EditorBuffer::new("ñaña ña");
    let text = buf.text();
    let bytes = text.as_bytes();
    let ms = search::matches_from_ranges(&buf, bytes, 0, &vec![(0, 3), (3, 6), (7, 10)]);
    let ranges: Vec<_> = ms.iter().map(|m| m.char_range.clone()).collect();
    assert_eq!(ranges, vec![0..2, 2..4, 5..7]);
    assert!(ms.iter().all(|m| m.text == "ña"));
    // A piece that starts later in the text reports ranges from that point.
    let ms = search::matches_from_ranges(&buf, &bytes[3..], 3, &vec![(0, 1)]);
    assert_eq!(ms[0].char_range, 2..2);
    assert_eq!(ms[0].text, "\u{FFFD}");
}
