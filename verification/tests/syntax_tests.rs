use text_editor::buffer::EditorBuffer;
use text_editor::fold::{fold_regions_from_captures, fold_regions_from_tree, FoldCapture, NodeChild};
use text_editor::highlight::{offsets_of_events, SyntaxEvent, SyntaxHighlighter};
use tree_sitter::Language;
use tree_sitter_highlight::HighlightConfiguration;

fn rust() -> Language {
    tree_sitter_rust::LANGUAGE.into()
}

#[test]
fn test_parse() {
    // This test requires a real language; we skip if not available.
    // In practice, you'd use tree_sitter_rust::language().
}

#[test]
fn parse_keeps_the_tree_of_the_same_version() {
    let mut buf = EditorBuffer::new("fn main() { let x = 1; }");
    let mut h = SyntaxHighlighter::new(rust()).unwrap();
    assert!(h.tree().is_none());
    let root = h.parse(&buf).unwrap().root_node().kind().to_string();
    assert_eq!(root, "source_file");
    assert!(h.ensure_parsed(&buf).is_some());
    buf.insert_text(0, "// c\n");
    let text = h.ensure_parsed(&buf).unwrap().root_node().to_sexp();
    assert!(text.contains("line_comment"));
    assert!(h.tree().is_some());
}

#[test]
fn empty_highlighter_cannot_parse() {
    let buf = EditorBuffer::new("x");
    let mut h = SyntaxHighlighter::empty();
    assert!(h.parse(&buf).is_none());
    assert!(h.tree().is_none());
    assert!(h.set_language(rust()).is_ok());
    assert!(h.parse(&buf).is_some());
    // Without a configuration nothing is highlighted.
    assert_eq!(h.highlight(&buf).unwrap().len(), 0);
}

#[test]
fn highlight_reports_events_at_offsets() {
    let buf = EditorBuffer::new("fn main() {}");
    let mut h = SyntaxHighlighter::new(rust()).unwrap();
    let mut config =
        HighlightConfiguration::new(rust(), "rust", tree_sitter_rust::HIGHLIGHTS_QUERY, "", "").unwrap();
    config.configure(&["keyword", "function"]);
    h.set_highlight_config(config);
    h.parse(&buf);
    let events = h.highlight(&buf).unwrap();
    assert!(!events.is_empty());
    assert_eq!(events[0], (0, SyntaxEvent::HighlightStart(0)));
    assert_eq!(events[1], (0, SyntaxEvent::Source { start: 0, end: 2 }));
    assert_eq!(events[2], (2, SyntaxEvent::HighlightEnd));
}

#[test]
fn event_offsets_follow_the_spans() {
    let events = vec![
        Some(SyntaxEvent::HighlightStart(3)),
        Some(SyntaxEvent::Source { start: 0, end: 4 }),
        None,
        Some(SyntaxEvent::HighlightEnd),
        Some(SyntaxEvent::Source { start: 4, end: 9 }),
    ];
    let out = offsets_of_events(&events);
    assert_eq!(
        out,
        vec![
            (0, SyntaxEvent::HighlightStart(3)),
            (0, SyntaxEvent::Source { start: 0, end: 4 }),
            (4, SyntaxEvent::HighlightEnd),
            (4, SyntaxEvent::Source { start: 4, end: 9 }),
        ]
    );
}

#[test]
fn fold_query_does_not_fit_the_rust_grammar() {
    // The query names node kinds (such as `function_definition`) that the Rust grammar does not have.
    let buf = EditorBuffer::new("fn main() { if x { y } }");
    let mut h = SyntaxHighlighter::new(rust()).unwrap();
    let tree = h.parse(&buf).unwrap();
    assert!(fold_regions_from_tree(tree, &buf).is_none());
}

fn capture(start: usize, end: usize, kind: &str, children: Vec<(&str, Option<&str>)>) -> FoldCapture {
    FoldCapture {
        start_byte: start,
        end_byte: end,
        kind: kind.to_string(),
        children: children
            .into_iter()
            .map(|(k, t)| NodeChild { kind: k.to_string(), text: t.map(|s| s.to_string()) })
            .collect(),
    }
}

#[test]
fn fold_regions_sorted_labelled_and_without_overlaps() {
    let buf = EditorBuffer::new("0123456789abcdefghij");
    let captures = vec![
        capture(12, 18, "block", vec![]),
        capture(2, 10, "function_definition", vec![("def", None), ("identifier", Some("main"))]),
        capture(4, 8, "block", vec![]),
        capture(15, 16, "block", vec![]),
        capture(10, 14, "function_definition", vec![("identifier", None)]),
        capture(0, 2, "function_definition", vec![]),
    ];
    let regions = fold_regions_from_captures(&captures, &buf);
    let got: Vec<_> = regions.iter().map(|r| (r.range.clone(), r.label.clone())).collect();
    assert_eq!(
        got,
        vec![
            (0..2, "function".to_string()),
            (2..10, "main".to_string()),
            (10..14, "function".to_string()),
        ]
    );
}
