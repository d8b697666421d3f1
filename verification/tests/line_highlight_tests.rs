use text_editor::editor::{Highlighter, DEFAULT_TOKEN_COLOR, TAB_WIDTH};

fn joined(tokens: &[(u32, String)]) -> String {
    tokens.iter().map(|(_, t)| t.as_str()).collect()
}

#[test]
fn plain_line_keeps_its_text() {
    let h = Highlighter::new();
    let tokens = h.highlight_line("hello world");
    assert_eq!(joined(&tokens), "hello world");
    assert!(tokens.iter().all(|(c, _)| *c == DEFAULT_TOKEN_COLOR));
}

#[test]
fn rust_line_is_split_into_tokens() {
    let mut h = Highlighter::new();
    h.set_language("rs");
    let tokens = h.highlight_line("fn main() { let x = \"hi\"; } // done");
    assert_eq!(joined(&tokens), "fn main() { let x = \"hi\"; } // done");
    assert!(tokens.len() > 1);
    assert!(tokens.iter().all(|(c, _)| *c == 0xFFFFFF));
}

#[test]
fn tabs_are_expanded() {
    let mut h = Highlighter::new();
    h.set_language("py");
    let tokens = h.highlight_line("\tx = 1");
    let expected = format!("{}x = 1", " ".repeat(TAB_WIDTH));
    assert_eq!(joined(&tokens), expected);
}

#[test]
fn unknown_language_falls_back_to_plain() {
    let mut h = Highlighter::new();
    h.set_language("no-such-language");
    let tokens = h.highlight_line("fn main() {}");
    assert_eq!(tokens.len(), 1);
    assert_eq!(tokens[0], (DEFAULT_TOKEN_COLOR, "fn main() {}".to_string()));
}

#[test]
fn empty_line_has_no_tokens() {
    let h = Highlighter::new();
    assert!(h.highlight_line("").is_empty());
}
