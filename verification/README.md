# text_editor

The core of a text editor, written in Verus. The library's own functions in `src/` carry
contracts that Verus proves; the calls into `ropey`, `regex`, `tree-sitter`,
`tree-sitter-highlight` and `synoptic` (and a few std calls) go through small trusted
wrappers, marked `#[verifier::external_body]`, whose contracts Verus assumes and which
restate what those crates' sources and documentation say. The laws of the library (undo
inverts an edit, redo inverts undo, fold regions do not overlap, the cursor stays in the
text, ...) are proof functions.

- `src/textspec.rs` — UTF-8 byte offsets and line breaks, as mathematical definitions.
- `src/rope.rs` — the `ropey` rope behind trusted wrappers (the buffer's text store).
- `src/cursor.rs`, `src/buffer.rs` — cursors and the edit buffer with its version counter.
- `src/history.rs`, `src/session.rs` — deltas, undo/redo with coalescing, and recorded edits.
- `src/search.rs` — regex search over the buffer's text (`regex` behind trusted wrappers).
- `src/highlight.rs`, `src/fold.rs` — tree-sitter parsing, highlighting and fold regions.
- `src/handle.rs`, `src/keys.rs` — an editor instance for the C interface, and the key
  handling of the Android editor view.
- `src/editor.rs` — line highlighting with `synoptic` (behind trusted wrappers) and token colours.
- `src/render.rs` — the renderer's decisions on frames and resizes.
- `app/` — the C interface, the JNI bridge and the wgpu renderer.
