//! The editor behind the Android view: key events move a single cursor and edit the buffer
//! through the undo history.
use vstd::prelude::*;
use crate::buffer::{BufferState, EditorBuffer, insert_ok, delete_ok, insert_state, delete_state};
use crate::history::{History, HistoryView, push_spec, can_undo, can_redo, undo_spec, redo_spec,
    forward_state, backward_state};
use crate::session::{type_text, delete_text, typing_entry, delete_entry};
use crate::rope::{rope_get_char, rope_char_to_line, rope_line_to_char, rope_len_lines};
use crate::textspec::{breaks_before, line_count, line_start, lemma_line_start_le,
    lemma_line_start_monotone, lemma_line_start_bound};

verus! {

broadcast use crate::buffer::EditorBuffer::lemma_view_text;

/// Key codes of the Android key events that the editor handles.
pub const KEY_BACKSPACE: i32 = 67;
pub const KEY_ENTER: i32 = 66;
pub const KEY_LEFT: i32 = 21;
pub const KEY_RIGHT: i32 = 22;
pub const KEY_UP: i32 = 19;
pub const KEY_DOWN: i32 = 20;
pub const KEY_Z: i32 = 26;
pub const KEY_Y: i32 = 25;

/// The text the editor starts with.
pub const WELCOME_TEXT: &'static str = "Welcome to Mega Editor!\nType something...";

/// Number of entries the undo history of an editor keeps.
pub const HISTORY_LIMIT: usize = 100;

/// What an editor holds, as mathematical values.
pub struct EditorStateView {
    pub buffer: BufferState,
    pub history: HistoryView,
    pub cursor_pos: usize,
    pub scroll_line: usize,
    pub viewport_lines: usize,
}

/// An editor: a buffer, its history, the cursor, and the visible lines.
pub struct EditorState {
    buffer: EditorBuffer,
    history: History,
    cursor_pos: usize,
    /// First visible line.
    scroll_line: usize,
    viewport_lines: usize,
}

impl View for EditorState {
    type V = EditorStateView;

    closed spec fn view(&self) -> EditorStateView {
        EditorStateView {
            buffer: self.buffer@,
            history: self.history@,
            cursor_pos: self.cursor_pos,
            scroll_line: self.scroll_line,
            viewport_lines: self.viewport_lines,
        }
    }
}

/// Codes of the printable ASCII characters (space to tilde), which a key event types.
pub open spec fn is_printable(code: u32) -> bool {
    0x20 <= code <= 0x7e
}

/// The state after typing `t` at the cursor, which then moves past it.
pub open spec fn typed(s: EditorStateView, t: Seq<char>) -> EditorStateView {
    EditorStateView {
        buffer: insert_state(s.buffer, s.cursor_pos, t),
        history: push_spec(s.history, typing_entry(s.cursor_pos, t)),
        cursor_pos: (s.cursor_pos + 1) as usize,
        ..s
    }
}

/// The cursor after the up key: on a line after the first, it goes to the same column on the
/// previous line, or to the end of that line (where the current line starts) when it is
/// shorter.
pub open spec fn cursor_up(t: Seq<char>, cursor: usize) -> usize {
    let line = breaks_before(t, cursor as int);
    if line > 0 {
        let start = line_start(t, line as int);
        let col = cursor - start;
        let new_start = line_start(t, line - 1);
        let new_end = line_start(t, line as int);
        let span = new_end - new_start;
        (new_start + if col < span {
            col
        } else {
            span
        }) as usize
    } else {
        cursor
    }
}

/// The cursor after the down key: when there is a next line, it goes to the same column on it,
/// or to the end of that line (which ends where the line after it starts, or at the end of
/// the text) when the line is shorter.
pub open spec fn cursor_down(t: Seq<char>, cursor: usize) -> usize {
    let line = breaks_before(t, cursor as int);
    if line + 1 < line_count(t) {
        let start = line_start(t, line as int);
        let col = cursor - start;
        let new_start = line_start(t, (line + 1) as int);
        let new_end = if line + 2 < line_count(t) {
            line_start(t, (line + 2) as int)
        } else {
            t.len()
        };
        let span = new_end - new_start;
        (new_start + if col < span {
            col
        } else {
            span
        }) as usize
    } else {
        cursor
    }
}

/// The state after a key event.
pub open spec fn key_step(s: EditorStateView, key_code: i32, is_pressed: bool, is_ctrl: bool) -> EditorStateView {
    let t = s.buffer.text;
    let cursor = s.cursor_pos;
    if !is_pressed {
        s
    } else if key_code == KEY_BACKSPACE {
        if cursor > 0 && cursor - 1 < t.len() {
            let start = (cursor - 1) as usize;
            EditorStateView {
                buffer: delete_state(s.buffer, start, cursor),
                history: push_spec(
                    s.history,
                    delete_entry(start, cursor, t.subrange(start as int, cursor as int)),
                ),
                cursor_pos: start,
                ..s
            }
        } else {
            s
        }
    } else if key_code == KEY_ENTER {
        typed(s, seq!['\n'])
    } else if key_code == KEY_LEFT {
        EditorStateView { cursor_pos: if cursor > 0 { (cursor - 1) as usize } else { cursor }, ..s }
    } else if key_code == KEY_RIGHT {
        EditorStateView { cursor_pos: if cursor < t.len() { (cursor + 1) as usize } else { cursor }, ..s }
    } else if key_code == KEY_UP {
        EditorStateView { cursor_pos: cursor_up(t, cursor), ..s }
    } else if key_code == KEY_DOWN {
        EditorStateView { cursor_pos: cursor_down(t, cursor), ..s }
    } else if key_code == KEY_Z {
        if is_ctrl && s.history.undo.len() > 0 {
            EditorStateView {
                buffer: backward_state(s.buffer, s.history.undo.last().deltas),
                history: undo_spec(s.history),
                ..s
            }
        } else {
            s
        }
    } else if key_code == KEY_Y {
        if is_ctrl && s.history.redo.len() > 0 {
            EditorStateView {
                buffer: forward_state(s.buffer, s.history.redo.last().deltas),
                history: redo_spec(s.history),
                ..s
            }
        } else {
            s
        }
    } else if is_printable(key_code as u32) {
        typed(s, seq![((key_code as u32) as u8) as char])
    } else {
        s
    }
}

/// A key event can be handled without panic or overflow: edits at the cursor must be
/// possible, the cursor must lie in the text for the up and down keys, and undo and redo
/// must be possible.
pub open spec fn key_ok(s: EditorStateView, key_code: i32, is_pressed: bool, is_ctrl: bool) -> bool {
    let t = s.buffer.text;
    let cursor = s.cursor_pos;
    !is_pressed || {
        if key_code == KEY_BACKSPACE {
            cursor > 0 && cursor - 1 < t.len() ==> delete_ok(s.buffer, (cursor - 1) as usize, cursor)
        } else if key_code == KEY_ENTER {
            insert_ok(s.buffer, cursor, 1)
        } else if key_code == KEY_LEFT || key_code == KEY_RIGHT {
            true
        } else if key_code == KEY_UP || key_code == KEY_DOWN {
            cursor <= t.len()
        } else if key_code == KEY_Z {
            is_ctrl ==> can_undo(s.history, s.buffer)
        } else if key_code == KEY_Y {
            is_ctrl ==> can_redo(s.history, s.buffer)
        } else {
            is_printable(key_code as u32) ==> insert_ok(s.buffer, cursor, 1)
        }
    }
}

/// `char::to_string`: the one-character string.
#[verifier::external_body]
fn char_to_string(c: char) -> (s: String)
    ensures
        s@ == seq![c],
{
    c.to_string()
}

impl EditorState {
    /// A new editor holding the welcome text, with the cursor at the start, the first line
    /// visible, and `viewport_lines` visible lines.
    pub fn new(viewport_lines: usize) -> (e: Self)
        ensures
            e@.buffer.text == WELCOME_TEXT@,
            e@.buffer.version == 0,
            e@.history.undo.len() == 0,
            e@.history.redo.len() == 0,
            e@.history.max_entries == HISTORY_LIMIT,
            e@.history.coalescing,
            e@.cursor_pos == 0,
            e@.scroll_line == 0,
            e@.viewport_lines == viewport_lines,
    {
        EditorState {
            buffer: EditorBuffer::new(WELCOME_TEXT),
            history: History::new(HISTORY_LIMIT),
            cursor_pos: 0,
            scroll_line: 0,
            viewport_lines,
        }
    }

    /// The buffer.
    pub fn buffer(&self) -> (b: &EditorBuffer)
        ensures
            b@ == self@.buffer,
    {
        &self.buffer
    }

    /// The history.
    pub fn history(&self) -> (h: &History)
        ensures
            h@ == self@.history,
    {
        &self.history
    }

    /// The cursor position.
    pub fn cursor_pos(&self) -> (p: usize)
        ensures
            p == self@.cursor_pos,
    {
        self.cursor_pos
    }

    /// The first visible line.
    pub fn scroll_line(&self) -> (l: usize)
        ensures
            l == self@.scroll_line,
    {
        self.scroll_line
    }

    /// The number of visible lines.
    pub fn viewport_lines(&self) -> (n: usize)
        ensures
            n == self@.viewport_lines,
    {
        self.viewport_lines
    }

    /// Whether the key event can be handled (see `key_ok`).
    pub fn can_handle_key(&self, key_code: i32, is_pressed: bool, is_ctrl: bool) -> (r: bool)
        ensures
            r == key_ok(self@, key_code, is_pressed, is_ctrl),
    {
        if !is_pressed {
            return true;
        }
        let len = self.buffer.len_chars();
        let cursor = self.cursor_pos;
        if key_code == KEY_BACKSPACE {
            !(cursor > 0 && cursor - 1 < len) || self.buffer.can_delete(cursor - 1, cursor)
        } else if key_code == KEY_ENTER {
            self.buffer.can_insert(cursor, 1)
        } else if key_code == KEY_LEFT || key_code == KEY_RIGHT {
            true
        } else if key_code == KEY_UP || key_code == KEY_DOWN {
            cursor <= len
        } else if key_code == KEY_Z {
            !is_ctrl || self.history.undo_possible(&self.buffer)
        } else if key_code == KEY_Y {
            !is_ctrl || self.history.redo_possible(&self.buffer)
        } else {
            let code = #[verifier::truncate] (key_code as u32);
            !(0x20 <= code && code <= 0x7e) || self.buffer.can_insert(cursor, 1)
        }
    }

    /// Handles a key event (see `key_step`): backspace, enter, the arrow keys, ctrl+Z (undo),
    /// ctrl+Y (redo), and printable characters; released keys are ignored.
    pub fn handle_key(&mut self, key_code: i32, is_pressed: bool, is_ctrl: bool)
        requires
            key_ok(old(self)@, key_code, is_pressed, is_ctrl),
        ensures
            final(self)@ == key_step(old(self)@, key_code, is_pressed, is_ctrl),
    {
        if !is_pressed {
            return;
        }
        let ghost t = self.buffer@.text;
        if key_code == KEY_BACKSPACE {
            if self.cursor_pos > 0 {
                let start = self.cursor_pos - 1;
                if let Some(_ch) = rope_get_char(self.buffer.rope(), start) {
                    let end = self.cursor_pos;
                    delete_text(&mut self.buffer, &mut self.history, start, end);
                    self.cursor_pos = self.cursor_pos - 1;
                }
            }
        } else if key_code == KEY_ENTER {
            let pos = self.cursor_pos;
            proof {
                reveal_strlit("\n");
                assert("\n"@ =~= seq!['\n']);
            }
            type_text(&mut self.buffer, &mut self.history, pos, "\n");
            self.cursor_pos = self.cursor_pos + 1;
        } else if key_code == KEY_LEFT {
            if self.cursor_pos > 0 {
                self.cursor_pos = self.cursor_pos - 1;
            }
        } else if key_code == KEY_RIGHT {
            if self.cursor_pos < self.buffer.len_chars() {
                self.cursor_pos = self.cursor_pos + 1;
            }
        } else if key_code == KEY_UP {
            let rope = self.buffer.rope();
            let cursor = self.cursor_pos;
            let line = rope_char_to_line(rope, cursor);
            if line > 0 {
                proof {
                    lemma_line_start_le(t, cursor as int);
                    lemma_line_start_monotone(t, line - 1, line as int, 0);
                    lemma_line_start_bound(t, line as int);
                    lemma_breaks_le_count(t, cursor as int);
                }
                let start = rope_line_to_char(rope, line);
                let col = cursor - start;
                let new_start = rope_line_to_char(rope, line - 1);
                let new_end = rope_line_to_char(rope, line);
                let span = new_end - new_start;
                self.cursor_pos = new_start + if col < span {
                    col
                } else {
                    span
                };
            }
        } else if key_code == KEY_DOWN {
            let rope = self.buffer.rope();
            let cursor = self.cursor_pos;
            let line = rope_char_to_line(rope, cursor);
            let count = rope_len_lines(rope);
            if line < count - 1 {
                proof {
                    lemma_line_start_le(t, cursor as int);
                    lemma_line_start_monotone(t, line + 1, line + 2, 0);
                    lemma_line_start_bound(t, line + 1);
                }
                let start = rope_line_to_char(rope, line);
                let _end = rope_line_to_char(rope, line + 1);
                let col = cursor - start;
                let new_start = rope_line_to_char(rope, line + 1);
                let new_end = if line + 1 < count - 1 {
                    rope_line_to_char(rope, line + 2)
                } else {
                    self.buffer.len_chars()
                };
                let span = new_end - new_start;
                self.cursor_pos = new_start + if col < span {
                    col
                } else {
                    span
                };
            }
        } else if key_code == KEY_Z {
            if is_ctrl {
                self.history.undo(&mut self.buffer);
            }
        } else if key_code == KEY_Y {
            if is_ctrl {
                self.history.redo(&mut self.buffer);
            }
        } else {
            let code = #[verifier::truncate] (key_code as u32);
            if 0x20 <= code && code <= 0x7e {
                let c = (code as u8) as char;
                let text = char_to_string(c);
                let pos = self.cursor_pos;
                type_text(&mut self.buffer, &mut self.history, pos, text.as_str());
                self.cursor_pos = self.cursor_pos + 1;
            }
        }
    }
}

/// The line of a position is a line of the text.
proof fn lemma_breaks_le_count(t: Seq<char>, i: int)
    requires
        0 <= i <= t.len(),
    ensures
        breaks_before(t, i) < line_count(t),
{
    crate::textspec::lemma_breaks_before_monotone(t, i, t.len() as int);
}

/// The cursor stays in the text: from a cursor within the text, every key event but undo
/// and redo leaves the cursor within the (possibly edited) text.
pub proof fn law_cursor_stays_in_text(s: EditorStateView, key_code: i32, is_pressed: bool, is_ctrl: bool)
    requires
        s.cursor_pos <= s.buffer.text.len(),
        key_ok(s, key_code, is_pressed, is_ctrl),
        key_code != KEY_Z,
        key_code != KEY_Y,
    ensures
        key_step(s, key_code, is_pressed, is_ctrl).cursor_pos <= key_step(
            s,
            key_code,
            is_pressed,
            is_ctrl,
        ).buffer.text.len(),
{
    let t = s.buffer.text;
    let cursor = s.cursor_pos;
    if is_pressed && key_code == KEY_UP {
        let line = breaks_before(t, cursor as int);
        if line > 0 {
            lemma_line_start_le(t, cursor as int);
            lemma_line_start_monotone(t, line - 1, line as int, 0);
            lemma_line_start_bound(t, line as int);
        }
    } else if is_pressed && key_code == KEY_DOWN {
        let line = breaks_before(t, cursor as int);
        if line + 1 < line_count(t) {
            lemma_line_start_le(t, cursor as int);
            lemma_line_start_monotone(t, (line + 1) as int, (line + 2) as int, 0);
            lemma_line_start_bound(t, (line + 1) as int);
            lemma_line_start_bound(t, (line + 2) as int);
        }
    }
}

/// The up key moves the cursor to the previous line and keeps its column: from a cursor on
/// line `l > 0`, the cursor goes to the start of line `l - 1` plus the column on line `l`,
/// clamped to where line `l` starts; on the first line it stays. Nothing else changes.
pub proof fn law_up_key_keeps_column(s: EditorStateView, is_ctrl: bool)
    requires
        s.cursor_pos <= s.buffer.text.len(),
    ensures
        ({
            let t = s.buffer.text;
            let c = s.cursor_pos as int;
            let l = breaks_before(t, c) as int;
            let r = key_step(s, KEY_UP, true, is_ctrl);
            &&& r.buffer == s.buffer
            &&& r.history == s.history
            &&& l == 0 ==> r.cursor_pos == c
            &&& l > 0 ==> {
                &&& line_start(t, l - 1) <= r.cursor_pos <= line_start(t, l)
                &&& r.cursor_pos - line_start(t, l - 1) == if c - line_start(t, l) < line_start(t, l)
                    - line_start(t, l - 1) {
                    c - line_start(t, l)
                } else {
                    line_start(t, l) - line_start(t, l - 1)
                }
            }
        }),
{
    let t = s.buffer.text;
    let c = s.cursor_pos as int;
    let l = breaks_before(t, c) as int;
    lemma_line_start_le(t, c);
    if l > 0 {
        lemma_line_start_monotone(t, l - 1, l, 0);
        lemma_line_start_bound(t, l);
    }
}

/// The down key moves the cursor to the next line and keeps its column: from a cursor on a
/// line `l` that has a next line, the cursor goes to the start of line `l + 1` plus the column
/// on line `l`, clamped to the end of line `l + 1` (where line `l + 2` starts, or the end of
/// the text); on the last line it stays. Nothing else changes. The text's length must fit in
/// `usize`.
pub proof fn law_down_key_keeps_column(s: EditorStateView, is_ctrl: bool)
    requires
        s.cursor_pos <= s.buffer.text.len(),
        s.buffer.text.len() <= usize::MAX,
    ensures
        ({
            let t = s.buffer.text;
            let c = s.cursor_pos as int;
            let l = breaks_before(t, c) as int;
            let r = key_step(s, KEY_DOWN, true, is_ctrl);
            let next_end = if l + 2 < line_count(t) {
                line_start(t, l + 2) as int
            } else {
                t.len() as int
            };
            &&& r.buffer == s.buffer
            &&& r.history == s.history
            &&& l + 1 >= line_count(t) ==> r.cursor_pos == c
            &&& l + 1 < line_count(t) ==> {
                &&& line_start(t, l + 1) <= r.cursor_pos <= next_end
                &&& r.cursor_pos - line_start(t, l + 1) == if c - line_start(t, l) < next_end - line_start(
                    t,
                    l + 1,
                ) {
                    c - line_start(t, l)
                } else {
                    next_end - line_start(t, l + 1)
                }
            }
        }),
{
    let t = s.buffer.text;
    let c = s.cursor_pos as int;
    let l = breaks_before(t, c) as int;
    lemma_line_start_le(t, c);
    if l + 1 < line_count(t) {
        lemma_line_start_monotone(t, l + 1, l + 2, 0);
        lemma_line_start_bound(t, l + 1);
        lemma_line_start_bound(t, l + 2);
    }
}

} // verus!
