//! An editor instance as the C interface hands it out: a buffer, its history and its
//! syntax highlighter.
use vstd::prelude::*;
use crate::buffer::{BufferState, EditorBuffer, insert_ok, delete_ok, insert_state, delete_state};
use crate::cursor::Cursor;
use vstd::utf8::encode_utf8;
use tree_sitter::{Language, Tree};
use crate::fold::{FoldRegion, fold_regions_from_tree, fold_outcome, fold_query_captures, opt_region_views, FOLD_QUERY};
use crate::highlight::{HighlighterView, SyntaxHighlighter, parse_tree};
use crate::history::{History, HistoryView, push_spec, can_undo, can_redo, undo_spec, redo_spec,
    forward_state, backward_state};
use crate::session::{type_text, delete_text, typing_entry, delete_entry};

verus! {

/// Number of entries the undo history of an editor instance keeps.
pub const HANDLE_HISTORY_LIMIT: usize = 100;

/// What an editor instance holds that the contracts speak of.
pub struct HandleView {
    pub buffer: BufferState,
    pub history: HistoryView,
    pub highlighter: HighlighterView,
}

/// An editor instance.
pub struct EditorHandle {
    buffer: EditorBuffer,
    history: History,
    highlighter: SyntaxHighlighter,
}

impl View for EditorHandle {
    type V = HandleView;

    closed spec fn view(&self) -> HandleView {
        HandleView { buffer: self.buffer@, history: self.history@, highlighter: self.highlighter@ }
    }
}

impl EditorHandle {
    /// The highlighter's current syntax tree, as a value.
    pub closed spec fn tree_spec(&self) -> Option<Tree> {
        self.highlighter.tree_spec()
    }

    /// The grammar the highlighter parses with, if any.
    pub closed spec fn language_spec(&self) -> Option<Language> {
        self.highlighter.language_spec()
    }

    /// The tree that bringing the highlighter up to date gives: the old one when it is of the
    /// buffer's version, else the buffer's UTF-8 text parsed with the grammar (none without one).
    pub open spec fn refreshed_tree(&self) -> Option<Tree> {
        if self@.highlighter.has_tree && self@.highlighter.last_version == self@.buffer.version {
            self.tree_spec()
        } else {
            match self.language_spec() {
                Some(l) => Some(parse_tree(l, encode_utf8(self@.buffer.text))),
                None => None,
            }
        }
    }

    /// A new instance holding `initial_text`, with an empty history of `HANDLE_HISTORY_LIMIT`
    /// entries and a highlighter without a grammar.
    pub fn create(initial_text: &str) -> (h: Self)
        ensures
            h@.buffer.text == initial_text@,
            h@.buffer.cursors == seq![(Cursor { head: 0, tail: 0 })],
            h@.buffer.version == 0,
            h@.history == (HistoryView {
                undo: Seq::empty(),
                redo: Seq::empty(),
                max_entries: HANDLE_HISTORY_LIMIT,
                coalescing: true,
            }),
            h@.highlighter == (HighlighterView {
                has_tree: false,
                last_version: 0,
                has_config: false,
                has_language: false,
            }),
    {
        EditorHandle {
            buffer: EditorBuffer::new(initial_text),
            history: History::new(HANDLE_HISTORY_LIMIT),
            highlighter: SyntaxHighlighter::empty(),
        }
    }

    /// The buffer.
    pub fn buffer(&self) -> (b: &EditorBuffer)
        ensures
            b@ == self@.buffer,
    {
        &self.buffer
    }

    /// The history.
    pub fn history(&self) -> (h: &History)
        ensures
            h@ == self@.history,
    {
        &self.history
    }

    /// Inserts `text` at `pos`, recorded as typing (see `type_text`).
    pub fn insert_text(&mut self, pos: usize, text: &str)
        requires
            insert_ok(old(self)@.buffer, pos, text@.len()),
        ensures
            final(self)@ == (HandleView {
                buffer: insert_state(old(self)@.buffer, pos, text@),
                history: push_spec(old(self)@.history, typing_entry(pos, text@)),
                ..old(self)@
            }),
    {
        type_text(&mut self.buffer, &mut self.history, pos, text);
    }

    /// Deletes `start..end`, recorded with the removed text (see `delete_text`).
    pub fn delete_range(&mut self, start: usize, end: usize)
        requires
            delete_ok(old(self)@.buffer, start, end),
        ensures
            start >= end ==> final(self)@ == old(self)@,
            start < end ==> final(self)@ == (HandleView {
                buffer: delete_state(old(self)@.buffer, start, end),
                history: push_spec(
                    old(self)@.history,
                    delete_entry(start, end, old(self)@.buffer.text.subrange(start as int, end as int)),
                ),
                ..old(self)@
            }),
    {
        delete_text(&mut self.buffer, &mut self.history, start, end);
    }

    /// Undoes the last entry; returns whether there was one.
    pub fn undo(&mut self) -> (r: bool)
        requires
            can_undo(old(self)@.history, old(self)@.buffer),
        ensures
            r == (old(self)@.history.undo.len() > 0),
            r ==> final(self)@ == (HandleView {
                buffer: backward_state(old(self)@.buffer, old(self)@.history.undo.last().deltas),
                history: undo_spec(old(self)@.history),
                ..old(self)@
            }),
            !r ==> final(self)@ == old(self)@,
    {
        self.history.undo(&mut self.buffer)
    }

    /// Redoes the last undone entry; returns whether there was one.
    pub fn redo(&mut self) -> (r: bool)
        requires
            can_redo(old(self)@.history, old(self)@.buffer),
        ensures
            r == (old(self)@.history.redo.len() > 0),
            r ==> final(self)@ == (HandleView {
                buffer: forward_state(old(self)@.buffer, old(self)@.history.redo.last().deltas),
                history: redo_spec(old(self)@.history),
                ..old(self)@
            }),
            !r ==> final(self)@ == old(self)@,
    {
        self.history.redo(&mut self.buffer)
    }

    /// The whole text.
    pub fn text(&self) -> (s: String)
        ensures
            s@ == self@.buffer.text,
    {
        self.buffer.text()
    }

    /// The buffer's version.
    pub fn version(&self) -> (v: u64)
        ensures
            v == self@.buffer.version,
    {
        self.buffer.version()
    }

    /// The head of the first cursor, or 0 when there is none.
    pub fn cursor(&self) -> (p: usize)
        ensures
            self@.buffer.cursors.len() > 0 ==> p == self@.buffer.cursors[0].head,
            self@.buffer.cursors.len() == 0 ==> p == 0,
    {
        let cs = self.buffer.cursors();
        if cs.len() > 0 {
            cs[0].head
        } else {
            0
        }
    }

    /// Replaces the cursors by one at `pos`.
    pub fn set_cursor(&mut self, pos: usize)
        ensures
            final(self)@ == (HandleView {
                buffer: BufferState { cursors: seq![(Cursor { head: pos, tail: pos })], ..old(self)@.buffer },
                ..old(self)@
            }),
    {
        self.buffer.set_cursor(pos);
    }

    /// The number of characters.
    pub fn len_chars(&self) -> (n: usize)
        ensures
            n == self@.buffer.text.len(),
    {
        self.buffer.len_chars()
    }

    /// Brings the syntax tree up to date with the buffer; returns whether there is a tree.
    pub fn highlight(&mut self) -> (r: bool)
        ensures
            r == final(self)@.highlighter.has_tree,
            final(self)@.buffer == old(self)@.buffer,
            final(self)@.history == old(self)@.history,
            old(self)@.highlighter.has_tree && old(self)@.highlighter.last_version == old(self)@.buffer.version
                ==> final(self)@ == old(self)@,
            final(self)@.highlighter.has_tree ==> final(self)@.highlighter.last_version == old(self)@.buffer.version,
            final(self).tree_spec() == old(self).refreshed_tree(),
            final(self).language_spec() == old(self).language_spec(),
            final(self)@.highlighter.has_config == old(self)@.highlighter.has_config,
            final(self)@.highlighter.has_language == old(self)@.highlighter.has_language,
    {
        self.highlighter.ensure_parsed(&self.buffer).is_some()
    }

    /// The fold regions of the up-to-date syntax tree (see `fold_regions_from_tree`); `None`
    /// when there is no tree or the fold query cannot be used.
    pub fn fold_regions(&mut self) -> (r: Option<Vec<FoldRegion>>)
        ensures
            final(self)@.buffer == old(self)@.buffer,
            final(self)@.history == old(self)@.history,
            old(self)@.highlighter.has_tree && old(self)@.highlighter.last_version == old(self)@.buffer.version
                ==> final(self)@ == old(self)@,
            final(self)@.highlighter.has_tree ==> final(self)@.highlighter.last_version == old(self)@.buffer.version,
            final(self).tree_spec() == old(self).refreshed_tree(),
            final(self).language_spec() == old(self).language_spec(),
            final(self)@.highlighter.has_config == old(self)@.highlighter.has_config,
            final(self)@.highlighter.has_language == old(self)@.highlighter.has_language,
            !final(self)@.highlighter.has_tree ==> r is None,
            r is Some ==> final(self)@.highlighter.has_tree,
            final(self).tree_spec() matches Some(t) ==> opt_region_views(r) == fold_outcome(
                old(self)@.buffer.text,
                fold_query_captures(t, encode_utf8(old(self)@.buffer.text), FOLD_QUERY@),
            ),
    {
        match self.highlighter.ensure_parsed(&self.buffer) {
            Some(tree) => {
                let r = fold_regions_from_tree(tree, &self.buffer);
                assert(self.buffer@ == old(self)@.buffer);
                r
            },
            None => None,
        }
    }
}

} // verus!
