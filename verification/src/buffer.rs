//! In-memory text buffer with cursors, selections and a version counter.
use vstd::prelude::*;
use ropey::Rope;
use crate::cursor::Cursor;
use vstd::string::StrSliceExecFns;
use crate::rope::{rope_text, rope_new, rope_from_str, rope_len_chars, rope_to_string, rope_clone, rope_insert, rope_remove};

verus! {

/// What a buffer holds, as mathematical values.
pub struct BufferState {
    pub text: Seq<char>,
    pub cursors: Seq<Cursor>,
    pub version: u64,
}

/// Where a position goes when `n` characters are inserted at `idx`.
pub open spec fn shift_for_insert(p: usize, idx: usize, n: nat) -> usize {
    if p >= idx {
        (p + n) as usize
    } else {
        p
    }
}

/// Where a position goes when the characters in `start..end` are removed.
pub open spec fn shift_for_delete(p: usize, start: usize, end: usize) -> usize {
    if p >= start {
        if p < end {
            start
        } else {
            (p - (end - start)) as usize
        }
    } else {
        p
    }
}

pub open spec fn cursor_after_insert(c: Cursor, idx: usize, n: nat) -> Cursor {
    Cursor { head: shift_for_insert(c.head, idx, n), tail: shift_for_insert(c.tail, idx, n) }
}

pub open spec fn cursor_after_delete(c: Cursor, start: usize, end: usize) -> Cursor {
    Cursor { head: shift_for_delete(c.head, start, end), tail: shift_for_delete(c.tail, start, end) }
}

/// A position that moves on insertion still fits in `usize`.
pub open spec fn fits_after_insert(p: usize, idx: usize, n: nat) -> bool {
    p >= idx ==> p + n <= usize::MAX
}

/// Inserting `n` characters at `idx` is possible: `idx` is in the text (else the rope panics),
/// and the new length, the moved cursors and the version stay within their integer types.
pub open spec fn insert_ok(s: BufferState, idx: usize, n: nat) -> bool {
    &&& idx <= s.text.len()
    &&& s.text.len() + n <= usize::MAX
    &&& s.version < u64::MAX
    &&& forall|i: int|
        0 <= i < s.cursors.len() ==> fits_after_insert(#[trigger] s.cursors[i].head, idx, n)
            && fits_after_insert(s.cursors[i].tail, idx, n)
}

/// Deleting `start..end` is possible: nothing happens when `start >= end`; otherwise
/// `end` is in the text (else the rope panics) and the version can grow.
pub open spec fn delete_ok(s: BufferState, start: usize, end: usize) -> bool {
    start < end ==> end <= s.text.len() && s.version < u64::MAX
}

/// The buffer after inserting `t` at `idx`.
pub open spec fn insert_state(s: BufferState, idx: usize, t: Seq<char>) -> BufferState {
    BufferState {
        text: s.text.take(idx as int) + t + s.text.skip(idx as int),
        cursors: s.cursors.map_values(|c: Cursor| cursor_after_insert(c, idx, t.len())),
        version: (s.version + 1) as u64,
    }
}

/// The buffer after deleting `start..end` (unchanged when `start >= end`).
pub open spec fn delete_state(s: BufferState, start: usize, end: usize) -> BufferState {
    if start >= end {
        s
    } else {
        BufferState {
            text: s.text.take(start as int) + s.text.skip(end as int),
            cursors: s.cursors.map_values(|c: Cursor| cursor_after_delete(c, start, end)),
            version: (s.version + 1) as u64,
        }
    }
}

/// Insertion moves both ends of every cursor by the same rule: an end at or after the
/// insertion point moves right by the number of inserted characters, an end before it stays.
/// So a cursor without a selection (head == tail) still has none, and the text holds the
/// inserted characters at the insertion point with the rest of the text around them.
pub proof fn law_insert_moves_cursor_ends(s: BufferState, idx: usize, t: Seq<char>)
    requires
        insert_ok(s, idx, t.len()),
    ensures
        insert_state(s, idx, t).cursors.len() == s.cursors.len(),
        forall|i: int|
            0 <= i < s.cursors.len() ==> {
                let c = s.cursors[i];
                let c2 = #[trigger] insert_state(s, idx, t).cursors[i];
                &&& c2.head == if c.head >= idx { c.head + t.len() } else { c.head as int }
                &&& c2.tail == if c.tail >= idx { c.tail + t.len() } else { c.tail as int }
                &&& c.head == c.tail ==> c2.head == c2.tail
            },
        insert_state(s, idx, t).text.len() == s.text.len() + t.len(),
        forall|k: int| 0 <= k < idx ==> #[trigger] insert_state(s, idx, t).text[k] == s.text[k],
        forall|k: int| 0 <= k < t.len() ==> #[trigger] insert_state(s, idx, t).text[idx + k] == t[k],
        forall|k: int|
            idx <= k < s.text.len() ==> #[trigger] insert_state(s, idx, t).text[k + t.len()] == s.text[k],
        insert_state(s, idx, t).version == s.version + 1,
{
    let s2 = insert_state(s, idx, t);
    assert forall|i: int| 0 <= i < s.cursors.len() implies {
        let c = s.cursors[i];
        let c2 = #[trigger] s2.cursors[i];
        &&& c2.head == if c.head >= idx { c.head + t.len() } else { c.head as int }
        &&& c2.tail == if c.tail >= idx { c.tail + t.len() } else { c.tail as int }
        &&& c.head == c.tail ==> c2.head == c2.tail
    } by {
        assert(fits_after_insert(s.cursors[i].head, idx, t.len()));
        assert(fits_after_insert(s.cursors[i].tail, idx, t.len()));
    }
}

/// Deletion moves both ends of every cursor by the same rule: an end before the range stays,
/// an end inside it goes to its start, an end after it moves left by the range's length.
pub proof fn law_delete_moves_cursor_ends(s: BufferState, start: usize, end: usize)
    requires
        delete_ok(s, start, end),
        start < end,
    ensures
        delete_state(s, start, end).cursors.len() == s.cursors.len(),
        forall|i: int|
            0 <= i < s.cursors.len() ==> {
                let c = s.cursors[i];
                let c2 = #[trigger] delete_state(s, start, end).cursors[i];
                &&& c2.head == if c.head < start { c.head as int } else if c.head < end { start as int } else { c.head - (end - start) }
                &&& c2.tail == if c.tail < start { c.tail as int } else if c.tail < end { start as int } else { c.tail - (end - start) }
                &&& c.head == c.tail ==> c2.head == c2.tail
            },
        delete_state(s, start, end).text.len() == s.text.len() - (end - start),
        forall|k: int| 0 <= k < start ==> #[trigger] delete_state(s, start, end).text[k] == s.text[k],
        forall|k: int|
            end <= k < s.text.len() ==> #[trigger] delete_state(s, start, end).text[k - (end - start)] == s.text[k],
        delete_state(s, start, end).version == s.version + 1,
{
}

/// Deleting what was just inserted gives the buffer back: after inserting a non-empty `t` at
/// `idx`, deleting `idx..idx + |t|` is possible (given room for the second version step) and
/// restores the text and every cursor; the version has grown by two.
pub proof fn law_insert_then_delete(s: BufferState, idx: usize, t: Seq<char>)
    requires
        insert_ok(s, idx, t.len()),
        t.len() > 0,
        s.version + 1 < u64::MAX,
    ensures
        delete_ok(insert_state(s, idx, t), idx, (idx + t.len()) as usize),
        delete_state(insert_state(s, idx, t), idx, (idx + t.len()) as usize).text == s.text,
        delete_state(insert_state(s, idx, t), idx, (idx + t.len()) as usize).cursors == s.cursors,
        delete_state(insert_state(s, idx, t), idx, (idx + t.len()) as usize).version == s.version + 2,
{
    let s1 = insert_state(s, idx, t);
    let end = (idx + t.len()) as usize;
    let s2 = delete_state(s1, idx, end);
    assert(s1.text.take(idx as int) =~= s.text.take(idx as int));
    assert(s1.text.skip(end as int) =~= s.text.skip(idx as int));
    assert(s.text =~= s.text.take(idx as int) + s.text.skip(idx as int));
    assert(s2.text =~= s.text);
    assert forall|i: int| 0 <= i < s.cursors.len() implies #[trigger] s2.cursors[i] == s.cursors[i] by {
        assert(fits_after_insert(s.cursors[i].head, idx, t.len()));
        assert(fits_after_insert(s.cursors[i].tail, idx, t.len()));
    }
    assert(s2.cursors =~= s.cursors);
}

/// The core editor buffer: a rope, the cursors, and a version that every edit increments.
pub struct EditorBuffer {
    rope: Rope,
    cursors: Vec<Cursor>,
    /// Monotonically increasing version number; incremented on every mutation (read it with
    /// `version`).
    version: u64,
}

impl View for EditorBuffer {
    type V = BufferState;

    closed spec fn view(&self) -> BufferState {
        BufferState { text: rope_text(self.rope), cursors: self.cursors@, version: self.version }
    }
}

impl EditorBuffer {
    /// The rope that holds the text.
    pub closed spec fn rope_spec(&self) -> Rope {
        self.rope
    }

    /// The text of the view is the text of the rope.
    pub broadcast proof fn lemma_view_text(b: &EditorBuffer)
        ensures
            #[trigger] b@.text == rope_text(b.rope_spec()),
    {
    }
}

impl Default for EditorBuffer {
    fn default() -> (b: Self)
        ensures
            b@.text == Seq::<char>::empty(),
            b@.cursors == seq![(Cursor { head: 0, tail: 0 })],
            b@.version == 0,
    {
        let mut cursors = Vec::new();
        cursors.push(Cursor::default());
        EditorBuffer { rope: rope_new(), cursors, version: 0 }
    }
}

impl EditorBuffer {
    /// Creates a buffer holding `text`, with one cursor at the start.
    pub fn new(text: &str) -> (b: Self)
        ensures
            b@.text == text@,
            b@.cursors == seq![(Cursor { head: 0, tail: 0 })],
            b@.version == 0,
    {
        let mut cursors = Vec::new();
        cursors.push(Cursor::new(0));
        EditorBuffer { rope: rope_from_str(text), cursors, version: 0 }
    }

    /// The number of characters (Unicode scalar values).
    pub fn len_chars(&self) -> (n: usize)
        ensures
            n == self@.text.len(),
    {
        rope_len_chars(&self.rope)
    }

    /// The whole text as a string.
    pub fn text(&self) -> (s: String)
        ensures
            s@ == self@.text,
    {
        rope_to_string(&self.rope)
    }

    /// The underlying rope.
    pub fn rope(&self) -> (r: &Rope)
        ensures
            rope_text(*r) == self@.text,
            *r == self.rope_spec(),
    {
        &self.rope
    }

    /// A cheap copy of the rope.
    pub fn snapshot(&self) -> (r: Rope)
        ensures
            rope_text(r) == self@.text,
    {
        rope_clone(&self.rope)
    }

    /// The current version.
    pub fn version(&self) -> (v: u64)
        ensures
            v == self@.version,
    {
        self.version
    }

    /// Inserts `text` at character index `char_idx`; cursors at or after it move by the
    /// number of inserted characters, and the version is incremented.
    pub fn insert_text(&mut self, char_idx: usize, text: &str)
        requires
            insert_ok(old(self)@, char_idx, text@.len()),
        ensures
            final(self)@ == insert_state(old(self)@, char_idx, text@),
    {
        let ghost s0 = self@;
        rope_insert(&mut self.rope, char_idx, text);
        self.version = self.version + 1;
        let len = text.unicode_len();
        let ghost old_cursors = self.cursors@;
        assert(old_cursors == s0.cursors);
        assert forall|j: int| 0 <= j < old_cursors.len() implies fits_after_insert(
            #[trigger] old_cursors[j].head,
            char_idx,
            len as nat,
        ) && fits_after_insert(old_cursors[j].tail, char_idx, len as nat) by {
            assert(s0.cursors[j] == old_cursors[j]);
        }
        let mut i: usize = 0;
        while i < self.cursors.len()
            invariant
                rope_text(self.rope) == insert_state(s0, char_idx, text@).text,
                self.version == insert_state(s0, char_idx, text@).version,
                i <= self.cursors@.len(),
                self.cursors@.len() == old_cursors.len(),
                len == text@.len(),
                forall|j: int|
                    0 <= j < old_cursors.len() ==> fits_after_insert(
                        #[trigger] old_cursors[j].head,
                        char_idx,
                        len as nat,
                    ) && fits_after_insert(old_cursors[j].tail, char_idx, len as nat),
                forall|j: int|
                    0 <= j < i ==> #[trigger] self.cursors@[j] == cursor_after_insert(
                        old_cursors[j],
                        char_idx,
                        len as nat,
                    ),
                forall|j: int| i <= j < old_cursors.len() ==> #[trigger] self.cursors@[j] == old_cursors[j],
            decreases old_cursors.len() - i,
        {
            let mut head = self.cursors[i].head;
            let mut tail = self.cursors[i].tail;
            if head >= char_idx {
                head = head + len;
            }
            if tail >= char_idx {
                tail = tail + len;
            }
            self.cursors.set(i, Cursor { head, tail });
            i = i + 1;
        }
        proof {
            assert(self.cursors@ =~= old_cursors.map_values(
                |c: Cursor| cursor_after_insert(c, char_idx, text@.len()),
            ));
        }
    }

    /// Deletes the characters in `start..end` (nothing when `start >= end`); cursors inside
    /// the range go to `start`, cursors after it move back, and the version is incremented.
    pub fn delete_range(&mut self, start: usize, end: usize)
        requires
            delete_ok(old(self)@, start, end),
        ensures
            final(self)@ == delete_state(old(self)@, start, end),
    {
        if start >= end {
            return;
        }
        let len = end - start;
        let ghost s0 = self@;
        rope_remove(&mut self.rope, start, end);
        self.version = self.version + 1;
        let ghost old_cursors = self.cursors@;
        let mut i: usize = 0;
        while i < self.cursors.len()
            invariant
                rope_text(self.rope) == delete_state(s0, start, end).text,
                self.version == delete_state(s0, start, end).version,
                old_cursors == s0.cursors,
                start < end,
                len == end - start,
                i <= self.cursors@.len(),
                self.cursors@.len() == old_cursors.len(),
                forall|j: int|
                    0 <= j < i ==> #[trigger] self.cursors@[j] == cursor_after_delete(
                        old_cursors[j],
                        start,
                        end,
                    ),
                forall|j: int| i <= j < old_cursors.len() ==> #[trigger] self.cursors@[j] == old_cursors[j],
            decreases old_cursors.len() - i,
        {
            let mut head = self.cursors[i].head;
            let mut tail = self.cursors[i].tail;
            if head >= start {
                if head < end {
                    head = start;
                } else {
                    head = head - len;
                }
            }
            if tail >= start {
                if tail < end {
                    tail = start;
                } else {
                    tail = tail - len;
                }
            }
            self.cursors.set(i, Cursor { head, tail });
            i = i + 1;
        }
        proof {
            assert(self.cursors@ =~= old_cursors.map_values(
                |c: Cursor| cursor_after_delete(c, start, end),
            ));
        }
    }

    /// The current cursors.
    pub fn cursors(&self) -> (cs: &[Cursor])
        ensures
            cs@ == self@.cursors,
    {
        self.cursors.as_slice()
    }

    /// Mutable access to the cursors; the text and the version stay as they are.
    pub fn cursors_mut(&mut self) -> (cs: &mut Vec<Cursor>)
        ensures
            cs@ == old(self)@.cursors,
            final(self)@ == (BufferState { cursors: final(cs)@, ..old(self)@ }),
    {
        &mut self.cursors
    }

    /// Replaces all cursors by one at `pos`.
    pub fn set_cursor(&mut self, pos: usize)
        ensures
            final(self)@ == (BufferState { cursors: seq![Cursor { head: pos, tail: pos }], ..old(self)@ }),
    {
        self.cursors.clear();
        self.cursors.push(Cursor::new(pos));
    }

    /// Adds a cursor at `pos`, after the others.
    pub fn add_cursor(&mut self, pos: usize)
        ensures
            final(self)@ == (BufferState {
                cursors: old(self)@.cursors.push(Cursor { head: pos, tail: pos }),
                ..old(self)@
            }),
    {
        self.cursors.push(Cursor::new(pos));
    }

    /// Removes the cursor at `index`; nothing happens when there is none.
    pub fn remove_cursor(&mut self, index: usize)
        ensures
            index < old(self)@.cursors.len() ==> final(self)@ == (BufferState {
                cursors: old(self)@.cursors.remove(index as int),
                ..old(self)@
            }),
            index >= old(self)@.cursors.len() ==> final(self)@ == old(self)@,
    {
        if index < self.cursors.len() {
            self.cursors.remove(index);
        }
    }

    /// Replaces all cursors by one at position 0.
    pub fn clear_cursors(&mut self)
        ensures
            final(self)@ == (BufferState { cursors: seq![Cursor { head: 0, tail: 0 }], ..old(self)@ }),
    {
        self.cursors.clear();
        self.cursors.push(Cursor::new(0));
    }
}

impl EditorBuffer {
    /// An independent buffer in the same state (the rope is shared until either changes).
    pub(crate) fn duplicate(&self) -> (b: EditorBuffer)
        ensures
            b@ == self@,
    {
        let mut cursors: Vec<Cursor> = Vec::new();
        let mut i: usize = 0;
        while i < self.cursors.len()
            invariant
                i <= self.cursors@.len(),
                cursors@ == self.cursors@.take(i as int),
            decreases self.cursors@.len() - i,
        {
            cursors.push(self.cursors[i]);
            proof {
                assert(self.cursors@.take(i as int + 1) =~= self.cursors@.take(i as int).push(self.cursors@[i as int]));
            }
            i = i + 1;
        }
        proof {
            assert(self.cursors@.take(self.cursors@.len() as int) =~= self.cursors@);
        }
        EditorBuffer { rope: rope_clone(&self.rope), cursors, version: self.version }
    }

    /// Whether inserting `n` characters at `idx` is possible (see `insert_ok`).
    pub fn can_insert(&self, idx: usize, n: usize) -> (r: bool)
        ensures
            r == insert_ok(self@, idx, n as nat),
    {
        let len = rope_len_chars(&self.rope);
        if idx > len || n > usize::MAX - len || self.version == u64::MAX {
            return false;
        }
        let mut i: usize = 0;
        while i < self.cursors.len()
            invariant
                i <= self.cursors@.len(),
                idx <= self@.text.len(),
                self@.text.len() + n <= usize::MAX,
                self@.version < u64::MAX,
                forall|j: int|
                    0 <= j < i ==> fits_after_insert(#[trigger] self.cursors@[j].head, idx, n as nat)
                        && fits_after_insert(self.cursors@[j].tail, idx, n as nat),
            decreases self.cursors@.len() - i,
        {
            let c = self.cursors[i];
            if (c.head >= idx && c.head > usize::MAX - n) || (c.tail >= idx && c.tail > usize::MAX - n) {
                proof {
                    assert(!fits_after_insert(self@.cursors[i as int].head, idx, n as nat)
                        || !fits_after_insert(self@.cursors[i as int].tail, idx, n as nat));
                }
                return false;
            }
            proof {
                assert(fits_after_insert(self.cursors@[i as int].head, idx, n as nat));
                assert(fits_after_insert(self.cursors@[i as int].tail, idx, n as nat));
                assert forall|j: int| 0 <= j < i + 1 implies fits_after_insert(
                    #[trigger] self.cursors@[j].head,
                    idx,
                    n as nat,
                ) && fits_after_insert(self.cursors@[j].tail, idx, n as nat) by {
                    if j < i {
                    } else {
                        assert(j == i);
                    }
                }
            }
            i = i + 1;
        }
        true
    }

    /// Whether deleting `start..end` is possible (see `delete_ok`).
    pub fn can_delete(&self, start: usize, end: usize) -> (r: bool)
        ensures
            r == delete_ok(self@, start, end),
    {
        start >= end || (end <= rope_len_chars(&self.rope) && self.version < u64::MAX)
    }
}

} // verus!
