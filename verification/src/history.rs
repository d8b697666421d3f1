//! Delta-based undo/redo with coalescing of consecutive typing.
use vstd::prelude::*;
use crate::buffer::{law_insert_then_delete, 
    BufferState, EditorBuffer, insert_ok, delete_ok, insert_state, delete_state, fits_after_insert,
};
use vstd::string::StrSliceExecFns;

verus! {

/// A single edit: an insertion, or a deletion together with the text it removes.
#[derive(Clone, Debug)]
pub enum Delta {
    Insert { start: usize, text: String },
    Delete { start: usize, end: usize, text: String },
}

/// A delta as mathematical values.
pub enum DeltaView {
    Insert { start: usize, text: Seq<char> },
    Delete { start: usize, end: usize, text: Seq<char> },
}

impl View for Delta {
    type V = DeltaView;

    open spec fn view(&self) -> DeltaView {
        match self {
            Delta::Insert { start, text } => DeltaView::Insert { start: *start, text: text@ },
            Delta::Delete { start, end, text } => DeltaView::Delete {
                start: *start,
                end: *end,
                text: text@,
            },
        }
    }
}

/// The views of a sequence of deltas.
pub open spec fn delta_views(ds: Seq<Delta>) -> Seq<DeltaView> {
    ds.map_values(|d: Delta| d@)
}

/// The buffer after applying `d`.
pub open spec fn apply_delta(s: BufferState, d: DeltaView) -> BufferState {
    match d {
        DeltaView::Insert { start, text } => insert_state(s, start, text),
        DeltaView::Delete { start, end, .. } => delete_state(s, start, end),
    }
}

/// Applying `d` to a buffer in state `s` neither panics nor overflows.
pub open spec fn delta_ok(s: BufferState, d: DeltaView) -> bool {
    match d {
        DeltaView::Insert { start, text } => insert_ok(s, start, text.len()),
        DeltaView::Delete { start, end, .. } => delete_ok(s, start, end),
    }
}

/// Reversing `d` does not overflow.
pub open spec fn reverse_ok(d: DeltaView) -> bool {
    match d {
        DeltaView::Insert { start, text } => start + text.len() <= usize::MAX,
        DeltaView::Delete { .. } => true,
    }
}

/// The delta that undoes `d`.
pub open spec fn reverse_delta(d: DeltaView) -> DeltaView {
    match d {
        DeltaView::Insert { start, text } => DeltaView::Delete {
            start,
            end: (start + text.len()) as usize,
            text,
        },
        DeltaView::Delete { start, text, .. } => DeltaView::Insert { start, text },
    }
}

/// The buffer after applying `ds` in order.
pub open spec fn forward_state(s: BufferState, ds: Seq<DeltaView>) -> BufferState
    decreases ds.len(),
{
    if ds.len() == 0 {
        s
    } else {
        apply_delta(forward_state(s, ds.drop_last()), ds.last())
    }
}

/// Applying `ds` in order from state `s` neither panics nor overflows.
pub open spec fn forward_ok(s: BufferState, ds: Seq<DeltaView>) -> bool
    decreases ds.len(),
{
    ds.len() == 0 || (forward_ok(s, ds.drop_last()) && delta_ok(
        forward_state(s, ds.drop_last()),
        ds.last(),
    ))
}

/// The buffer after applying the reverses of `ds`, last delta first.
pub open spec fn backward_state(s: BufferState, ds: Seq<DeltaView>) -> BufferState
    decreases ds.len(),
{
    if ds.len() == 0 {
        s
    } else {
        backward_state(apply_delta(s, reverse_delta(ds.last())), ds.drop_last())
    }
}

/// Applying the reverses of `ds`, last first, from state `s` neither panics nor overflows.
pub open spec fn backward_ok(s: BufferState, ds: Seq<DeltaView>) -> bool
    decreases ds.len(),
{
    ds.len() == 0 || {
        &&& reverse_ok(ds.last())
        &&& delta_ok(s, reverse_delta(ds.last()))
        &&& backward_ok(apply_delta(s, reverse_delta(ds.last())), ds.drop_last())
    }
}

impl Delta {
    /// Applies the delta to the buffer.
    pub fn apply(&self, buf: &mut EditorBuffer)
        requires
            delta_ok(old(buf)@, self@),
        ensures
            final(buf)@ == apply_delta(old(buf)@, self@),
    {
        match self {
            Delta::Insert { start, text } => buf.insert_text(*start, text.as_str()),
            Delta::Delete { start, end, .. } => buf.delete_range(*start, *end),
        }
    }

    /// The delta that undoes this one: an insertion becomes the deletion of the
    /// inserted characters, a deletion becomes the insertion of the removed text.
    pub fn reverse(&self) -> (r: Self)
        requires
            reverse_ok(self@),
        ensures
            r@ == reverse_delta(self@),
    {
        match self {
            Delta::Insert { start, text } => Delta::Delete {
                start: *start,
                end: *start + text.as_str().unicode_len(),
                text: text.clone(),
            },
            Delta::Delete { start, text, .. } => Delta::Insert { start: *start, text: text.clone() },
        }
    }
}

/// What a history entry holds, as mathematical values.
pub struct EntryView {
    pub deltas: Seq<DeltaView>,
    pub name: Seq<char>,
}

/// A group of deltas that is undone and redone as one (a keystroke, a paste, ...).
pub struct HistoryEntry {
    deltas: Vec<Delta>,
    /// Name of the operation.
    pub name: String,
}

impl View for HistoryEntry {
    type V = EntryView;

    closed spec fn view(&self) -> EntryView {
        EntryView { deltas: delta_views(self.deltas@), name: self.name@ }
    }
}

impl HistoryEntry {
    pub fn new(deltas: Vec<Delta>, name: &str) -> (e: Self)
        ensures
            e@ == (EntryView { deltas: delta_views(deltas@), name: name@ }),
    {
        HistoryEntry { deltas, name: name.to_owned() }
    }

    /// The name of the operation.
    pub fn name(&self) -> (n: &String)
        ensures
            n@ == self@.name,
    {
        &self.name
    }

    /// Applies the deltas in order.
    pub fn apply_forward(&self, buf: &mut EditorBuffer)
        requires
            forward_ok(old(buf)@, self@.deltas),
        ensures
            final(buf)@ == forward_state(old(buf)@, self@.deltas),
    {
        let ghost s0 = buf@;
        let ghost ds = delta_views(self.deltas@);
        let mut i: usize = 0;
        while i < self.deltas.len()
            invariant
                ds == delta_views(self.deltas@),
                forward_ok(s0, ds),
                0 <= i <= ds.len(),
                buf@ == forward_state(s0, ds.take(i as int)),
            decreases ds.len() - i,
        {
            proof {
                lemma_forward_ok_prefix(s0, ds, i as int + 1);
                assert(ds.take(i as int + 1).drop_last() =~= ds.take(i as int));
            }
            self.deltas[i].apply(buf);
            i = i + 1;
        }
        proof {
            assert(ds.take(ds.len() as int) =~= ds);
        }
    }

    /// Applies the reverses of the deltas, last first.
    pub fn apply_backward(&self, buf: &mut EditorBuffer)
        requires
            backward_ok(old(buf)@, self@.deltas),
        ensures
            final(buf)@ == backward_state(old(buf)@, self@.deltas),
    {
        let ghost ds = delta_views(self.deltas@);
        assert(ds.take(ds.len() as int) =~= ds);
        let mut i: usize = self.deltas.len();
        while i > 0
            invariant
                ds == delta_views(self.deltas@),
                0 <= i <= ds.len(),
                backward_ok(buf@, ds.take(i as int)),
                backward_state(buf@, ds.take(i as int)) == backward_state(old(buf)@, ds),
            decreases i,
        {
            proof {
                assert(ds.take(i as int).drop_last() =~= ds.take(i as int - 1));
            }
            let r = self.deltas[i - 1].reverse();
            r.apply(buf);
            i = i - 1;
        }
        proof {
            assert(ds.take(0) =~= Seq::<DeltaView>::empty());
        }
    }
}

/// A prefix of a sequence of deltas that can be applied can be applied too.
proof fn lemma_forward_ok_prefix(s: BufferState, ds: Seq<DeltaView>, n: int)
    requires
        forward_ok(s, ds),
        0 <= n <= ds.len(),
    ensures
        forward_ok(s, ds.take(n)),
        n > 0 ==> delta_ok(forward_state(s, ds.take(n - 1)), ds[n - 1]),
    decreases ds.len(),
{
    if n == ds.len() {
        assert(ds.take(n) =~= ds);
        if n > 0 {
            assert(ds.drop_last() =~= ds.take(n - 1));
        }
    } else {
        lemma_forward_ok_prefix(s, ds.drop_last(), n);
        assert(ds.drop_last().take(n) =~= ds.take(n));
        if n > 0 {
            assert(ds.drop_last().take(n - 1) =~= ds.take(n - 1));
        }
    }
}


/// What a history holds, as mathematical values.
pub struct HistoryView {
    pub undo: Seq<EntryView>,
    pub redo: Seq<EntryView>,
    pub max_entries: usize,
    pub coalescing: bool,
}

/// Undo/redo manager: a stack of entries to undo and a stack of entries to redo.
pub struct History {
    undo_stack: Vec<HistoryEntry>,
    redo_stack: Vec<HistoryEntry>,
    /// Maximum number of entries on the undo stack (0 = unlimited).
    max_entries: usize,
    /// When set, a "typing" entry pushed onto a "typing" entry is merged into it (see
    /// `set_coalescing`).
    coalescing: bool,
}

pub open spec fn entry_views(v: Seq<HistoryEntry>) -> Seq<EntryView> {
    v.map_values(|e: HistoryEntry| e@)
}

impl View for History {
    type V = HistoryView;

    closed spec fn view(&self) -> HistoryView {
        HistoryView {
            undo: entry_views(self.undo_stack@),
            redo: entry_views(self.redo_stack@),
            max_entries: self.max_entries,
            coalescing: self.coalescing,
        }
    }
}

/// Pushing `e` merges it into the top undo entry: coalescing is on, and both are "typing".
pub open spec fn coalesces(h: HistoryView, e: EntryView) -> bool {
    &&& h.coalescing
    &&& h.undo.len() > 0
    &&& h.undo.last().name == e.name
    &&& h.undo.last().name == "typing"@
}

/// The history after pushing `e`: either merged into the top entry, or pushed onto the
/// undo stack (dropping the oldest entry beyond the limit) with the redo stack cleared.
pub open spec fn push_spec(h: HistoryView, e: EntryView) -> HistoryView {
    if coalesces(h, e) {
        HistoryView {
            undo: h.undo.update(
                h.undo.len() - 1,
                EntryView { deltas: h.undo.last().deltas + e.deltas, name: h.undo.last().name },
            ),
            ..h
        }
    } else {
        let u = h.undo.push(e);
        HistoryView {
            undo: if h.max_entries > 0 && u.len() > h.max_entries {
                u.drop_first()
            } else {
                u
            },
            redo: Seq::empty(),
            ..h
        }
    }
}

/// The stacks after an undo: the top undo entry moves to the redo stack.
pub open spec fn undo_spec(h: HistoryView) -> HistoryView {
    HistoryView { undo: h.undo.drop_last(), redo: h.redo.push(h.undo.last()), ..h }
}

/// The stacks after a redo: the top redo entry moves to the undo stack.
pub open spec fn redo_spec(h: HistoryView) -> HistoryView {
    HistoryView { undo: h.undo.push(h.redo.last()), redo: h.redo.drop_last(), ..h }
}

/// Undoing is possible from buffer state `s`: there is nothing to undo, or the top entry
/// can be reversed without panic or overflow.
pub open spec fn can_undo(h: HistoryView, s: BufferState) -> bool {
    h.undo.len() > 0 ==> backward_ok(s, h.undo.last().deltas)
}

/// Redoing is possible from buffer state `s`: there is nothing to redo, or the top entry
/// can be applied without panic or overflow.
pub open spec fn can_redo(h: HistoryView, s: BufferState) -> bool {
    h.redo.len() > 0 ==> forward_ok(s, h.redo.last().deltas)
}

impl History {
    /// An empty history; `max_entries` bounds the undo stack (0 = unlimited); coalescing is on.
    pub fn new(max_entries: usize) -> (h: Self)
        ensures
            h@ == (HistoryView {
                undo: Seq::empty(),
                redo: Seq::empty(),
                max_entries,
                coalescing: true,
            }),
    {
        let h = History {
            undo_stack: Vec::new(),
            redo_stack: Vec::new(),
            max_entries,
            coalescing: true,
        };
        proof {
            assert(entry_views(h.undo_stack@) =~= Seq::<EntryView>::empty());
            assert(entry_views(h.redo_stack@) =~= Seq::<EntryView>::empty());
        }
        h
    }

    /// Records an entry on the stacks (see `push_spec`).
    fn record(&mut self, entry: HistoryEntry)
        ensures
            final(self)@ == push_spec(old(self)@, entry@),
    {
        let ghost e0 = entry@;
        let mut entry = entry;
        if self.coalescing {
            let n = self.undo_stack.len();
            if n > 0 {
                let typing = "typing".to_owned();
                if self.undo_stack[n - 1].name == entry.name && self.undo_stack[n - 1].name == typing {
                    let ghost old_undo = self.undo_stack@;
                    let mut last = self.undo_stack.pop().unwrap();
                    let ghost last_deltas = delta_views(last.deltas@);
                    let ghost raw_last = last.deltas@;
                    let ghost raw_entry = entry.deltas@;
                    last.deltas.append(&mut entry.deltas);
                    proof {
                        assert(last.deltas@ =~= raw_last + raw_entry);
                        assert(delta_views(last.deltas@) =~= last_deltas + e0.deltas);
                    }
                    self.undo_stack.push(last);
                    proof {
                        assert(entry_views(self.undo_stack@) =~= entry_views(old_undo).update(
                            n - 1,
                            EntryView { deltas: last_deltas + e0.deltas, name: old_undo[n - 1].name@ },
                        ));
                    }
                    return;
                }
            }
        }
        let ghost e = entry@;
        self.undo_stack.push(entry);
        self.redo_stack.clear();
        proof {
            assert(entry_views(self.undo_stack@) =~= entry_views(old(self).undo_stack@).push(e));
            assert(entry_views(self.redo_stack@) =~= Seq::<EntryView>::empty());
        }
        if self.max_entries > 0 && self.undo_stack.len() > self.max_entries {
            let ghost before = self.undo_stack@;
            self.undo_stack.remove(0);
            proof {
                assert(entry_views(self.undo_stack@) =~= entry_views(before).drop_first());
            }
        }
    }

    /// Undoes the top undo entry (its deltas reversed, last first) and moves it to the
    /// redo stack. Returns whether there was an entry to undo.
    pub fn undo(&mut self, buf: &mut EditorBuffer) -> (r: bool)
        requires
            can_undo(old(self)@, old(buf)@),
        ensures
            r == (old(self)@.undo.len() > 0),
            r ==> final(buf)@ == backward_state(old(buf)@, old(self)@.undo.last().deltas),
            r ==> final(self)@ == undo_spec(old(self)@),
            !r ==> final(buf)@ == old(buf)@ && final(self)@ == old(self)@,
    {
        if self.undo_stack.len() > 0 {
            let ghost old_undo = self.undo_stack@;
            let entry = self.undo_stack.pop().unwrap();
            entry.apply_backward(buf);
            self.redo_stack.push(entry);
            proof {
                assert(entry_views(self.undo_stack@) =~= entry_views(old_undo).drop_last());
                assert(entry_views(self.redo_stack@) =~= entry_views(old(self).redo_stack@).push(
                    entry_views(old_undo).last(),
                ));
            }
            true
        } else {
            false
        }
    }

    /// Redoes the top redo entry (its deltas in order) and moves it back to the undo
    /// stack. Returns whether there was an entry to redo.
    pub fn redo(&mut self, buf: &mut EditorBuffer) -> (r: bool)
        requires
            can_redo(old(self)@, old(buf)@),
        ensures
            r == (old(self)@.redo.len() > 0),
            r ==> final(buf)@ == forward_state(old(buf)@, old(self)@.redo.last().deltas),
            r ==> final(self)@ == redo_spec(old(self)@),
            !r ==> final(buf)@ == old(buf)@ && final(self)@ == old(self)@,
    {
        if self.redo_stack.len() > 0 {
            let ghost old_redo = self.redo_stack@;
            let entry = self.redo_stack.pop().unwrap();
            entry.apply_forward(buf);
            self.undo_stack.push(entry);
            proof {
                assert(entry_views(self.redo_stack@) =~= entry_views(old_redo).drop_last());
                assert(entry_views(self.undo_stack@) =~= entry_views(old(self).undo_stack@).push(
                    entry_views(old_redo).last(),
                ));
            }
            true
        } else {
            false
        }
    }

    /// Turns the merging of consecutive "typing" entries on or off.
    pub fn set_coalescing(&mut self, on: bool)
        ensures
            final(self)@ == (HistoryView { coalescing: on, ..old(self)@ }),
    {
        self.coalescing = on;
    }

    /// Empties both stacks.
    pub fn clear(&mut self)
        ensures
            final(self)@ == (HistoryView { undo: Seq::empty(), redo: Seq::empty(), ..old(self)@ }),
    {
        self.undo_stack.clear();
        self.redo_stack.clear();
        proof {
            assert(entry_views(self.undo_stack@) =~= Seq::<EntryView>::empty());
            assert(entry_views(self.redo_stack@) =~= Seq::<EntryView>::empty());
        }
    }
}


/// The text after applying `d` (the text part of `apply_delta`).
pub open spec fn apply_text(t: Seq<char>, d: DeltaView) -> Seq<char> {
    match d {
        DeltaView::Insert { start, text } => t.take(start as int) + text + t.skip(start as int),
        DeltaView::Delete { start, end, .. } => if start >= end {
            t
        } else {
            t.take(start as int) + t.skip(end as int)
        },
    }
}

/// `d` describes an edit of text `t`: an insertion within the text, or the deletion
/// of a range of the text that holds exactly the recorded text.
pub open spec fn consistent(t: Seq<char>, d: DeltaView) -> bool {
    match d {
        DeltaView::Insert { start, .. } => start <= t.len(),
        DeltaView::Delete { start, end, text } => start <= end <= t.len() && text == t.subrange(
            start as int,
            end as int,
        ),
    }
}

/// A deletion records as many characters as its range holds.
pub open spec fn delete_matches(d: DeltaView) -> bool {
    match d {
        DeltaView::Insert { .. } => true,
        DeltaView::Delete { start, end, text } => if start < end {
            end == start + text.len()
        } else {
            text.len() == 0
        },
    }
}

/// The text after applying `ds` in order.
pub open spec fn forward_text(t: Seq<char>, ds: Seq<DeltaView>) -> Seq<char>
    decreases ds.len(),
{
    if ds.len() == 0 {
        t
    } else {
        apply_text(forward_text(t, ds.drop_last()), ds.last())
    }
}

/// The text after applying the reverses of `ds`, last first.
pub open spec fn backward_text(t: Seq<char>, ds: Seq<DeltaView>) -> Seq<char>
    decreases ds.len(),
{
    if ds.len() == 0 {
        t
    } else {
        backward_text(apply_text(t, reverse_delta(ds.last())), ds.drop_last())
    }
}

/// Each delta of `ds`, applied in order from text `t`, is an edit of the text it meets
/// and can be reversed.
pub open spec fn forward_consistent(t: Seq<char>, ds: Seq<DeltaView>) -> bool
    decreases ds.len(),
{
    ds.len() == 0 || {
        &&& forward_consistent(t, ds.drop_last())
        &&& consistent(forward_text(t, ds.drop_last()), ds.last())
        &&& reverse_ok(ds.last())
    }
}

/// The reverses of `ds`, applied last first from text `t`, are edits of the text they
/// meet, and each deletion of `ds` records its range.
pub open spec fn backward_consistent(t: Seq<char>, ds: Seq<DeltaView>) -> bool
    decreases ds.len(),
{
    ds.len() == 0 || {
        &&& reverse_ok(ds.last())
        &&& delete_matches(ds.last())
        &&& consistent(t, reverse_delta(ds.last()))
        &&& backward_consistent(apply_text(t, reverse_delta(ds.last())), ds.drop_last())
    }
}

proof fn lemma_reverse_undoes(t: Seq<char>, d: DeltaView)
    requires
        consistent(t, d),
        reverse_ok(d),
    ensures
        apply_text(apply_text(t, d), reverse_delta(d)) == t,
        consistent(apply_text(t, d), reverse_delta(d)),
        reverse_ok(reverse_delta(d)),
        delete_matches(d),
{
    match d {
        DeltaView::Insert { start, text } => {
            let t1 = apply_text(t, d);
            assert(t1.subrange(start as int, start + text.len()) =~= text);
            assert(t1.take(start as int) + t1.skip(start + text.len()) =~= t);
        },
        DeltaView::Delete { start, end, text } => {
            if start < end {
                let t1 = apply_text(t, d);
                assert(t1.take(start as int) + text + t1.skip(start as int) =~= t);
            } else {
                assert(t.take(start as int) + text + t.skip(start as int) =~= t);
            }
        },
    }
}

proof fn lemma_reverse_redone(t: Seq<char>, d: DeltaView)
    requires
        consistent(t, reverse_delta(d)),
        reverse_ok(d),
        delete_matches(d),
    ensures
        apply_text(apply_text(t, reverse_delta(d)), d) == t,
{
    match d {
        DeltaView::Insert { start, text } => {
            let t1 = apply_text(t, reverse_delta(d));
            if text.len() == 0 {
                assert(t1.take(start as int) + text + t1.skip(start as int) =~= t);
            } else {
                assert(t1.take(start as int) + text + t1.skip(start as int) =~= t);
            }
        },
        DeltaView::Delete { start, end, text } => {
            let t1 = apply_text(t, reverse_delta(d));
            if start < end {
                assert(t1.take(start as int) + t1.skip(end as int) =~= t);
            } else {
                assert(t1 =~= t);
            }
        },
    }
}

pub proof fn lemma_forward_text(s: BufferState, ds: Seq<DeltaView>)
    ensures
        forward_state(s, ds).text == forward_text(s.text, ds),
    decreases ds.len(),
{
    if ds.len() > 0 {
        lemma_forward_text(s, ds.drop_last());
    }
}

pub proof fn lemma_backward_text(s: BufferState, ds: Seq<DeltaView>)
    ensures
        backward_state(s, ds).text == backward_text(s.text, ds),
    decreases ds.len(),
{
    if ds.len() > 0 {
        lemma_backward_text(apply_delta(s, reverse_delta(ds.last())), ds.drop_last());
    }
}

proof fn lemma_text_undo(t: Seq<char>, ds: Seq<DeltaView>)
    requires
        forward_consistent(t, ds),
    ensures
        backward_text(forward_text(t, ds), ds) == t,
        backward_consistent(forward_text(t, ds), ds),
    decreases ds.len(),
{
    if ds.len() > 0 {
        let prev = forward_text(t, ds.drop_last());
        lemma_reverse_undoes(prev, ds.last());
        lemma_text_undo(t, ds.drop_last());
    }
}

proof fn lemma_text_redo(t: Seq<char>, ds: Seq<DeltaView>)
    requires
        backward_consistent(t, ds),
    ensures
        forward_text(backward_text(t, ds), ds) == t,
    decreases ds.len(),
{
    if ds.len() > 0 {
        let t1 = apply_text(t, reverse_delta(ds.last()));
        lemma_text_redo(t1, ds.drop_last());
        lemma_reverse_redone(t, ds.last());
    }
}

/// Undo inverts an edit: applying a group of deltas that describe edits of the text they
/// meet, then applying their reverses last first, gives back the text one started with.
pub proof fn law_undo_restores_text(s: BufferState, ds: Seq<DeltaView>)
    requires
        forward_consistent(s.text, ds),
    ensures
        backward_state(forward_state(s, ds), ds).text == s.text,
{
    lemma_forward_text(s, ds);
    lemma_backward_text(forward_state(s, ds), ds);
    lemma_text_undo(s.text, ds);
}

/// An applied edit stays undoable and redoable: after applying such a group of deltas,
/// their reverses are again edits of the text they meet.
pub proof fn law_applied_is_reversible(s: BufferState, ds: Seq<DeltaView>)
    requires
        forward_consistent(s.text, ds),
    ensures
        backward_consistent(forward_state(s, ds).text, ds),
{
    lemma_forward_text(s, ds);
    lemma_text_undo(s.text, ds);
}

/// Redo inverts undo: reversing a group of deltas (last first) whose reverses are edits of
/// the text they meet, then applying the deltas in order, gives back the text one started with.
pub proof fn law_redo_restores_text(s: BufferState, ds: Seq<DeltaView>)
    requires
        backward_consistent(s.text, ds),
    ensures
        forward_state(backward_state(s, ds), ds).text == s.text,
{
    lemma_backward_text(s, ds);
    lemma_forward_text(backward_state(s, ds), ds);
    lemma_text_redo(s.text, ds);
}

/// The reverse of an insertion undoes it on the buffer: after applying a non-empty insertion,
/// its reverse can be applied (given room for the second version step) and restores the text
/// and every cursor.
pub proof fn law_insert_reverse_restores_buffer(s: BufferState, start: usize, text: Seq<char>)
    requires
        insert_ok(s, start, text.len()),
        text.len() > 0,
        s.version + 1 < u64::MAX,
    ensures
        reverse_ok(DeltaView::Insert { start, text }),
        delta_ok(
            apply_delta(s, DeltaView::Insert { start, text }),
            reverse_delta(DeltaView::Insert { start, text }),
        ),
        apply_delta(
            apply_delta(s, DeltaView::Insert { start, text }),
            reverse_delta(DeltaView::Insert { start, text }),
        ).text == s.text,
        apply_delta(
            apply_delta(s, DeltaView::Insert { start, text }),
            reverse_delta(DeltaView::Insert { start, text }),
        ).cursors == s.cursors,
{
    law_insert_then_delete(s, start, text);
}

/// Undo then redo leaves both stacks as they were.
pub proof fn law_undo_redo_stacks(h: HistoryView)
    requires
        h.undo.len() > 0,
    ensures
        redo_spec(undo_spec(h)) == h,
{
    assert(undo_spec(h).undo.push(h.undo.last()) =~= h.undo);
    assert(undo_spec(h).redo.drop_last() =~= h.redo);
}

/// Redo then undo leaves both stacks as they were.
pub proof fn law_redo_undo_stacks(h: HistoryView)
    requires
        h.redo.len() > 0,
    ensures
        undo_spec(redo_spec(h)) == h,
{
    assert(redo_spec(h).redo.push(h.redo.last()) =~= h.redo);
    assert(redo_spec(h).undo.drop_last() =~= h.undo);
}

/// A pushed entry is what the next undo undoes: when it is not merged, it is the top of the
/// undo stack and nothing is left to redo; when it is merged, the top entry ends with its deltas.
pub proof fn law_push_then_top(h: HistoryView, e: EntryView)
    ensures
        !coalesces(h, e) ==> push_spec(h, e).undo.last() == e && push_spec(h, e).redo.len() == 0,
        coalesces(h, e) ==> push_spec(h, e).undo.last().deltas == h.undo.last().deltas + e.deltas,
{
}

/// Whether `d` can be applied to the buffer (see `delta_ok`).
fn delta_possible(buf: &EditorBuffer, d: &Delta) -> (r: bool)
    ensures
        r == delta_ok(buf@, d@),
{
    match d {
        Delta::Insert { start, text } => buf.can_insert(*start, text.as_str().unicode_len()),
        Delta::Delete { start, end, .. } => buf.can_delete(*start, *end),
    }
}

/// Whether `d` can be reversed (see `reverse_ok`).
fn reverse_possible(d: &Delta) -> (r: bool)
    ensures
        r == reverse_ok(d@),
{
    match d {
        Delta::Insert { start, text } => text.as_str().unicode_len() <= usize::MAX - *start,
        Delta::Delete { .. } => true,
    }
}

impl History {
    /// Whether an undo on `buf` is possible now (see `can_undo`).
    pub fn undo_possible(&self, buf: &EditorBuffer) -> (r: bool)
        ensures
            r == can_undo(self@, buf@),
    {
        let n = self.undo_stack.len();
        if n == 0 {
            return true;
        }
        let entry = &self.undo_stack[n - 1];
        let ghost ds = delta_views(entry.deltas@);
        proof {
            assert(self@.undo.last().deltas == ds);
            assert(ds.take(ds.len() as int) =~= ds);
        }
        let mut sim = buf.duplicate();
        let mut i: usize = entry.deltas.len();
        while i > 0
            invariant
                ds == delta_views(entry.deltas@),
                self@.undo.len() > 0,
                self@.undo.last().deltas == ds,
                0 <= i <= ds.len(),
                backward_ok(buf@, ds) == backward_ok(sim@, ds.take(i as int)),
            decreases i,
        {
            proof {
                assert(ds.take(i as int).drop_last() =~= ds.take(i as int - 1));
            }
            let d = &entry.deltas[i - 1];
            proof {
                assert(ds.take(i as int).last() == ds[i as int - 1]);
            }
            if !reverse_possible(d) {
                proof {
                    assert(!reverse_ok(ds.take(i as int).last()));
                    assert(!backward_ok(sim@, ds.take(i as int)));
                }
                return false;
            }
            let r = d.reverse();
            if !delta_possible(&sim, &r) {
                proof {
                    assert(!delta_ok(sim@, reverse_delta(ds.take(i as int).last())));
                    assert(!backward_ok(sim@, ds.take(i as int)));
                }
                return false;
            }
            r.apply(&mut sim);
            i = i - 1;
        }
        true
    }

    /// Whether a redo on `buf` is possible now (see `can_redo`).
    pub fn redo_possible(&self, buf: &EditorBuffer) -> (r: bool)
        ensures
            r == can_redo(self@, buf@),
    {
        let n = self.redo_stack.len();
        if n == 0 {
            return true;
        }
        let entry = &self.redo_stack[n - 1];
        let ghost ds = delta_views(entry.deltas@);
        let ghost s0 = buf@;
        proof {
            assert(self@.redo.last().deltas == ds);
        }
        let mut sim = buf.duplicate();
        let mut i: usize = 0;
        while i < entry.deltas.len()
            invariant
                ds == delta_views(entry.deltas@),
                s0 == buf@,
                self@.redo.len() > 0,
                self@.redo.last().deltas == ds,
                0 <= i <= ds.len(),
                forward_ok(s0, ds.take(i as int)),
                sim@ == forward_state(s0, ds.take(i as int)),
            decreases ds.len() - i,
        {
            proof {
                assert(ds.take(i as int + 1).drop_last() =~= ds.take(i as int));
            }
            proof {
                assert(ds.take(i as int + 1).last() == ds[i as int]);
            }
            if !delta_possible(&sim, &entry.deltas[i]) {
                proof {
                    if forward_ok(s0, ds) {
                        lemma_forward_ok_prefix(s0, ds, i as int + 1);
                    }
                }
                return false;
            }
            entry.deltas[i].apply(&mut sim);
            i = i + 1;
        }
        proof {
            assert(ds.take(ds.len() as int) =~= ds);
        }
        true
    }
}

impl History {
    /// Pushes a new entry: its deltas are applied to the buffer, in order, and the entry is
    /// recorded on the stacks (see `push_spec`: with coalescing on, a "typing" entry after a
    /// "typing" entry is merged into it).
    pub fn push_entry(&mut self, entry: HistoryEntry, buf: &mut EditorBuffer)
        requires
            forward_ok(old(buf)@, entry@.deltas),
        ensures
            final(buf)@ == forward_state(old(buf)@, entry@.deltas),
            final(self)@ == push_spec(old(self)@, entry@),
    {
        entry.apply_forward(buf);
        self.record(entry);
    }
}

/// A single delta, applied, is the delta applied.
pub proof fn lemma_forward_single(s: BufferState, d: DeltaView)
    ensures
        forward_state(s, seq![d]) == apply_delta(s, d),
        forward_ok(s, seq![d]) == delta_ok(s, d),
        backward_state(s, seq![d]) == apply_delta(s, reverse_delta(d)),
        backward_ok(s, seq![d]) == (reverse_ok(d) && delta_ok(s, reverse_delta(d))),
{
    let e = Seq::<DeltaView>::empty();
    assert(seq![d].drop_last() =~= e);
    assert(forward_state(s, e) == s);
    assert(forward_ok(s, e));
    assert(backward_state(apply_delta(s, reverse_delta(d)), e) == apply_delta(s, reverse_delta(d)));
    assert(backward_ok(apply_delta(s, reverse_delta(d)), e));
}

/// The undo stack never grows past a nonzero limit: pushing onto a stack within the limit
/// leaves it within the limit.
pub proof fn law_push_respects_limit(h: HistoryView, e: EntryView)
    requires
        h.max_entries > 0,
        h.undo.len() <= h.max_entries,
    ensures
        push_spec(h, e).undo.len() <= h.max_entries,
{
}

/// The version never goes back: applying deltas, or their reverses, that can be applied
/// leaves the version at least where it was (each effective edit adds one).
pub proof fn law_version_never_decreases(s: BufferState, ds: Seq<DeltaView>)
    ensures
        forward_ok(s, ds) ==> forward_state(s, ds).version >= s.version,
        backward_ok(s, ds) ==> backward_state(s, ds).version >= s.version,
    decreases ds.len(),
{
    if ds.len() > 0 {
        law_version_never_decreases(s, ds.drop_last());
        law_version_never_decreases(apply_delta(s, reverse_delta(ds.last())), ds.drop_last());
    }
}

/// The undo stack describes how to get back to earlier texts: from text `t`, the reverses of
/// the top entry are edits of the text they meet, and the rest of the stack does the same
/// from the text that undoing the top entry gives.
pub open spec fn undo_consistent(t: Seq<char>, undo: Seq<EntryView>) -> bool
    decreases undo.len(),
{
    undo.len() == 0 || {
        &&& backward_consistent(t, undo.last().deltas)
        &&& undo_consistent(backward_text(t, undo.last().deltas), undo.drop_last())
    }
}

/// Reversing `a + b` is reversing `b`, then `a`.
proof fn lemma_backward_concat(t: Seq<char>, a: Seq<DeltaView>, b: Seq<DeltaView>)
    ensures
        backward_text(t, a + b) == backward_text(backward_text(t, b), a),
        backward_consistent(t, a + b) == (backward_consistent(t, b) && backward_consistent(
            backward_text(t, b),
            a,
        )),
    decreases b.len(),
{
    if b.len() == 0 {
        assert(a + b =~= a);
    } else {
        assert((a + b).last() == b.last());
        assert((a + b).drop_last() =~= a + b.drop_last());
        lemma_backward_concat(apply_text(t, reverse_delta(b.last())), a, b.drop_last());
    }
}

/// Dropping the oldest entry keeps the stack consistent.
proof fn lemma_undo_consistent_drop_first(t: Seq<char>, undo: Seq<EntryView>)
    requires
        undo_consistent(t, undo),
        undo.len() > 0,
    ensures
        undo_consistent(t, undo.drop_first()),
    decreases undo.len(),
{
    if undo.len() == 1 {
        assert(undo.drop_first() =~= Seq::<EntryView>::empty());
    } else {
        let rest = undo.drop_first();
        assert(rest.last() == undo.last());
        assert(rest.drop_last() =~= undo.drop_last().drop_first());
        lemma_undo_consistent_drop_first(backward_text(t, undo.last().deltas), undo.drop_last());
    }
}

/// Recording an edit keeps the history consistent: when the undo stack describes how to get
/// back from text `t`, and an entry whose deltas are edits of the text they meet is applied to
/// `t` and pushed (merged into the top entry or not), the new undo stack describes how to get
/// back from the new text, first to `t`.
pub proof fn law_push_keeps_undo_consistent(t: Seq<char>, h: HistoryView, e: EntryView)
    requires
        undo_consistent(t, h.undo),
        forward_consistent(t, e.deltas),
    ensures
        undo_consistent(forward_text(t, e.deltas), push_spec(h, e).undo),
        !coalesces(h, e) ==> backward_text(forward_text(t, e.deltas), push_spec(h, e).undo.last().deltas) == t,
{
    let t1 = forward_text(t, e.deltas);
    lemma_text_undo(t, e.deltas);
    if coalesces(h, e) {
        let last = h.undo.last();
        let merged = EntryView { deltas: last.deltas + e.deltas, name: last.name };
        let u = push_spec(h, e).undo;
        assert(u.last() == merged);
        assert(u.drop_last() =~= h.undo.drop_last());
        lemma_backward_concat(t1, last.deltas, e.deltas);
    } else {
        let u = h.undo.push(e);
        assert(u.last() == e);
        assert(u.drop_last() =~= h.undo);
        assert(undo_consistent(t1, u));
        if h.max_entries > 0 && u.len() > h.max_entries {
            lemma_undo_consistent_drop_first(t1, u);
            assert(u.drop_first().last() == e);
        }
    }
}

/// Undo keeps the history consistent: the rest of the undo stack describes how to get back
/// from the text that the undo gives.
pub proof fn law_undo_keeps_undo_consistent(t: Seq<char>, h: HistoryView)
    requires
        undo_consistent(t, h.undo),
        h.undo.len() > 0,
    ensures
        undo_consistent(backward_text(t, h.undo.last().deltas), undo_spec(h).undo),
{
}

/// The undo and redo stacks together hold at most `max_entries` entries.
pub open spec fn within_limit(h: HistoryView) -> bool {
    h.undo.len() + h.redo.len() <= h.max_entries
}

/// The history stays within a nonzero limit: when both stacks together hold at most
/// `max_entries` entries, they still do after a push, an undo, a redo or a clear.
pub proof fn law_history_within_limit(h: HistoryView, e: EntryView)
    requires
        h.max_entries > 0,
        within_limit(h),
    ensures
        within_limit(push_spec(h, e)),
        h.undo.len() > 0 ==> within_limit(undo_spec(h)),
        h.redo.len() > 0 ==> within_limit(redo_spec(h)),
        within_limit(HistoryView { undo: Seq::empty(), redo: Seq::empty(), ..h }),
{
}

/// Every cursor of the buffer lies within its text.
pub open spec fn cursors_within(s: BufferState) -> bool {
    forall|i: int|
        0 <= i < s.cursors.len() ==> #[trigger] s.cursors[i].head <= s.text.len() && s.cursors[i].tail
            <= s.text.len()
}

/// A delta that can be applied keeps the cursors within the text and adds at most one to
/// the version.
proof fn lemma_apply_keeps_cursors(s: BufferState, d: DeltaView)
    requires
        delta_ok(s, d),
        cursors_within(s),
    ensures
        cursors_within(apply_delta(s, d)),
        s.version <= apply_delta(s, d).version <= s.version + 1,
{
    let s1 = apply_delta(s, d);
    match d {
        DeltaView::Insert { start, text } => {
            assert forall|i: int| 0 <= i < s1.cursors.len() implies #[trigger] s1.cursors[i].head <= s1.text.len()
                && s1.cursors[i].tail <= s1.text.len() by {
                assert(s.cursors[i].head <= s.text.len() && s.cursors[i].tail <= s.text.len());
                assert(fits_after_insert(s.cursors[i].head, start, text.len()));
                assert(fits_after_insert(s.cursors[i].tail, start, text.len()));
            }
        },
        DeltaView::Delete { start, end, .. } => {
            if start < end {
                assert forall|i: int| 0 <= i < s1.cursors.len() implies #[trigger] s1.cursors[i].head
                    <= s1.text.len() && s1.cursors[i].tail <= s1.text.len() by {
                    assert(s.cursors[i].head <= s.text.len() && s.cursors[i].tail <= s.text.len());
                }
            }
        },
    }
}

/// Undoing a group of deltas that can be undone keeps the cursors within the text and adds
/// at most one to the version per delta.
proof fn lemma_backward_keeps_cursors(s: BufferState, ds: Seq<DeltaView>)
    requires
        backward_ok(s, ds),
        cursors_within(s),
        s.version + ds.len() < u64::MAX,
    ensures
        cursors_within(backward_state(s, ds)),
        backward_state(s, ds).version <= s.version + ds.len(),
    decreases ds.len(),
{
    if ds.len() > 0 {
        let s1 = apply_delta(s, reverse_delta(ds.last()));
        lemma_apply_keeps_cursors(s, reverse_delta(ds.last()));
        lemma_backward_keeps_cursors(s1, ds.drop_last());
    }
}

/// A group of deltas that can be applied to one buffer can be applied to another buffer
/// with the same text, its cursors within that text and room for the version to grow:
/// the texts stay equal step by step.
proof fn lemma_forward_ok_transfer(a: BufferState, b: BufferState, ds: Seq<DeltaView>)
    requires
        forward_ok(a, ds),
        a.text == b.text,
        cursors_within(b),
        b.version + ds.len() < u64::MAX,
    ensures
        forward_ok(b, ds),
        forward_state(b, ds).text == forward_state(a, ds).text,
        cursors_within(forward_state(b, ds)),
        forward_state(b, ds).version <= b.version + ds.len(),
    decreases ds.len(),
{
    if ds.len() > 0 {
        lemma_forward_ok_transfer(a, b, ds.drop_last());
        let sa = forward_state(a, ds.drop_last());
        let sb = forward_state(b, ds.drop_last());
        let d = ds.last();
        match d {
            DeltaView::Insert { start, text } => {
                assert forall|i: int| 0 <= i < sb.cursors.len() implies fits_after_insert(
                    #[trigger] sb.cursors[i].head,
                    start,
                    text.len(),
                ) && fits_after_insert(sb.cursors[i].tail, start, text.len()) by {
                    assert(sb.cursors[i].head <= sb.text.len() && sb.cursors[i].tail <= sb.text.len());
                }
            },
            DeltaView::Delete { .. } => {},
        }
        assert(delta_ok(sb, d));
        lemma_apply_keeps_cursors(sb, d);
    }
}

/// Redo is possible right after an undo: when the top undo entry's deltas could be applied
/// to a buffer `s0`, undoing them from a buffer `s` that holds the edited text (its cursors
/// within the text, the undo possible, and room for the version to grow by twice the number
/// of deltas) leaves a buffer on which the redo can be made, and that redo gives back the
/// edited text.
pub proof fn law_redo_possible_after_undo(s0: BufferState, h: HistoryView, s: BufferState)
    requires
        h.undo.len() > 0,
        forward_ok(s0, h.undo.last().deltas),
        forward_consistent(s0.text, h.undo.last().deltas),
        s.text == forward_state(s0, h.undo.last().deltas).text,
        cursors_within(s),
        s.version + 2 * h.undo.last().deltas.len() < u64::MAX,
        can_undo(h, s),
    ensures
        can_redo(undo_spec(h), backward_state(s, h.undo.last().deltas)),
        forward_state(backward_state(s, h.undo.last().deltas), h.undo.last().deltas).text == s.text,
{
    let ds = h.undo.last().deltas;
    let u = backward_state(s, ds);
    lemma_backward_keeps_cursors(s, ds);
    lemma_backward_text(s, ds);
    lemma_backward_text(forward_state(s0, ds), ds);
    law_undo_restores_text(s0, ds);
    assert(u.text == s0.text);
    lemma_forward_ok_transfer(s0, u, ds);
    assert(undo_spec(h).redo.last() == h.undo.last());
}

} // verus!
