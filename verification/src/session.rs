//! An editor: a buffer with its undo history, driven one command at a time.
use vstd::prelude::*;
use crate::buffer::{BufferState, EditorBuffer, insert_ok, delete_ok, insert_state, delete_state};
use crate::history::{
    Delta, DeltaView, HistoryEntry, History, HistoryView, EntryView, push_spec, coalesces,
    backward_state, forward_consistent, forward_text, lemma_forward_single, lemma_forward_text,
    law_undo_restores_text, law_push_keeps_undo_consistent, undo_consistent,
};
use crate::rope::rope_slice_to_string;

verus! {

/// The entry that records typing `text` at `pos`.
pub open spec fn typing_entry(pos: usize, text: Seq<char>) -> EntryView {
    EntryView { deltas: seq![DeltaView::Insert { start: pos, text }], name: "typing"@ }
}

/// The entry that records deleting `start..end`, which held `text`.
pub open spec fn delete_entry(start: usize, end: usize, text: Seq<char>) -> EntryView {
    EntryView { deltas: seq![DeltaView::Delete { start, end, text }], name: "delete"@ }
}

/// Types `text` at `pos`: the insertion is applied and recorded as a "typing" entry.
pub fn type_text(buf: &mut EditorBuffer, history: &mut History, pos: usize, text: &str)
    requires
        insert_ok(old(buf)@, pos, text@.len()),
    ensures
        final(buf)@ == insert_state(old(buf)@, pos, text@),
        final(history)@ == push_spec(old(history)@, typing_entry(pos, text@)),
{
    let mut deltas = Vec::new();
    deltas.push(Delta::Insert { start: pos, text: text.to_owned() });
    let entry = HistoryEntry::new(deltas, "typing");
    proof {
        assert(entry@.deltas =~= typing_entry(pos, text@).deltas);
        lemma_forward_single(buf@, entry@.deltas[0]);
        assert(entry@.deltas =~= seq![entry@.deltas[0]]);
    }
    history.push_entry(entry, buf);
}

/// Deletes `start..end` (nothing when `start >= end`): the deletion is applied and recorded,
/// with the removed text, as a "delete" entry.
pub fn delete_text(buf: &mut EditorBuffer, history: &mut History, start: usize, end: usize)
    requires
        delete_ok(old(buf)@, start, end),
    ensures
        start >= end ==> final(buf)@ == old(buf)@ && final(history)@ == old(history)@,
        start < end ==> final(buf)@ == delete_state(old(buf)@, start, end),
        start < end ==> final(history)@ == push_spec(
            old(history)@,
            delete_entry(start, end, old(buf)@.text.subrange(start as int, end as int)),
        ),
{
    if start >= end {
        return;
    }
    let deleted = rope_slice_to_string(buf.rope(), start, end);
    let mut deltas = Vec::new();
    deltas.push(Delta::Delete { start, end, text: deleted });
    let entry = HistoryEntry::new(deltas, "delete");
    proof {
        assert(entry@.deltas =~= delete_entry(start, end, buf@.text.subrange(start as int, end as int)).deltas);
        lemma_forward_single(buf@, entry@.deltas[0]);
        assert(entry@.deltas =~= seq![entry@.deltas[0]]);
    }
    history.push_entry(entry, buf);
}

/// Typing then undoing gives back the text: when the "typing" entry is not merged into
/// the one before, the undo removes exactly the typed text.
pub proof fn law_type_then_undo(b: BufferState, h: HistoryView, pos: usize, t: Seq<char>)
    requires
        insert_ok(b, pos, t.len()),
        !coalesces(h, typing_entry(pos, t)),
    ensures
        backward_state(
            insert_state(b, pos, t),
            push_spec(h, typing_entry(pos, t)).undo.last().deltas,
        ).text == b.text,
{
    let ds = typing_entry(pos, t).deltas;
    let d = ds[0];
    assert(ds =~= seq![d]);
    lemma_forward_single(b, d);
    let e = Seq::<DeltaView>::empty();
    assert(ds.drop_last() =~= e);
    assert(forward_text(b.text, e) == b.text);
    assert(forward_consistent(b.text, e));
    assert(forward_consistent(b.text, ds));
    law_undo_restores_text(b, ds);
}

/// Deleting then undoing gives back the text: the "delete" entry records the removed text,
/// and undoing it puts that text back.
pub proof fn law_delete_then_undo(b: BufferState, h: HistoryView, start: usize, end: usize)
    requires
        delete_ok(b, start, end),
        start < end,
        !coalesces(h, delete_entry(start, end, b.text.subrange(start as int, end as int))),
    ensures
        backward_state(
            delete_state(b, start, end),
            push_spec(h, delete_entry(start, end, b.text.subrange(start as int, end as int))).undo.last().deltas,
        ).text == b.text,
{
    let ds = delete_entry(start, end, b.text.subrange(start as int, end as int)).deltas;
    let d = ds[0];
    assert(ds =~= seq![d]);
    lemma_forward_single(b, d);
    let e = Seq::<DeltaView>::empty();
    assert(ds.drop_last() =~= e);
    assert(forward_text(b.text, e) == b.text);
    assert(forward_consistent(b.text, e));
    assert(forward_consistent(b.text, ds));
    law_undo_restores_text(b, ds);
}

/// Typing keeps the history consistent with the buffer: when the undo stack describes how to
/// get back from the buffer's text, it still does after typing (see `undo_consistent`).
pub proof fn law_type_keeps_history_consistent(b: BufferState, h: HistoryView, pos: usize, t: Seq<char>)
    requires
        insert_ok(b, pos, t.len()),
        undo_consistent(b.text, h.undo),
    ensures
        undo_consistent(insert_state(b, pos, t).text, push_spec(h, typing_entry(pos, t)).undo),
{
    let ds = typing_entry(pos, t).deltas;
    let d = ds[0];
    assert(ds =~= seq![d]);
    lemma_forward_single(b, d);
    lemma_forward_text(b, ds);
    let e = Seq::<DeltaView>::empty();
    assert(ds.drop_last() =~= e);
    assert(forward_text(b.text, e) == b.text);
    assert(forward_consistent(b.text, e));
    assert(forward_consistent(b.text, ds));
    law_push_keeps_undo_consistent(b.text, h, typing_entry(pos, t));
}

/// Deleting keeps the history consistent with the buffer: when the undo stack describes how
/// to get back from the buffer's text, it still does after deleting (see `undo_consistent`).
pub proof fn law_delete_keeps_history_consistent(b: BufferState, h: HistoryView, start: usize, end: usize)
    requires
        delete_ok(b, start, end),
        start < end,
        undo_consistent(b.text, h.undo),
    ensures
        undo_consistent(
            delete_state(b, start, end).text,
            push_spec(h, delete_entry(start, end, b.text.subrange(start as int, end as int))).undo,
        ),
{
    let entry = delete_entry(start, end, b.text.subrange(start as int, end as int));
    let ds = entry.deltas;
    let d = ds[0];
    assert(ds =~= seq![d]);
    lemma_forward_single(b, d);
    lemma_forward_text(b, ds);
    let e = Seq::<DeltaView>::empty();
    assert(ds.drop_last() =~= e);
    assert(forward_text(b.text, e) == b.text);
    assert(forward_consistent(b.text, e));
    assert(forward_consistent(b.text, ds));
    law_push_keeps_undo_consistent(b.text, h, entry);
}

} // verus!
