//! Cursors and selections.
use vstd::prelude::*;
use std::ops::Range;

verus! {

/// A single cursor or selection in a buffer, as character indices.
/// Several of these make a multi-selection.
#[derive(Clone, Copy, Debug)]
pub struct Cursor {
    /// Character index of the cursor (or the anchor of a selection).
    pub head: usize,
    /// Character index of the other end of the selection; equal to `head` when nothing is selected.
    pub tail: usize,
}

impl Default for Cursor {
    fn default() -> (c: Self)
        ensures
            c.head == 0,
            c.tail == 0,
    {
        Cursor { head: 0, tail: 0 }
    }
}

impl Cursor {
    /// A cursor at `head` with no selection.
    pub fn new(head: usize) -> (c: Self)
        ensures
            c.head == head,
            c.tail == head,
    {
        Cursor { head, tail: head }
    }

    /// The selected range, from the smaller end to the larger one; `None` when nothing is selected.
    pub fn selection(&self) -> (r: Option<Range<usize>>)
        ensures
            self.head == self.tail ==> r is None,
            self.head < self.tail ==> r == Some((Range { start: self.head, end: self.tail })),
            self.tail < self.head ==> r == Some((Range { start: self.tail, end: self.head })),
    {
        if self.head == self.tail {
            None
        } else {
            let (start, end) = if self.head < self.tail {
                (self.head, self.tail)
            } else {
                (self.tail, self.head)
            };
            Some(start..end)
        }
    }

    /// Moves the cursor to `pos`, dropping any selection.
    pub fn move_to(&mut self, pos: usize)
        ensures
            final(self).head == pos,
            final(self).tail == pos,
    {
        self.head = pos;
        self.tail = pos;
    }
}

} // verus!
