//! The rope of the `ropey` crate, as the text store of a buffer.
//!
//! Everything here is trusted: each function is a thin call into `ropey`,
//! and its contract restates what the crate documents for that call.
use vstd::prelude::*;
use ropey::Rope;
use crate::textspec::{byte_len, byte_offset, char_of_byte, breaks_before, line_count, line_start};

verus! {

/// The rope type of `ropey`, carried through the library as an opaque value.
#[verifier::external_type_specification]
#[verifier::external_body]
pub struct ExRope(Rope);

/// The characters that a rope holds.
pub uninterp spec fn rope_text(r: Rope) -> Seq<char>;

/// `Rope::from_str`: the new rope holds exactly `text`.
#[verifier::external_body]
pub(crate) fn rope_from_str(text: &str) -> (r: Rope)
    ensures
        rope_text(r) == text@,
{
    Rope::from_str(text)
}

/// `Rope::new`: an empty rope.
#[verifier::external_body]
pub(crate) fn rope_new() -> (r: Rope)
    ensures
        rope_text(r) == Seq::<char>::empty(),
{
    Rope::new()
}

/// `Rope::len_chars`: the number of characters.
#[verifier::external_body]
pub(crate) fn rope_len_chars(r: &Rope) -> (n: usize)
    ensures
        n == rope_text(*r).len(),
{
    r.len_chars()
}

/// `Rope::len_bytes`: the number of bytes of the UTF-8 text.
#[verifier::external_body]
pub(crate) fn rope_len_bytes(r: &Rope) -> (n: usize)
    ensures
        n == byte_len(rope_text(*r)),
{
    r.len_bytes()
}

/// `Rope::insert`: `text` is inserted at character index `char_idx`.
/// It panics when `char_idx` is past the end, which `requires` rules out;
/// the second clause of `requires` is the limit of a length held in `usize`.
#[verifier::external_body]
pub(crate) fn rope_insert(r: &mut Rope, char_idx: usize, text: &str)
    requires
        char_idx <= rope_text(*old(r)).len(),
        rope_text(*old(r)).len() + text@.len() <= usize::MAX,
    ensures
        rope_text(*final(r)) == rope_text(*old(r)).take(char_idx as int) + text@ + rope_text(
            *old(r),
        ).skip(char_idx as int),
{
    r.insert(char_idx, text)
}

/// `Rope::remove`: the characters in `start..end` are removed.
/// It panics when `start > end` or `end` is past the end, which `requires` rules out.
#[verifier::external_body]
pub(crate) fn rope_remove(r: &mut Rope, start: usize, end: usize)
    requires
        start <= end <= rope_text(*old(r)).len(),
    ensures
        rope_text(*final(r)) == rope_text(*old(r)).take(start as int) + rope_text(*old(r)).skip(
            end as int,
        ),
{
    r.remove(start..end)
}

/// `Rope::to_string` (through `Display`): the whole text as a `String`.
#[verifier::external_body]
pub(crate) fn rope_to_string(r: &Rope) -> (s: String)
    ensures
        s@ == rope_text(*r),
{
    r.to_string()
}

/// `Rope::slice(start..end).to_string()`: the characters in `start..end`.
/// It panics when `start > end` or `end` is past the end, which `requires` rules out.
#[verifier::external_body]
pub(crate) fn rope_slice_to_string(r: &Rope, start: usize, end: usize) -> (s: String)
    requires
        start <= end <= rope_text(*r).len(),
    ensures
        s@ == rope_text(*r).subrange(start as int, end as int),
{
    r.slice(start..end).to_string()
}

/// `Rope::clone`: a rope that shares the same tree, so it holds the same text.
#[verifier::external_body]
pub(crate) fn rope_clone(r: &Rope) -> (c: Rope)
    ensures
        rope_text(c) == rope_text(*r),
{
    r.clone()
}

/// `Rope::byte_to_char`: the index of the character that byte `byte_idx` belongs to.
/// It panics when `byte_idx` is past the end, which `requires` rules out.
#[verifier::external_body]
pub(crate) fn rope_byte_to_char(r: &Rope, byte_idx: usize) -> (c: usize)
    requires
        byte_idx <= byte_len(rope_text(*r)),
    ensures
        c == char_of_byte(rope_text(*r), byte_idx as int),
{
    r.byte_to_char(byte_idx)
}

/// `Rope::char_to_byte`: the byte index at which character `char_idx` starts.
/// It panics when `char_idx` is past the end, which `requires` rules out.
#[verifier::external_body]
pub(crate) fn rope_char_to_byte(r: &Rope, char_idx: usize) -> (b: usize)
    requires
        char_idx <= rope_text(*r).len(),
    ensures
        b == byte_offset(rope_text(*r), char_idx as int),
{
    r.char_to_byte(char_idx)
}

/// `Rope::get_char`: the character at `char_idx`, or `None` past the end.
#[verifier::external_body]
pub(crate) fn rope_get_char(r: &Rope, char_idx: usize) -> (c: Option<char>)
    ensures
        char_idx < rope_text(*r).len() ==> c == Some(rope_text(*r)[char_idx as int]),
        char_idx >= rope_text(*r).len() ==> c is None,
{
    r.get_char(char_idx)
}

/// `Rope::char_to_line`: the number of line breaks before character `char_idx`.
/// It panics when `char_idx` is past the end, which `requires` rules out.
#[verifier::external_body]
pub(crate) fn rope_char_to_line(r: &Rope, char_idx: usize) -> (l: usize)
    requires
        char_idx <= rope_text(*r).len(),
    ensures
        l == breaks_before(rope_text(*r), char_idx as int),
{
    r.char_to_line(char_idx)
}

/// `Rope::line_to_char`: the character index at which line `line_idx` starts
/// (one past the last line gives the end of the text).
/// It panics when `line_idx` is past that, which `requires` rules out.
#[verifier::external_body]
pub(crate) fn rope_line_to_char(r: &Rope, line_idx: usize) -> (c: usize)
    requires
        line_idx <= line_count(rope_text(*r)),
    ensures
        c == line_start(rope_text(*r), line_idx as int),
{
    r.line_to_char(line_idx)
}

/// `Rope::len_lines`: one more than the number of line breaks.
#[verifier::external_body]
pub(crate) fn rope_len_lines(r: &Rope) -> (n: usize)
    ensures
        n == line_count(rope_text(*r)),
{
    r.len_lines()
}

} // verus!
