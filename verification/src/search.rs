//! Regular-expression search over the text of a buffer.
use vstd::prelude::*;
use vstd::utf8::{encode_utf8, valid_utf8, decode_utf8};
use std::ops::Range;
use regex::bytes::Regex;
use crate::buffer::EditorBuffer;
use ropey::Rope;
use crate::rope::{rope_text, rope_byte_to_char, rope_char_to_byte, rope_to_string, rope_len_bytes};
use crate::textspec::{
    byte_len, byte_offset, char_of_byte, lemma_byte_offset_le, lemma_byte_offset_monotone,
    lemma_char_of_byte_offset, lemma_char_of_byte_monotone, lemma_encode_subrange,
};

verus! {

broadcast use crate::buffer::EditorBuffer::lemma_view_text;

/// The byte-oriented regular expression type of the `regex` crate.
#[verifier::external_type_specification]
#[verifier::external_body]
pub struct ExRegex(Regex);

/// Whether `regex::bytes::Regex::new` accepts `pattern`.
pub uninterp spec fn regex_compiles(pattern: Seq<char>) -> bool;

/// The successive non-overlapping matches, as byte ranges, that
/// `regex::bytes::Regex::find_iter` yields for `pattern` in `haystack`.
pub uninterp spec fn regex_find_all(pattern: Seq<char>, haystack: Seq<u8>) -> Seq<(usize, usize)>;

/// The text that `String::from_utf8_lossy` makes of `bytes`.
pub uninterp spec fn utf8_lossy(bytes: Seq<u8>) -> Seq<char>;

/// A compiled pattern together with its source text.
pub struct SearchPattern {
    re: Regex,
    source: String,
}

impl View for SearchPattern {
    type V = Seq<char>;

    closed spec fn view(&self) -> Seq<char> {
        self.source@
    }
}

/// `Regex::new`: compiles `pattern`; `None` when the crate rejects it.
#[verifier::external_body]
fn compile_pattern(pattern: &str) -> (p: Option<SearchPattern>)
    ensures
        p is Some <==> regex_compiles(pattern@),
        p matches Some(q) ==> q@ == pattern@,
{
    Regex::new(pattern).ok().map(|re| SearchPattern { re, source: pattern.to_string() })
}

/// `Regex::find_iter`, collected as byte ranges: the successive non-overlapping matches, as
/// its documentation says, so each range lies within the haystack and ends at or before the
/// next one starts.
#[verifier::external_body]
fn find_matches(p: &SearchPattern, haystack: &[u8]) -> (v: Vec<(usize, usize)>)
    ensures
        v@ == regex_find_all(p@, haystack@),
        ranges_ordered(v@, haystack@.len() as int),
{
    p.re.find_iter(haystack).map(|m| (m.start(), m.end())).collect()
}

/// `String::from_utf8_lossy`, owned; valid UTF-8 is decoded as it is.
#[verifier::external_body]
fn lossy_string(bytes: &[u8]) -> (s: String)
    ensures
        s@ == utf8_lossy(bytes@),
        valid_utf8(bytes@) ==> s@ == decode_utf8(bytes@),
{
    String::from_utf8_lossy(bytes).into_owned()
}

/// A match: its character range in the rope and the matched text.
#[derive(Debug)]
pub struct SearchMatch {
    /// Character range in the rope.
    pub char_range: Range<usize>,
    /// The matched text.
    pub text: String,
}

impl Clone for SearchMatch {
    fn clone(&self) -> (c: Self)
        ensures
            c == *self,
    {
        SearchMatch { char_range: self.char_range.start..self.char_range.end, text: self.text.clone() }
    }
}

/// A match as mathematical values.
pub struct MatchView {
    pub start: int,
    pub end: int,
    pub text: Seq<char>,
}

pub open spec fn match_view(m: SearchMatch) -> MatchView {
    MatchView { start: m.char_range.start as int, end: m.char_range.end as int, text: m.text@ }
}

pub open spec fn match_views(ms: Seq<SearchMatch>) -> Seq<MatchView> {
    ms.map_values(|m: SearchMatch| match_view(m))
}

/// Byte ranges that each lie within the first `n` bytes and come in order without
/// overlapping: each ends at or before the next one starts.
pub open spec fn ranges_ordered(ms: Seq<(usize, usize)>, n: int) -> bool {
    &&& forall|i: int| 0 <= i < ms.len() ==> #[trigger] ms[i].0 <= ms[i].1 <= n
    &&& forall|i: int, j: int| 0 <= i < j < ms.len() ==> #[trigger] ms[i].1 <= #[trigger] ms[j].0
}

/// The matches at the byte ranges `ms` of `bytes`, a piece of the UTF-8 text of `t` that
/// starts at byte `offset`: character ranges in `t`, and the matched bytes as text.
pub open spec fn ranges_matches(t: Seq<char>, bytes: Seq<u8>, offset: int, ms: Seq<(usize, usize)>) -> Seq<
    MatchView,
> {
    Seq::new(
        ms.len(),
        |i: int|
            MatchView {
                start: char_of_byte(t, offset + ms[i].0) as int,
                end: char_of_byte(t, offset + ms[i].1) as int,
                text: utf8_lossy(bytes.subrange(ms[i].0 as int, ms[i].1 as int)),
            },
    )
}

/// The matches of `pattern` found in `bytes`, a piece of the UTF-8 text of `t` that starts at
/// byte `offset`.
pub open spec fn piece_matches(pattern: Seq<char>, t: Seq<char>, bytes: Seq<u8>, offset: int) -> Seq<
    MatchView,
> {
    ranges_matches(t, bytes, offset, regex_find_all(pattern, bytes))
}

/// The matches of `pattern` in the whole UTF-8 text of `t`.
pub open spec fn text_matches(pattern: Seq<char>, t: Seq<char>) -> Seq<MatchView> {
    piece_matches(pattern, t, encode_utf8(t), 0)
}

/// The matches of `pattern` in the characters `start..end` of `t`: the UTF-8 bytes of those
/// characters are searched on their own (so every match lies within the range); nothing when
/// `start > end`.
pub open spec fn range_search(pattern: Seq<char>, t: Seq<char>, start: int, end: int) -> Seq<MatchView> {
    if start <= end {
        let sb = byte_offset(t, start) as int;
        piece_matches(pattern, t, encode_utf8(t).subrange(sb, byte_offset(t, end) as int), sb)
    } else {
        Seq::empty()
    }
}

/// The matches at the byte ranges `ranges` of `bytes`, a piece of the buffer's UTF-8 text
/// that starts at byte `offset` (see `ranges_matches`): each range's character range in the
/// buffer and its bytes as text. Every match lies between the characters of the piece's first
/// and last bytes, and matches of ordered ranges come in order without overlapping.
pub fn matches_from_ranges(buf: &EditorBuffer, bytes: &[u8], offset: usize, ranges: &Vec<(usize, usize)>) -> (res: Vec<SearchMatch>)
    requires
        offset + bytes@.len() <= byte_len(buf@.text),
        forall|i: int| 0 <= i < ranges@.len() ==> #[trigger] ranges@[i].0 <= ranges@[i].1 <= bytes@.len(),
    ensures
        match_views(res@) == ranges_matches(buf@.text, bytes@, offset as int, ranges@),
        forall|i: int|
            0 <= i < res@.len() ==> char_of_byte(buf@.text, offset as int) <= (#[trigger] res@[i]).char_range.start
                && res@[i].char_range.end <= char_of_byte(buf@.text, offset + bytes@.len()),
        forall|i: int| 0 <= i < res@.len() ==> (#[trigger] res@[i]).char_range.start <= res@[i].char_range.end,
        ranges_ordered(ranges@, bytes@.len() as int) ==> forall|i: int, j: int|
            0 <= i < j < res@.len() ==> (#[trigger] res@[i]).char_range.end <= (#[trigger] res@[j]).char_range.start,
{
    let rope = buf.rope();
    let ghost t = rope_text(*rope);
    let total = rope_len_bytes(rope);
    let ghost all = ranges_matches(t, bytes@, offset as int, ranges@);
    let mut results: Vec<SearchMatch> = Vec::new();
    let mut j: usize = 0;
    while j < ranges.len()
        invariant
            t == rope_text(*rope),
            t == buf@.text,
            total == byte_len(t),
            forall|i: int| 0 <= i < ranges@.len() ==> #[trigger] ranges@[i].0 <= ranges@[i].1 <= bytes@.len(),
            offset + bytes@.len() <= byte_len(t),
            all == ranges_matches(t, bytes@, offset as int, ranges@),
            0 <= j <= ranges@.len(),
            match_views(results@) == all.take(j as int),
            forall|i: int|
                0 <= i < results@.len() ==> char_of_byte(t, offset as int) <= (#[trigger] results@[i]).char_range.start
                    && results@[i].char_range.end <= char_of_byte(t, offset + bytes@.len())
                    && results@[i].char_range.start <= results@[i].char_range.end,
            forall|i: int|
                0 <= i < results@.len() ==> (#[trigger] results@[i]).char_range.start == char_of_byte(
                    t,
                    offset + ranges@[i].0,
                ) && results@[i].char_range.end == char_of_byte(t, offset + ranges@[i].1),
        decreases ranges@.len() - j,
    {
        let (s, e) = ranges[j];
        proof {
            assert(ranges@[j as int].0 <= ranges@[j as int].1 <= bytes@.len());
        }
        let start_char = rope_byte_to_char(rope, offset + s);
        let end_char = rope_byte_to_char(rope, offset + e);
        let text = lossy_string(&bytes[s..e]);
        let m = SearchMatch { char_range: start_char..end_char, text };
        let ghost mv = match_view(m);
        proof {
            assert(mv == all[j as int]);
            lemma_char_of_byte_monotone(t, offset as int, offset + s);
            lemma_char_of_byte_monotone(t, offset + s, offset + e);
            lemma_char_of_byte_monotone(t, offset + e, offset + bytes@.len());
        }
        let ghost prev = results@;
        results.push(m);
        proof {
            assert(match_views(results@) =~= match_views(prev).push(mv));
            assert(all.take(j as int + 1) =~= all.take(j as int).push(mv));
            assert(results@[j as int] == m);
        }
        j = j + 1;
    }
    proof {
        assert(all.take(ranges@.len() as int) =~= all);
        assert(match_views(results@).len() == results@.len());
        if ranges_ordered(ranges@, bytes@.len() as int) {
            assert forall|i: int, k: int| 0 <= i < k < results@.len() implies (#[trigger] results@[i]).char_range.end
                <= (#[trigger] results@[k]).char_range.start by {
                assert(ranges@[i].1 <= ranges@[k].0);
                lemma_char_of_byte_monotone(t, offset + ranges@[i].1, offset + ranges@[k].0);
            }
        }
    }
    results
}

/// Searches the whole text of the buffer for `pattern`: the successive non-overlapping
/// matches, with their character ranges and texts (see `text_matches`). The pattern must be
/// one that the regex crate accepts.
pub fn search_buffer(buf: &EditorBuffer, pattern: &str) -> (res: Vec<SearchMatch>)
    requires
        regex_compiles(pattern@),
    ensures
        match_views(res@) == text_matches(pattern@, buf@.text),
        forall|i: int, j: int|
            0 <= i < j < res@.len() ==> (#[trigger] res@[i]).char_range.end <= (#[trigger] res@[j]).char_range.start,
{
    let p = match compile_pattern(pattern) {
        Some(p) => p,
        None => {
            return Vec::new();
        },
    };
    let rope = buf.rope();
    let source = rope_to_string(rope);
    let bytes = source.as_str().as_bytes();
    let ranges = find_matches(&p, bytes);
    matches_from_ranges(buf, bytes, 0, &ranges)
}

/// Searches the characters `range` of the buffer for `pattern` (see `range_search`): every
/// match lies within the range. The pattern must be one that the regex crate accepts, and
/// the range must lie in the text.
pub fn search_range(buf: &EditorBuffer, pattern: &str, range: Range<usize>) -> (res: Vec<SearchMatch>)
    requires
        regex_compiles(pattern@),
        range.start <= buf@.text.len(),
        range.end <= buf@.text.len(),
    ensures
        match_views(res@) == range_search(pattern@, buf@.text, range.start as int, range.end as int),
        forall|i: int|
            0 <= i < res@.len() ==> range.start <= (#[trigger] res@[i]).char_range.start
                && res@[i].char_range.end <= range.end,
        forall|i: int, j: int|
            0 <= i < j < res@.len() ==> (#[trigger] res@[i]).char_range.end <= (#[trigger] res@[j]).char_range.start,
{
    let p = match compile_pattern(pattern) {
        Some(p) => p,
        None => {
            return Vec::new();
        },
    };
    if range.start > range.end {
        let res: Vec<SearchMatch> = Vec::new();
        assert(match_views(res@) =~= Seq::<MatchView>::empty());
        return res;
    }
    let rope = buf.rope();
    let ghost t = rope_text(*rope);
    let start_byte = rope_char_to_byte(rope, range.start);
    let end_byte = rope_char_to_byte(rope, range.end);
    proof {
        lemma_byte_offset_monotone(t, range.start as int, range.end as int);
        lemma_byte_offset_le(t, range.end as int);
    }
    let source = rope_to_string(rope);
    let bytes = source.as_str().as_bytes();
    let piece = &bytes[start_byte..end_byte];
    proof {
        assert(piece@ =~= encode_utf8(t).subrange(start_byte as int, end_byte as int));
    }
    let ranges = find_matches(&p, piece);
    let res = matches_from_ranges(buf, piece, start_byte, &ranges);
    proof {
        lemma_char_of_byte_offset(t, range.start as int);
        lemma_char_of_byte_offset(t, range.end as int);
    }
    res
}

/// Searches the buffer for `pattern` like `search_buffer`; `None` when the regex crate
/// rejects the pattern.
pub fn try_search_buffer(buf: &EditorBuffer, pattern: &str) -> (res: Option<Vec<SearchMatch>>)
    ensures
        res is Some <==> regex_compiles(pattern@),
        res matches Some(v) ==> match_views(v@) == text_matches(pattern@, buf@.text),
{
    if compile_pattern(pattern).is_some() {
        Some(search_buffer(buf, pattern))
    } else {
        None
    }
}

/// Searches the characters `range` of the buffer like `search_range`; `None` when the regex
/// crate rejects the pattern. The range must lie in the text.
pub fn try_search_range(buf: &EditorBuffer, pattern: &str, range: Range<usize>) -> (res: Option<
    Vec<SearchMatch>,
>)
    requires
        range.start <= buf@.text.len(),
        range.end <= buf@.text.len(),
    ensures
        res is Some <==> regex_compiles(pattern@),
        res matches Some(v) ==> match_views(v@) == range_search(
            pattern@,
            buf@.text,
            range.start as int,
            range.end as int,
        ),
{
    if compile_pattern(pattern).is_some() {
        Some(search_range(buf, pattern, range))
    } else {
        None
    }
}

/// A whole-buffer search reports, in order, one match for each match that the regex crate
/// finds in the whole UTF-8 text: the characters that its first and last bytes belong to, and
/// its bytes as text. So a match anywhere in the text is reported, whatever lines precede it.
pub proof fn law_search_covers_whole_text(pattern: Seq<char>, t: Seq<char>)
    ensures
        ({
            let bytes = encode_utf8(t);
            let ms = regex_find_all(pattern, bytes);
            let r = text_matches(pattern, t);
            &&& r.len() == ms.len()
            &&& forall|i: int|
                0 <= i < ms.len() ==> {
                    &&& (#[trigger] r[i]).start == char_of_byte(t, ms[i].0 as int)
                    &&& r[i].end == char_of_byte(t, ms[i].1 as int)
                    &&& r[i].text == utf8_lossy(bytes.subrange(ms[i].0 as int, ms[i].1 as int))
                }
        }),
{
}

/// A range search reports, in order, one match for each match that the regex crate finds in
/// the UTF-8 encoding of exactly the characters `s..e`: the characters of the text that its
/// first and last bytes belong to (counted from the range's first byte), and its bytes as text.
pub proof fn law_range_search_covers_range(pattern: Seq<char>, t: Seq<char>, s: int, e: int)
    requires
        0 <= s <= e <= t.len(),
    ensures
        ({
            let piece = encode_utf8(t.subrange(s, e));
            let sb = byte_offset(t, s) as int;
            let ms = regex_find_all(pattern, piece);
            let r = range_search(pattern, t, s, e);
            &&& r.len() == ms.len()
            &&& forall|i: int|
                0 <= i < ms.len() ==> {
                    &&& (#[trigger] r[i]).start == char_of_byte(t, sb + ms[i].0)
                    &&& r[i].end == char_of_byte(t, sb + ms[i].1)
                    &&& r[i].text == utf8_lossy(piece.subrange(ms[i].0 as int, ms[i].1 as int))
                }
        }),
{
    lemma_encode_subrange(t, s, e);
}

} // verus!
