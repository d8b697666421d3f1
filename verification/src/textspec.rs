//! Mathematical descriptions of text: UTF-8 byte offsets and line breaks.
use vstd::prelude::*;
use vstd::utf8::*;

verus! {

/// Number of UTF-8 bytes that the first `n` characters of `t` occupy.
pub open spec fn byte_offset(t: Seq<char>, n: int) -> nat {
    encode_utf8(t.take(n)).len()
}

/// Number of UTF-8 bytes of the whole text.
pub open spec fn byte_len(t: Seq<char>) -> nat {
    encode_utf8(t).len()
}

/// Index of the character that byte `b` belongs to; a byte at or past the end
/// gives the number of characters.
pub open spec fn char_of_byte(t: Seq<char>, b: int) -> nat
    decreases t.len(),
{
    if t.len() == 0 {
        0
    } else {
        let w = encode_scalar(t[0] as u32).len();
        if w <= b {
            1 + char_of_byte(t.drop_first(), b - w)
        } else {
            0
        }
    }
}

/// The texts of a sequence of pieces, one after the other.
pub open spec fn concat_texts(cs: Seq<Seq<char>>) -> Seq<char>
    decreases cs.len(),
{
    if cs.len() == 0 {
        Seq::empty()
    } else {
        concat_texts(cs.drop_last()) + cs.last()
    }
}

/// The characters that end a line in the default build of the rope
/// (LF, VT, FF, CR, NEL, LS, PS; CRLF counts once).
pub open spec fn is_break_char(c: char) -> bool {
    ||| c == '\n'
    ||| c == '\r'
    ||| c == '\u{0B}'
    ||| c == '\u{0C}'
    ||| c == '\u{85}'
    ||| c == '\u{2028}'
    ||| c == '\u{2029}'
}

/// Position `j` (just after a character) is the end of a line break.
pub open spec fn ends_line_break(t: Seq<char>, j: int) -> bool {
    &&& 0 < j <= t.len()
    &&& is_break_char(t[j - 1])
    &&& !(t[j - 1] == '\r' && j < t.len() && t[j] == '\n')
}

/// Number of line breaks that end at or before position `i`.
pub open spec fn breaks_before(t: Seq<char>, i: int) -> nat
    decreases i,
{
    if i <= 0 {
        0
    } else {
        breaks_before(t, i - 1) + if ends_line_break(t, i) {
            1nat
        } else {
            0nat
        }
    }
}

/// Number of lines: one more than the number of line breaks.
pub open spec fn line_count(t: Seq<char>) -> nat {
    breaks_before(t, t.len() as int) + 1
}

/// Smallest position at or after `i` where at least `l` line breaks have ended,
/// or the end of the text when there is none.
pub open spec fn first_reaching(t: Seq<char>, l: int, i: int) -> nat
    decreases t.len() - i,
{
    if i >= t.len() {
        t.len()
    } else if i >= 0 && breaks_before(t, i) >= l {
        i as nat
    } else {
        first_reaching(t, l, i + 1)
    }
}

/// Character index at which line `l` starts; one past the last line gives the end.
pub open spec fn line_start(t: Seq<char>, l: int) -> nat {
    first_reaching(t, l, 0)
}

pub proof fn lemma_breaks_before_monotone(t: Seq<char>, i: int, j: int)
    requires
        i <= j,
    ensures
        breaks_before(t, i) <= breaks_before(t, j),
    decreases j - i,
{
    if i < j {
        lemma_breaks_before_monotone(t, i, j - 1);
    }
}

pub proof fn lemma_first_reaching_bounds(t: Seq<char>, l: int, i: int)
    requires
        0 <= i,
    ensures
        first_reaching(t, l, i) <= t.len(),
        i <= t.len() ==> i <= first_reaching(t, l, i),
    decreases t.len() - i,
{
    if i < t.len() && breaks_before(t, i) < l {
        lemma_first_reaching_bounds(t, l, i + 1);
    }
}

/// If at least `l` breaks have ended by position `k`, the search from `i <= k` stops at or before `k`.
pub proof fn lemma_first_reaching_upto(t: Seq<char>, l: int, i: int, k: int)
    requires
        0 <= i <= k <= t.len(),
        breaks_before(t, k) >= l,
    ensures
        first_reaching(t, l, i) <= k,
    decreases k - i,
{
    if i < t.len() && breaks_before(t, i) < l {
        lemma_first_reaching_upto(t, l, i + 1, k);
    }
}

/// The line that contains position `i` starts at or before `i`.
pub proof fn lemma_line_start_le(t: Seq<char>, i: int)
    requires
        0 <= i <= t.len(),
    ensures
        line_start(t, breaks_before(t, i) as int) <= i,
{
    lemma_first_reaching_upto(t, breaks_before(t, i) as int, 0, i);
}

/// Lines start in order.
pub proof fn lemma_line_start_monotone(t: Seq<char>, l1: int, l2: int, i: int)
    requires
        l1 <= l2,
        0 <= i,
    ensures
        first_reaching(t, l1, i) <= first_reaching(t, l2, i),
    decreases t.len() - i,
{
    if i < t.len() {
        if breaks_before(t, i) >= l2 {
        } else if breaks_before(t, i) >= l1 {
            lemma_first_reaching_bounds(t, l2, i + 1);
        } else {
            lemma_line_start_monotone(t, l1, l2, i + 1);
        }
    }
}

pub proof fn lemma_line_start_bound(t: Seq<char>, l: int)
    ensures
        line_start(t, l) <= t.len(),
{
    lemma_first_reaching_bounds(t, l, 0);
}

/// The encoding of two texts one after the other is the two encodings one after the other.
pub proof fn lemma_encode_concat(a: Seq<char>, b: Seq<char>)
    ensures
        encode_utf8(a + b) == encode_utf8(a) + encode_utf8(b),
    decreases a.len(),
{
    if a.len() == 0 {
        assert(a + b =~= b);
        assert(encode_utf8(a) =~= Seq::<u8>::empty());
        assert(encode_utf8(a) + encode_utf8(b) =~= encode_utf8(b));
    } else {
        assert((a + b).drop_first() =~= a.drop_first() + b);
        assert((a + b)[0] == a[0]);
        lemma_encode_concat(a.drop_first(), b);
        assert(encode_utf8(a + b) =~= encode_utf8(a) + encode_utf8(b));
    }
}

/// The bytes of the first `n` characters are a prefix of the bytes of the text.
pub proof fn lemma_byte_offset_le(t: Seq<char>, n: int)
    requires
        0 <= n <= t.len(),
    ensures
        byte_offset(t, n) <= byte_len(t),
{
    assert(t =~= t.take(n) + t.skip(n));
    lemma_encode_concat(t.take(n), t.skip(n));
}

/// The bytes of the first characters grow with their number.
pub proof fn lemma_byte_offset_monotone(t: Seq<char>, m: int, n: int)
    requires
        0 <= m <= n <= t.len(),
    ensures
        byte_offset(t, m) <= byte_offset(t, n),
        encode_utf8(t.take(m)) == encode_utf8(t.take(n)).take(byte_offset(t, m) as int),
{
    assert(t.take(n) =~= t.take(m) + t.take(n).skip(m));
    lemma_encode_concat(t.take(m), t.take(n).skip(m));
    assert(encode_utf8(t.take(m)) =~= encode_utf8(t.take(n)).take(byte_offset(t, m) as int));
}

/// The byte at which character `n` starts belongs to character `n`.
pub proof fn lemma_char_of_byte_offset(t: Seq<char>, n: int)
    requires
        0 <= n <= t.len(),
    ensures
        char_of_byte(t, byte_offset(t, n) as int) == n,
    decreases t.len(),
{
    if t.len() > 0 {
        let w = encode_scalar(t[0] as u32).len();
        assert(w >= 1);
        if n > 0 {
            assert(t.take(n)[0] == t[0]);
            assert(t.take(n).drop_first() =~= t.drop_first().take(n - 1));
            assert(byte_offset(t, n) == w + byte_offset(t.drop_first(), n - 1));
            lemma_char_of_byte_offset(t.drop_first(), n - 1);
        } else {
            assert(t.take(0) =~= Seq::<char>::empty());
        }
    } else {
        assert(t.take(n) =~= Seq::<char>::empty());
    }
}

/// A later byte belongs to the same or a later character.
pub proof fn lemma_char_of_byte_monotone(t: Seq<char>, b1: int, b2: int)
    requires
        b1 <= b2,
    ensures
        char_of_byte(t, b1) <= char_of_byte(t, b2),
    decreases t.len(),
{
    if t.len() > 0 {
        let w = encode_scalar(t[0] as u32).len();
        if w <= b1 {
            lemma_char_of_byte_monotone(t.drop_first(), b1 - w, b2 - w);
        }
    }
}

/// No byte belongs past the last character.
pub proof fn lemma_char_of_byte_le_len(t: Seq<char>, b: int)
    ensures
        char_of_byte(t, b) <= t.len(),
    decreases t.len(),
{
    if t.len() > 0 {
        let w = encode_scalar(t[0] as u32).len();
        if w <= b {
            lemma_char_of_byte_le_len(t.drop_first(), b - w);
        }
    }
}

/// The bytes between the starts of characters `m` and `n` are the encoding of those characters.
pub proof fn lemma_encode_subrange(t: Seq<char>, m: int, n: int)
    requires
        0 <= m <= n <= t.len(),
    ensures
        encode_utf8(t).subrange(byte_offset(t, m) as int, byte_offset(t, n) as int) == encode_utf8(
            t.subrange(m, n),
        ),
{
    assert(t.take(n) =~= t.take(m) + t.subrange(m, n));
    lemma_encode_concat(t.take(m), t.subrange(m, n));
    assert(t =~= t.take(n) + t.skip(n));
    lemma_encode_concat(t.take(n), t.skip(n));
    assert(encode_utf8(t).subrange(byte_offset(t, m) as int, byte_offset(t, n) as int) =~= encode_utf8(
        t.subrange(m, n),
    ));
}

} // verus!
