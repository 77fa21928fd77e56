//! Byte offsets into text, by way of character positions.

use vstd::prelude::*;
use vstd::utf8::*;
use crate::text;
use crate::text::to_chars;

verus! {

/// Byte offset of the `k`th character.
pub open spec fn byte_pos(t: Seq<char>, k: int) -> int {
    encode_utf8(t.take(k)).len() as int
}

/// Length of a text in bytes.
pub open spec fn byte_count(t: Seq<char>) -> int {
    encode_utf8(t).len() as int
}

/// Bytes that a character takes.
pub open spec fn utf8_width(c: char) -> int {
    encode_scalar(c as u32).len() as int
}

/// A character takes one to four bytes, a newline one.
pub proof fn lemma_utf8_width(c: char)
    ensures
        1 <= utf8_width(c) <= 4,
        utf8_width(c) == (if c <= '\u{7f}' {
            1int
        } else if c <= '\u{7ff}' {
            2
        } else if c <= '\u{ffff}' {
            3
        } else {
            4
        }),
{
}

/// Bytes that a character takes.
pub fn char_bytes(c: char) -> (n: usize)
    ensures
        n == utf8_width(c),
        1 <= n <= 4,
{
    proof {
        lemma_utf8_width(c);
    }
    if c <= '\u{7f}' {
        1
    } else if c <= '\u{7ff}' {
        2
    } else if c <= '\u{ffff}' {
        3
    } else {
        4
    }
}

pub proof fn lemma_byte_pos_step(t: Seq<char>, k: int)
    requires
        0 <= k < t.len(),
    ensures
        byte_pos(t, k + 1) == byte_pos(t, k) + utf8_width(t[k]),
        byte_pos(t, k) < byte_pos(t, k + 1),
{
    assert(t.take(k + 1) =~= t.take(k) + seq![t[k]]);
    text::lemma_encode_concat(t.take(k), seq![t[k]]);
    let one = seq![t[k]];
    reveal_with_fuel(encode_utf8, 2);
    assert(one.drop_first() =~= Seq::<char>::empty());
    assert(encode_utf8(one) =~= encode_scalar(t[k] as u32));
    lemma_utf8_width(t[k]);
}

pub proof fn lemma_byte_pos_ends(t: Seq<char>)
    ensures
        byte_pos(t, 0) == 0,
        byte_pos(t, t.len() as int) == byte_count(t),
{
    assert(t.take(0) =~= Seq::<char>::empty());
    assert(t.take(t.len() as int) =~= t);
}

pub proof fn lemma_byte_pos_monotone(t: Seq<char>, i: int, j: int)
    requires
        0 <= i <= j <= t.len(),
    ensures
        byte_pos(t, i) <= byte_pos(t, j),
        i < j ==> byte_pos(t, i) < byte_pos(t, j),
        i + byte_pos(t, j) >= j + byte_pos(t, i),
    decreases j - i,
{
    if i < j {
        lemma_byte_pos_monotone(t, i, j - 1);
        lemma_byte_pos_step(t, j - 1);
    }
}

/// Splitting a text splits its bytes.
pub proof fn lemma_byte_pos_split(t: Seq<char>, i: int, j: int)
    requires
        0 <= i <= j <= t.len(),
    ensures
        byte_pos(t, j) == byte_pos(t, i) + byte_count(t.subrange(i, j)),
{
    assert(t.take(j) =~= t.take(i) + t.subrange(i, j));
    text::lemma_encode_concat(t.take(i), t.subrange(i, j));
}

/// The last character position at or after `k` whose byte offset is at most
/// `pos`.
pub open spec fn floor_from(t: Seq<char>, pos: int, k: int) -> int
    decreases t.len() - k,
{
    if 0 <= k < t.len() && byte_pos(t, k + 1) <= pos {
        floor_from(t, pos, k + 1)
    } else {
        k
    }
}

/// The last character position whose byte offset is at most `pos`.
pub open spec fn floor_index(t: Seq<char>, pos: int) -> int {
    floor_from(t, pos, 0)
}

pub proof fn lemma_floor_from(t: Seq<char>, pos: int, k: int)
    requires
        0 <= k <= t.len(),
        byte_pos(t, k) <= pos,
    ensures
        k <= floor_from(t, pos, k) <= t.len(),
        byte_pos(t, floor_from(t, pos, k)) <= pos,
        floor_from(t, pos, k) < t.len() ==> pos < byte_pos(t, floor_from(t, pos, k) + 1),
    decreases t.len() - k,
{
    if k < t.len() && byte_pos(t, k + 1) <= pos {
        lemma_floor_from(t, pos, k + 1);
    }
}

/// [`floor_index`] is a position of the text at or before `pos`, and the next
/// one lies behind it.
pub proof fn lemma_floor_index(t: Seq<char>, pos: int)
    requires
        0 <= pos,
    ensures
        0 <= floor_index(t, pos) <= t.len(),
        byte_pos(t, floor_index(t, pos)) <= pos,
        floor_index(t, pos) < t.len() ==> pos < byte_pos(t, floor_index(t, pos) + 1),
{
    lemma_byte_pos_ends(t);
    lemma_floor_from(t, pos, 0);
}

/// A byte offset at which a character begins is found again.
pub proof fn lemma_floor_of_pos(t: Seq<char>, k: int)
    requires
        0 <= k <= t.len(),
    ensures
        floor_index(t, byte_pos(t, k)) == k,
{
    lemma_byte_pos_ends(t);
    lemma_byte_pos_monotone(t, 0, k);
    lemma_floor_index(t, byte_pos(t, k));
    let f = floor_index(t, byte_pos(t, k));
    if f < k {
        lemma_byte_pos_monotone(t, f + 1, k);
    } else if f > k {
        lemma_byte_pos_monotone(t, k, f);
    }
}

/// True when a character of `t` begins at byte `pos`, or `t` ends there.
pub open spec fn on_boundary(t: Seq<char>, pos: int) -> bool {
    exists|k: int| 0 <= k <= t.len() && pos == #[trigger] byte_pos(t, k)
}

/// Character position at a byte offset, and the byte offset where that
/// character begins.
pub fn locate(cs: &[char], pos: usize) -> (r: (usize, usize))
    requires
        byte_count(cs@) <= usize::MAX,
    ensures
        r.0 == floor_index(cs@, pos as int),
        r.1 == byte_pos(cs@, r.0 as int),
        r.0 <= cs@.len(),
        r.1 <= pos,
{
    proof {
        lemma_byte_pos_ends(cs@);
    }
    let mut k: usize = 0;
    let mut b: usize = 0;
    while k < cs.len()
        invariant
            k <= cs@.len(),
            b == byte_pos(cs@, k as int),
            b <= pos,
            byte_count(cs@) <= usize::MAX,
            floor_index(cs@, pos as int) == floor_from(cs@, pos as int, k as int),
        decreases cs@.len() - k,
    {
        let w = char_bytes(cs[k]);
        proof {
            lemma_byte_pos_step(cs@, k as int);
            lemma_byte_pos_monotone(cs@, k + 1, cs@.len() as int);
            lemma_byte_pos_ends(cs@);
        }
        if w > pos - b {
            return (k, b);
        }
        k = k + 1;
        b = b + w;
    }
    (k, b)
}

/// Byte offset of a character position.
pub fn offset_of(cs: &[char], k: usize) -> (b: usize)
    requires
        k <= cs@.len(),
        byte_count(cs@) <= usize::MAX,
    ensures
        b == byte_pos(cs@, k as int),
{
    proof {
        lemma_byte_pos_ends(cs@);
    }
    let mut i: usize = 0;
    let mut b: usize = 0;
    while i < k
        invariant
            i <= k <= cs@.len(),
            b == byte_pos(cs@, i as int),
            byte_count(cs@) <= usize::MAX,
        decreases k - i,
    {
        proof {
            lemma_byte_pos_step(cs@, i as int);
            lemma_byte_pos_monotone(cs@, i + 1, cs@.len() as int);
            lemma_byte_pos_ends(cs@);
        }
        b = b + char_bytes(cs[i]);
        i = i + 1;
    }
    b
}

/// The characters of a string, whose bytes are known to be countable.
pub fn chars_of(s: &str) -> (r: Vec<char>)
    ensures
        r@ == s@,
        byte_count(r@) <= usize::MAX,
{
    let n = text::byte_len(s);
    to_chars(s)
}

// ---------------------------------------------------------------------------
// Columns
// ---------------------------------------------------------------------------

/// Position, from `i` on, of the character at display column `col`, where `used`
/// columns come before it.
pub open spec fn col_index(t: Seq<char>, i: int, used: int, col: int) -> int
    decreases t.len() - i,
{
    if i >= t.len() {
        t.len() as int
    } else if used + text::cols(t[i]) > col {
        i
    } else {
        col_index(t, i + 1, used + text::cols(t[i]), col)
    }
}

/// Finds the character at display column `col` among `from..to`.
pub fn find_col(cs: &[char], from: usize, to: usize, col: usize) -> (k: usize)
    requires
        from <= to <= cs@.len(),
    ensures
        k == from + col_index(cs@.subrange(from as int, to as int), 0, 0, col as int),
        from <= k <= to,
{
    let ghost t = cs@.subrange(from as int, to as int);
    let mut k: usize = from;
    let mut used: usize = 0;
    while k < to
        invariant
            from <= k <= to <= cs@.len(),
            t == cs@.subrange(from as int, to as int),
            used <= col,
            col_index(t, 0, 0, col as int) == col_index(t, k - from, used as int, col as int),
        decreases to - k,
    {
        assert(t[k - from] == cs@[k as int]);
        let w = text::char_cols(cs[k]);
        if w > col - used {
            return k;
        }
        used = used + w;
        k = k + 1;
    }
    k
}

/// Columns of the characters before `n`, one by one.
pub open spec fn cols_before(t: Seq<char>, n: int) -> usize
    decreases n,
{
    if n <= 0 {
        0
    } else {
        text::sat(cols_before(t, n - 1) + text::cols(t[n - 1]))
    }
}

/// Adds up the columns of the characters `from..to`.
pub fn sum_cols(cs: &[char], from: usize, to: usize) -> (w: usize)
    requires
        from <= to <= cs@.len(),
    ensures
        w == cols_before(cs@.subrange(from as int, to as int), to - from),
{
    let ghost t = cs@.subrange(from as int, to as int);
    let mut k: usize = from;
    let mut w: usize = 0;
    while k < to
        invariant
            from <= k <= to <= cs@.len(),
            t == cs@.subrange(from as int, to as int),
            w == cols_before(t, k - from),
        decreases to - k,
    {
        assert(t[k - from] == cs@[k as int]);
        w = w.saturating_add(text::char_cols(cs[k]));
        k = k + 1;
    }
    w
}

} // verus!
