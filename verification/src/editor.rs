//! Cursor movement and text changes on a source buffer.
//!
//! A cursor is a byte offset. Each function here takes any offset, looks at the
//! character position at or before it, and gives back offsets at which a
//! character begins.

use vstd::prelude::*;
use crate::bytes;
use crate::bytes::{chars_of, find_col, locate, offset_of};
use crate::text;
use crate::text::{find_char, from_chars, to_chars};

verus! {

/// Position of the cursor `pos` among the characters of `t`.
pub open spec fn cursor_index(t: Seq<char>, pos: usize) -> int {
    bytes::floor_index(t, pos as int)
}

/// Snaps `pos` down to the nearest character boundary.
pub fn floor_char_boundary(s: &str, pos: usize) -> (r: usize)
    ensures
        r == bytes::byte_pos(s@, cursor_index(s@, pos)),
{
    let cs = chars_of(s);
    let (_, b) = locate(&cs, pos);
    b
}

/// Position after the one at or before `pos`, at most the end.
pub open spec fn next_index(t: Seq<char>, pos: usize) -> int {
    let k = cursor_index(t, pos);
    if k < t.len() {
        k + 1
    } else {
        t.len() as int
    }
}

/// Byte offset of the next character boundary after `pos`, the end of the text
/// at most.
pub fn next_char_boundary(s: &str, pos: usize) -> (r: usize)
    ensures
        r == bytes::byte_pos(s@, next_index(s@, pos)),
{
    let cs = chars_of(s);
    let (k, _) = locate(&cs, pos);
    let n = cs.len();
    offset_of(
        &cs,
        if k < n {
            k + 1
        } else {
            n
        },
    )
}

/// Last position before `pos`, at least the start.
pub open spec fn prev_index(t: Seq<char>, pos: usize) -> int {
    if pos == 0 {
        0
    } else {
        cursor_index(t, (pos - 1) as usize)
    }
}

/// Byte offset of the previous character boundary before `pos`, the start of the
/// text at least.
pub fn prev_char_boundary(s: &str, pos: usize) -> (r: usize)
    ensures
        r == bytes::byte_pos(s@, prev_index(s@, pos)),
{
    let cs = chars_of(s);
    if pos == 0 {
        proof {
            bytes::lemma_byte_pos_ends(s@);
        }
        return 0;
    }
    let (_, b) = locate(&cs, pos - 1);
    b
}

// ---------------------------------------------------------------------------
// Lines
// ---------------------------------------------------------------------------

/// Number of newlines before position `k`.
pub open spec fn newlines_before(t: Seq<char>, k: int) -> int
    decreases k,
{
    if k <= 0 {
        0
    } else {
        newlines_before(t, k - 1) + if t[k - 1] == '\n' {
            1int
        } else {
            0
        }
    }
}

/// Position where the line that holds position `k` begins.
pub open spec fn line_begin(t: Seq<char>, k: int) -> int
    decreases k,
{
    if k <= 0 {
        0
    } else if t[k - 1] == '\n' {
        k
    } else {
        line_begin(t, k - 1)
    }
}

/// Line index and character column of a byte offset.
pub fn source_line_col(s: &str, pos: usize) -> (r: (usize, usize))
    ensures
        ({
            let k = cursor_index(s@, pos);
            r.0 == newlines_before(s@, k) && r.1 == k - line_begin(s@, k)
        }),
{
    let cs = chars_of(s);
    let (k, _) = locate(&cs, pos);
    let mut line: usize = 0;
    let mut begin: usize = 0;
    let mut i: usize = 0;
    while i < k
        invariant
            i <= k <= cs@.len(),
            line <= i,
            begin <= i,
            line == newlines_before(cs@, i as int),
            begin == line_begin(cs@, i as int),
        decreases k - i,
    {
        i = i + 1;
        if cs[i - 1] == '\n' {
            line = line + 1;
            begin = i;
        }
    }
    (line, k - begin)
}

/// Position of the first character of the `n`th line counted from the line that
/// begins at `i`, the end of the text past the last.
pub open spec fn line_start_index(t: Seq<char>, n: int, i: int) -> int
    decreases t.len() - i,
{
    if n <= 0 {
        i
    } else if i >= t.len() {
        t.len() as int
    } else if t[i] == '\n' {
        line_start_index(t, n - 1, i + 1)
    } else {
        line_start_index(t, n, i + 1)
    }
}

/// Position of the newline that ends the line at `i`, or the end of the text.
pub open spec fn line_end_index(t: Seq<char>, i: int) -> int {
    match text::first_char(t, '\n', i) {
        Some(k) => k,
        None => t.len() as int,
    }
}

fn start_of_line(cs: &[char], line: usize) -> (k: usize)
    ensures
        k == line_start_index(cs@, line as int, 0),
        k <= cs@.len(),
{
    let mut n: usize = line;
    let mut i: usize = 0;
    while n > 0 && i < cs.len()
        invariant
            i <= cs@.len(),
            line_start_index(cs@, line as int, 0) == line_start_index(cs@, n as int, i as int),
        decreases cs@.len() - i,
    {
        if cs[i] == '\n' {
            n = n - 1;
        }
        i = i + 1;
    }
    i
}

fn end_of_line(cs: &[char], i: usize) -> (k: usize)
    requires
        i <= cs@.len(),
    ensures
        k == line_end_index(cs@, i as int),
        i <= k <= cs@.len(),
{
    match find_char(cs, '\n', i) {
        Some(k) => k,
        None => cs.len(),
    }
}

/// Byte offset of the first character of `line`, the end of the text for a line
/// past the last.
pub fn source_line_start(s: &str, line: usize) -> (r: usize)
    ensures
        r == bytes::byte_pos(s@, line_start_index(s@, line as int, 0)),
{
    let cs = chars_of(s);
    let k = start_of_line(&cs, line);
    offset_of(&cs, k)
}

/// Byte offset of the end of `line`, before its newline.
pub fn source_line_end(s: &str, line: usize) -> (r: usize)
    ensures
        r == bytes::byte_pos(s@, line_end_index(s@, line_start_index(s@, line as int, 0))),
{
    let cs = chars_of(s);
    let start = start_of_line(&cs, line);
    let k = end_of_line(&cs, start);
    offset_of(&cs, k)
}

/// Position `col` characters into `line`, at most its end.
pub open spec fn line_col_index(t: Seq<char>, line: int, col: int) -> int {
    let start = line_start_index(t, line, 0);
    let end = line_end_index(t, start);
    if start + col <= end {
        start + col
    } else {
        end
    }
}

/// Byte offset `col` characters into `line`, clamped to the line.
pub fn source_offset_for(s: &str, line: usize, col: usize) -> (r: usize)
    ensures
        r == bytes::byte_pos(s@, line_col_index(s@, line as int, col as int)),
{
    let cs = chars_of(s);
    let start = start_of_line(&cs, line);
    let end = end_of_line(&cs, start);
    let k: usize = if col <= end - start {
        start + col
    } else {
        end
    };
    offset_of(&cs, k)
}

/// Whether `from..to` are byte offsets of a stretch of `t`.
pub open spec fn is_stretch(t: Seq<char>, from: usize, to: usize) -> bool {
    &&& from <= to
    &&& bytes::byte_pos(t, bytes::floor_index(t, from as int)) == from
    &&& bytes::byte_pos(t, bytes::floor_index(t, to as int)) == to
}

/// Byte offset of the character at display column `col` within the stretch
/// `from..to` of a source; the start where that is no stretch.
pub open spec fn offset_at_col(t: Seq<char>, from: usize, to: usize, col: usize) -> int {
    if is_stretch(t, from, to) {
        let a = bytes::floor_index(t, from as int);
        let b = bytes::floor_index(t, to as int);
        bytes::byte_pos(t, a + bytes::col_index(t.subrange(a, b), 0, 0, col as int))
    } else {
        from as int
    }
}

/// Finds the byte offset at display column `col` of a stretch of source.
pub fn source_offset_at_col(s: &str, from: usize, to: usize, col: usize) -> (r: usize)
    ensures
        r == offset_at_col(s@, from, to, col),
{
    let cs = chars_of(s);
    let (a, ab) = locate(&cs, from);
    let (b, bb) = locate(&cs, to);
    if from > to || ab != from || bb != to {
        return from;
    }
    proof {
        if a > b {
            bytes::lemma_byte_pos_monotone(cs@, b as int, a as int);
        }
    }
    let k = find_col(&cs, a, b, col);
    offset_of(&cs, k)
}

// ---------------------------------------------------------------------------
// Words
// ---------------------------------------------------------------------------

/// Position reached from `k` by going left over white space.
pub open spec fn left_over_space(t: Seq<char>, k: int) -> int
    decreases k,
{
    if 0 < k <= t.len() && text::is_space(t[k - 1]) {
        left_over_space(t, k - 1)
    } else {
        k
    }
}

/// Position reached from `k` by going left over a word.
pub open spec fn left_over_word(t: Seq<char>, k: int) -> int
    decreases k,
{
    if 0 < k <= t.len() && !text::is_space(t[k - 1]) {
        left_over_word(t, k - 1)
    } else {
        k
    }
}

/// Position reached from `k` by going right over white space.
pub open spec fn right_over_space(t: Seq<char>, k: int) -> int
    decreases t.len() - k,
{
    if 0 <= k < t.len() && text::is_space(t[k]) {
        right_over_space(t, k + 1)
    } else {
        k
    }
}

/// Position reached from `k` by going right over a word.
pub open spec fn right_over_word(t: Seq<char>, k: int) -> int
    decreases t.len() - k,
{
    if 0 <= k < t.len() && !text::is_space(t[k]) {
        right_over_word(t, k + 1)
    } else {
        k
    }
}

/// Where a step by word from position `k` leads: over white space, then over the
/// word behind it.
pub open spec fn word_step(t: Seq<char>, k: int, forward: bool) -> int {
    if forward {
        right_over_word(t, right_over_space(t, k))
    } else {
        left_over_word(t, left_over_space(t, k))
    }
}

fn step_word(cs: &[char], k: usize, forward: bool) -> (r: usize)
    requires
        k <= cs@.len(),
    ensures
        r == word_step(cs@, k as int, forward),
        r <= cs@.len(),
        forward ==> k <= r,
        !forward ==> r <= k,
{
    let mut i: usize = k;
    if forward {
        while i < cs.len() && text::space(cs[i])
            invariant
                k <= i <= cs@.len(),
                right_over_space(cs@, k as int) == right_over_space(cs@, i as int),
            decreases cs@.len() - i,
        {
            i = i + 1;
        }
        let mid = i;
        while i < cs.len() && !text::space(cs[i])
            invariant
                k <= mid <= i <= cs@.len(),
                right_over_word(cs@, mid as int) == right_over_word(cs@, i as int),
            decreases cs@.len() - i,
        {
            i = i + 1;
        }
    } else {
        while i > 0 && text::space(cs[i - 1])
            invariant
                i <= k <= cs@.len(),
                left_over_space(cs@, k as int) == left_over_space(cs@, i as int),
            decreases i,
        {
            i = i - 1;
        }
        let mid = i;
        while i > 0 && !text::space(cs[i - 1])
            invariant
                i <= mid <= k <= cs@.len(),
                left_over_word(cs@, mid as int) == left_over_word(cs@, i as int),
            decreases i,
        {
            i = i - 1;
        }
    }
    i
}

/// Byte offset where a step by word leads from the cursor.
pub fn word_offset(s: &str, cursor: usize, forward: bool) -> (r: usize)
    ensures
        r == bytes::byte_pos(s@, word_step(s@, cursor_index(s@, cursor), forward)),
{
    let cs = chars_of(s);
    let (k, _) = locate(&cs, cursor);
    let to = step_word(&cs, k, forward);
    offset_of(&cs, to)
}

// ---------------------------------------------------------------------------
// Changes
// ---------------------------------------------------------------------------

/// `t` with the characters `a..b` replaced by `with`.
pub open spec fn replaced(t: Seq<char>, a: int, b: int, with: Seq<char>) -> Seq<char> {
    t.take(a) + with + t.skip(b)
}

fn replace_chars(cs: &[char], a: usize, b: usize, with: &str) -> (r: String)
    requires
        a <= b <= cs@.len(),
    ensures
        r@ == replaced(cs@, a as int, b as int, with@),
{
    let n = cs.len();
    let mut out = from_chars(cs, 0, a);
    out.push_str(with);
    out.push_str(&from_chars(cs, b, n));
    assert(cs@.subrange(0, a as int) =~= cs@.take(a as int));
    assert(cs@.subrange(b as int, n as int) =~= cs@.skip(b as int));
    out
}

/// The buffer with `what` inserted at the cursor, and the cursor behind it.
pub fn insert_text(raw: &str, cursor: usize, what: &str) -> (r: (String, usize))
    ensures
        ({
            let k = cursor_index(raw@, cursor);
            &&& r.0@ == replaced(raw@, k, k, what@)
            &&& r.1 == bytes::byte_pos(r.0@, k + what@.len())
        }),
{
    let cs = chars_of(raw);
    let (k, _) = locate(&cs, cursor);
    let out = replace_chars(&cs, k, k, what);
    let new = chars_of(&out);
    let w = to_chars(what);
    let total = new.len();
    assert(total == cs@.len() + w@.len());
    let at = offset_of(&new, k + w.len());
    (out, at)
}

/// The buffer with the characters between two byte offsets removed, and the
/// offset where they were.
pub fn remove_between(raw: &str, from: usize, to: usize) -> (r: (String, usize))
    ensures
        ({
            let a = cursor_index(raw@, from);
            let b = cursor_index(raw@, to);
            if a <= b {
                r.0@ == replaced(raw@, a, b, Seq::empty()) && r.1 == bytes::byte_pos(raw@, a)
            } else {
                r.0@ == raw@ && r.1 == bytes::byte_pos(raw@, a)
            }
        }),
{
    let cs = chars_of(raw);
    let (a, at) = locate(&cs, from);
    let (b, _) = locate(&cs, to);
    if a <= b {
        proof {
            reveal_strlit("");
            assert(""@ =~= Seq::<char>::empty());
        }
        (replace_chars(&cs, a, b, ""), at)
    } else {
        (raw.to_string(), at)
    }
}

} // verus!
