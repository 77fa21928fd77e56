//! Where keys put the cursor of an edit, and what they do to the text around it.

use vstd::prelude::*;
use vstd::utf8::encode_utf8;
use crate::bytes;
use crate::editor;
use crate::raw;
use crate::reader;
use crate::text;

verus! {

/// Whether the cursor of an edit stands before the character `k` of the buffer.
pub open spec fn stands_before(r: reader::ReaderModel, k: int) -> bool {
    &&& r.edit is Some
    &&& 0 <= k <= r.raw.len()
    &&& r.edit->0.cursor == encode_utf8(r.raw.take(k)).len()
}

/// Whether a text is small enough to count its bytes.
pub open spec fn is_countable(t: Seq<char>) -> bool {
    encode_utf8(t).len() <= usize::MAX
}

proof fn lemma_index(r: reader::ReaderModel, k: int)
    requires
        stands_before(r, k),
    ensures
        editor::cursor_index(r.raw, r.edit->0.cursor) == k,
{
    bytes::lemma_floor_of_pos(r.raw, k);
}

proof fn lemma_pos(t: Seq<char>, k: int)
    requires
        0 <= k <= t.len(),
        is_countable(t),
    ensures
        0 <= bytes::byte_pos(t, k) <= usize::MAX,
{
    bytes::lemma_byte_pos_ends(t);
    bytes::lemma_byte_pos_monotone(t, 0, k);
    bytes::lemma_byte_pos_monotone(t, k, t.len() as int);
}

/// Typed text stands where the cursor was, and the cursor behind it.
pub proof fn law_typing_inserts(r: reader::ReaderModel, k: int, s: Seq<char>)
    requires
        stands_before(r, k),
        is_countable(r.edit_insert(s).raw),
    ensures
        r.edit_insert(s).raw == r.raw.take(k) + s + r.raw.skip(k),
        stands_before(r.edit_insert(s), k + s.len()),
{
    lemma_index(r, k);
    let a = r.edit_insert(s);
    lemma_pos(a.raw, k + s.len());
}

/// Backspace removes the character before the cursor, and nothing at the start.
pub proof fn law_backspace_removes(r: reader::ReaderModel, k: int)
    requires
        stands_before(r, k),
    ensures
        k > 0 ==> r.edit_backspace().raw == r.raw.take(k - 1) + r.raw.skip(k) && stands_before(
            r.edit_backspace(),
            k - 1,
        ),
        k == 0 ==> r.edit_backspace() == r,
{
    lemma_index(r, k);
    bytes::lemma_byte_pos_ends(r.raw);
    if k > 0 {
        bytes::lemma_byte_pos_monotone(r.raw, 0, k - 1);
        bytes::lemma_byte_pos_step(r.raw, k - 1);
        bytes::lemma_utf8_width(r.raw[k - 1]);
        let a = r.edit_backspace();
        assert(r.raw.take(k - 1) + Seq::<char>::empty() + r.raw.skip(k) =~= r.raw.take(k - 1)
            + r.raw.skip(k));
        assert(a.raw.take(k - 1) =~= r.raw.take(k - 1));
    } else {
        assert(r.raw.take(0) =~= Seq::<char>::empty());
        assert(bytes::byte_pos(r.raw, 0) == 0);
    }
}

/// Delete removes the character behind the cursor, and nothing at the end.
pub proof fn law_delete_removes(r: reader::ReaderModel, k: int)
    requires
        stands_before(r, k),
    ensures
        k < r.raw.len() ==> r.edit_delete().raw == r.raw.take(k) + r.raw.skip(k + 1)
            && stands_before(r.edit_delete(), k),
        k == r.raw.len() ==> r.edit_delete() == r,
{
    lemma_index(r, k);
    if k < r.raw.len() {
        let a = r.edit_delete();
        assert(r.raw.take(k) + Seq::<char>::empty() + r.raw.skip(k + 1) =~= r.raw.take(k)
            + r.raw.skip(k + 1));
        assert(a.raw.take(k) =~= r.raw.take(k));
    }
}

proof fn lemma_cursor_to(r: reader::ReaderModel, k: int)
    requires
        r.edit is Some,
        0 <= k <= r.raw.len(),
        is_countable(r.raw),
    ensures
        stands_before(r.cursor_to(bytes::byte_pos(r.raw, k)), k),
        r.cursor_to(bytes::byte_pos(r.raw, k)).raw == r.raw,
{
    lemma_pos(r.raw, k);
}

/// The arrows move the cursor by one character, up to the ends of the buffer.
pub proof fn law_arrow_moves_by_one(r: reader::ReaderModel, k: int)
    requires
        stands_before(r, k),
        is_countable(r.raw),
    ensures
        r.edit_move_horizontal(1).raw == r.raw,
        r.edit_move_horizontal(-1).raw == r.raw,
        stands_before(
            r.edit_move_horizontal(1),
            if k < r.raw.len() {
                k + 1
            } else {
                k
            },
        ),
        stands_before(
            r.edit_move_horizontal(-1),
            if k > 0 {
                k - 1
            } else {
                k
            },
        ),
{
    lemma_index(r, k);
    if k < r.raw.len() {
        lemma_cursor_to(r, k + 1);
    }
    lemma_cursor_to(r, k);
    if k > 0 {
        lemma_cursor_to(r, k - 1);
    }
}

// ---------------------------------------------------------------------------
// Words
// ---------------------------------------------------------------------------

/// Whether the characters `a..b` are all white space, or none of them is.
pub open spec fn all_space(t: Seq<char>, a: int, b: int, space: bool) -> bool {
    forall|k: int| a <= k < b ==> text::is_space(#[trigger] t[k]) == space
}

/// Whether `w` lies a word behind `k`: there is white space, then a word, and the word ends
/// there.
pub open spec fn is_word_after(t: Seq<char>, k: int, w: int) -> bool {
    exists|m: int|
        {
            &&& k <= m <= w <= t.len()
            &&& #[trigger] all_space(t, k, m, true)
            &&& all_space(t, m, w, false)
            &&& w < t.len() ==> m < w && text::is_space(t[w])
        }
}

/// Whether `w` lies a word before `k`.
pub open spec fn is_word_before(t: Seq<char>, k: int, w: int) -> bool {
    exists|m: int|
        {
            &&& 0 <= w <= m <= k
            &&& #[trigger] all_space(t, m, k, true)
            &&& all_space(t, w, m, false)
            &&& w > 0 ==> w < m && text::is_space(t[w - 1])
        }
}

proof fn lemma_right(t: Seq<char>, k: int, space: bool)
    requires
        0 <= k <= t.len(),
    ensures
        ({
            let m = if space {
                editor::right_over_space(t, k)
            } else {
                editor::right_over_word(t, k)
            };
            &&& k <= m <= t.len()
            &&& all_space(t, k, m, space)
            &&& m < t.len() ==> text::is_space(t[m]) != space
        }),
    decreases t.len() - k,
{
    if k < t.len() && text::is_space(t[k]) == space {
        lemma_right(t, k + 1, space);
    }
}

proof fn lemma_left(t: Seq<char>, k: int, space: bool)
    requires
        0 <= k <= t.len(),
    ensures
        ({
            let m = if space {
                editor::left_over_space(t, k)
            } else {
                editor::left_over_word(t, k)
            };
            &&& 0 <= m <= k
            &&& all_space(t, m, k, space)
            &&& m > 0 ==> text::is_space(t[m - 1]) != space
        }),
    decreases k,
{
    if k > 0 && text::is_space(t[k - 1]) == space {
        lemma_left(t, k - 1, space);
    }
}

proof fn lemma_word(t: Seq<char>, k: int, forward: bool)
    requires
        0 <= k <= t.len(),
    ensures
        ({
            let w = editor::word_step(t, k, forward);
            &&& forward ==> k <= w <= t.len() && is_word_after(t, k, w)
            &&& !forward ==> 0 <= w <= k && is_word_before(t, k, w)
        }),
{
    let w = editor::word_step(t, k, forward);
    if forward {
        let m = editor::right_over_space(t, k);
        lemma_right(t, k, true);
        lemma_right(t, m, false);
        assert(all_space(t, k, m, true));
    } else {
        let m = editor::left_over_space(t, k);
        lemma_left(t, k, true);
        lemma_left(t, m, false);
        assert(all_space(t, m, k, true));
    }
}

/// A step by word leads to the end of the next word, or to the start of the one before.
pub proof fn law_word_keys_move_by_word(r: reader::ReaderModel, k: int)
    requires
        stands_before(r, k),
        is_countable(r.raw),
    ensures
        exists|w: int|
            #[trigger] is_word_after(r.raw, k, w) && stands_before(r.edit_move_word(true), w),
        exists|w: int|
            #[trigger] is_word_before(r.raw, k, w) && stands_before(r.edit_move_word(false), w),
        r.edit_move_word(true).raw == r.raw,
        r.edit_move_word(false).raw == r.raw,
{
    lemma_index(r, k);
    lemma_word(r.raw, k, true);
    lemma_word(r.raw, k, false);
    let a = editor::word_step(r.raw, k, true);
    let b = editor::word_step(r.raw, k, false);
    lemma_cursor_to(r, a);
    lemma_cursor_to(r, b);
    assert(is_word_after(r.raw, k, a));
    assert(is_word_before(r.raw, k, b));
}

/// Deleting a word removes what a step by word goes over, and nothing else.
pub proof fn law_word_keys_delete_a_word(r: reader::ReaderModel, k: int)
    requires
        stands_before(r, k),
        is_countable(r.raw),
    ensures
        exists|w: int|
            {
                let a = r.edit_delete_word(true);
                &&& #[trigger] is_word_after(r.raw, k, w)
                &&& a.raw == r.raw.take(k) + r.raw.skip(w)
                &&& stands_before(a, k)
            },
        exists|w: int|
            {
                let a = r.edit_delete_word(false);
                &&& #[trigger] is_word_before(r.raw, k, w)
                &&& a.raw == r.raw.take(w) + r.raw.skip(k)
                &&& stands_before(a, w)
            },
{
    lemma_index(r, k);
    lemma_word(r.raw, k, true);
    lemma_word(r.raw, k, false);
    let t = r.raw;
    let none = Seq::<char>::empty();
    let w = editor::word_step(t, k, true);
    let a = r.edit_delete_word(true);
    lemma_pos(t, k);
    assert(t.take(k) + none + t.skip(w) =~= t.take(k) + t.skip(w));
    assert(w == k ==> t.take(k) + t.skip(w) =~= t);
    assert(a.raw == t.take(k) + t.skip(w));
    assert(a.raw.take(k) =~= t.take(k));
    assert(is_word_after(t, k, w));
    let v = editor::word_step(t, k, false);
    let b = r.edit_delete_word(false);
    lemma_pos(t, v);
    assert(t.take(v) + none + t.skip(k) =~= t.take(v) + t.skip(k));
    assert(v == k ==> t.take(v) + t.skip(k) =~= t);
    assert(b.raw == t.take(v) + t.skip(k));
    assert(b.raw.take(v) =~= t.take(v));
    assert(is_word_before(t, k, v));
}

// ---------------------------------------------------------------------------
// Lines
// ---------------------------------------------------------------------------

/// Number of newlines among the first `k` characters.
pub open spec fn line_of(t: Seq<char>, k: int) -> nat {
    t.take(k).to_multiset().count('\n')
}

/// Whether `s` is where the line of position `k` begins.
pub open spec fn is_line_start(t: Seq<char>, k: int, s: int) -> bool {
    &&& 0 <= s <= k
    &&& s > 0 ==> t[s - 1] == '\n'
    &&& forall|x: int| s <= x < k ==> t[x] != '\n'
}

/// Whether `e` is where the line of position `k` ends.
pub open spec fn is_line_end(t: Seq<char>, k: int, e: int) -> bool {
    &&& k <= e <= t.len()
    &&& e < t.len() ==> t[e] == '\n'
    &&& forall|x: int| k <= x < e ==> t[x] != '\n'
}

proof fn lemma_line_of(t: Seq<char>, k: int)
    requires
        0 <= k <= t.len(),
    ensures
        editor::newlines_before(t, k) == line_of(t, k),
    decreases k,
{
    t.take(k).to_multiset_ensures();
    if k > 0 {
        lemma_line_of(t, k - 1);
        t.take(k - 1).to_multiset_ensures();
        assert(t.take(k) =~= t.take(k - 1).push(t[k - 1]));
    }
}

proof fn lemma_line_begin(t: Seq<char>, k: int)
    requires
        0 <= k <= t.len(),
    ensures
        is_line_start(t, k, editor::line_begin(t, k)),
        editor::newlines_before(t, editor::line_begin(t, k)) == editor::newlines_before(t, k),
    decreases k,
{
    if k > 0 && t[k - 1] != '\n' {
        lemma_line_begin(t, k - 1);
    }
}

/// The newlines up to a position grow with it.
proof fn lemma_newlines_grow(t: Seq<char>, a: int, b: int)
    requires
        0 <= a <= b <= t.len(),
    ensures
        editor::newlines_before(t, a) <= editor::newlines_before(t, b),
    decreases b,
{
    if a < b {
        lemma_newlines_grow(t, a, b - 1);
    }
}

proof fn lemma_line_start(t: Seq<char>, n: int, i: int)
    requires
        0 <= i <= t.len(),
        0 <= n,
        n == 0 ==> i == 0 || t[i - 1] == '\n',
    ensures
        ({
            let s = editor::line_start_index(t, n, i);
            let have = editor::newlines_before(t, t.len() as int) - editor::newlines_before(t, i);
            &&& i <= s <= t.len()
            &&& n <= have ==> editor::newlines_before(t, s) == editor::newlines_before(t, i) + n
            &&& n <= have ==> s == 0 || t[s - 1] == '\n'
            &&& n > have ==> s == t.len()
        }),
    decreases t.len() - i,
{
    if n > 0 && i < t.len() {
        if t[i] == '\n' {
            lemma_line_start(t, n - 1, i + 1);
        } else {
            lemma_line_start(t, n, i + 1);
        }
    } else if n == 0 {
        lemma_newlines_grow(t, i, t.len() as int);
    }
}

/// A position with as many newlines before it as another lies on the same line.
proof fn lemma_same_line(t: Seq<char>, a: int, b: int)
    requires
        0 <= a <= b <= t.len(),
        editor::newlines_before(t, a) == editor::newlines_before(t, b),
    ensures
        forall|x: int| a <= x < b ==> t[x] != '\n',
    decreases b,
{
    if a < b {
        lemma_newlines_grow(t, a, b - 1);
        lemma_same_line(t, a, b - 1);
    }
}

proof fn lemma_edges(t: Seq<char>, k: int)
    requires
        0 <= k <= t.len(),
    ensures
        ({
            let s = editor::line_start_index(t, editor::newlines_before(t, k), 0);
            &&& is_line_start(t, k, s)
            &&& is_line_end(t, k, editor::line_end_index(t, s))
        }),
{
    let n = editor::newlines_before(t, k);
    lemma_newlines_grow(t, 0, k);
    lemma_newlines_grow(t, k, t.len() as int);
    lemma_line_start(t, n, 0);
    let s = editor::line_start_index(t, n, 0);
    lemma_line_begin(t, k);
    let b = editor::line_begin(t, k);
    if s < b {
        lemma_same_line(t, s, b);
        assert(t[b - 1] == '\n');
    } else if s > k {
        lemma_same_line(t, k, s);
        assert(t[s - 1] == '\n');
    } else if s > b {
        assert(t[s - 1] == '\n');
    }
    text::lemma_first_char(t, '\n', s);
    let e = editor::line_end_index(t, s);
    if e < k {
        assert(t[e] == '\n');
    }
}

/// Home and End lead to the edges of the cursor's line.
pub proof fn law_edge_keys_stay_on_the_line(r: reader::ReaderModel, k: int)
    requires
        stands_before(r, k),
        is_countable(r.raw),
    ensures
        exists|s: int|
            #[trigger] is_line_start(r.raw, k, s) && stands_before(r.edit_move_line_edge(false), s),
        exists|e: int|
            #[trigger] is_line_end(r.raw, k, e) && stands_before(r.edit_move_line_edge(true), e),
        r.edit_move_line_edge(false).raw == r.raw,
        r.edit_move_line_edge(true).raw == r.raw,
{
    lemma_index(r, k);
    lemma_edges(r.raw, k);
    let s = editor::line_start_index(r.raw, editor::newlines_before(r.raw, k), 0);
    let e = editor::line_end_index(r.raw, s);
    lemma_cursor_to(r, s);
    lemma_cursor_to(r, e);
    assert(is_line_start(r.raw, k, s));
    assert(is_line_end(r.raw, k, e));
}

/// Where the rows on screen show no source, the vertical arrows move the cursor by lines:
/// it comes to the line that many further, where there is one, at the same column, or at
/// the end of a shorter line.
pub proof fn law_vertical_keys_move_by_line(r: reader::ReaderModel, k: int, delta: int, s: int)
    requires
        stands_before(r, k),
        is_countable(r.raw),
        r.row_towards(delta) is None,
        0 <= line_of(r.raw, k) + delta <= line_of(r.raw, r.raw.len() as int),
        is_line_start(r.raw, k, s),
    ensures
        exists|j: int, b: int, e: int|
            {
                let a = r.edit_move_vertical(delta);
                &&& stands_before(a, j)
                &&& a.raw == r.raw
                &&& line_of(r.raw, j) == line_of(r.raw, k) + delta
                &&& #[trigger] is_line_start(r.raw, j, b)
                &&& #[trigger] is_line_end(r.raw, j, e)
                &&& j - b == (if k - s <= e - b {
                    k - s
                } else {
                    e - b
                })
            },
{
    let t = r.raw;
    let n = t.len() as int;
    lemma_index(r, k);
    lemma_line_of(t, k);
    lemma_line_of(t, n);
    lemma_line_begin(t, k);
    let begin = editor::line_begin(t, k);
    assert(begin == s) by {
        if begin < s {
            assert(t[s - 1] == '\n');
        } else if s < begin {
            assert(t[begin - 1] == '\n');
        }
    }
    let line = editor::newlines_before(t, k) + delta;
    assert(line <= n) by {
        lemma_newlines_bound(t, n);
    }
    lemma_pos(t, n);
    lemma_bytes_bound(t, n);
    assert(reader::shifted(editor::newlines_before(t, k), delta) == line);
    assert(text::sat(line) == line);
    lemma_line_start(t, line, 0);
    let b = editor::line_start_index(t, line, 0);
    let e = editor::line_end_index(t, b);
    text::lemma_first_char(t, '\n', b);
    let j = editor::line_col_index(t, line, k - begin);
    assert(b <= j <= e <= n);
    lemma_no_newlines(t, b, j);
    lemma_line_of(t, j);
    lemma_cursor_to(r, j);
    assert(is_line_start(t, j, b));
    assert(is_line_end(t, j, e));
}

proof fn lemma_newlines_bound(t: Seq<char>, k: int)
    requires
        0 <= k <= t.len(),
    ensures
        0 <= editor::newlines_before(t, k) <= k,
    decreases k,
{
    if k > 0 {
        lemma_newlines_bound(t, k - 1);
    }
}

proof fn lemma_bytes_bound(t: Seq<char>, k: int)
    requires
        0 <= k <= t.len(),
    ensures
        k <= bytes::byte_pos(t, k),
    decreases k,
{
    bytes::lemma_byte_pos_ends(t);
    if k > 0 {
        lemma_bytes_bound(t, k - 1);
        bytes::lemma_byte_pos_step(t, k - 1);
        bytes::lemma_utf8_width(t[k - 1]);
    }
}

proof fn lemma_no_newlines(t: Seq<char>, a: int, b: int)
    requires
        0 <= a <= b <= t.len(),
        forall|x: int| a <= x < b ==> t[x] != '\n',
    ensures
        editor::newlines_before(t, a) == editor::newlines_before(t, b),
    decreases b,
{
    if a < b {
        lemma_no_newlines(t, a, b - 1);
    }
}

// ---------------------------------------------------------------------------
// Clicks
// ---------------------------------------------------------------------------

proof fn lemma_cols_bound(t: Seq<char>, n: int)
    requires
        0 <= n <= t.len(),
        forall|x: int| 0 <= x < t.len() ==> text::cols(#[trigger] t[x]) == 1,
        t.len() <= usize::MAX,
    ensures
        bytes::cols_before(t, n) == n,
    decreases n,
{
    if n > 0 {
        lemma_cols_bound(t, n - 1);
    }
}

proof fn lemma_col_index(t: Seq<char>, i: int, k: int)
    requires
        0 <= i <= k <= t.len(),
        forall|x: int| 0 <= x < t.len() ==> text::cols(#[trigger] t[x]) == 1,
    ensures
        bytes::col_index(t, i, i, k) == k,
    decreases k - i,
{
    if i < k {
        lemma_col_index(t, i + 1, k);
    }
}

/// A click on the cell that shows a character of the source pane puts the cursor before
/// that character, and the cursor is then drawn in that cell. The row is one of characters
/// of one column each.
pub proof fn law_click_finds_the_character(row: raw::RawRowView, k: int)
    requires
        0 <= k <= row.text.len() <= usize::MAX,
        0 <= row.start,
        row.start + encode_utf8(row.text).len() <= usize::MAX,
        forall|x: int| 0 <= x < row.text.len() ==> text::cols(#[trigger] row.text[x]) == 1,
    ensures
        raw::clicked(seq![row], 0, k as usize) == row.start + encode_utf8(row.text.take(k)).len(),
        raw::cursor_col(row, row.start + encode_utf8(row.text.take(k)).len()) == k,
{
    lemma_col_index(row.text, 0, k);
    lemma_pos(row.text, k);
    bytes::lemma_byte_pos_ends(row.text);
    bytes::lemma_byte_pos_monotone(row.text, k, row.text.len() as int);
    bytes::lemma_floor_of_pos(row.text, k);
    bytes::lemma_byte_pos_monotone(row.text, 0, k);
    let part = row.text.subrange(0, k);
    assert forall|x: int| 0 <= x < part.len() implies text::cols(#[trigger] part[x]) == 1 by {
        assert(part[x] == row.text[x]);
    }
    lemma_cols_bound(part, k);
}

} // verus!
