//! Source text wrapped for editing: each display row knows its source bytes.

use vstd::prelude::*;
use crate::app::Rect;
use crate::bytes;
use crate::bytes::{char_bytes, chars_of, find_col, offset_of, sum_cols};
use crate::text;
use crate::text::from_chars;
use crate::views;

verus! {

broadcast use crate::views::group_views;

/// One display row of source text and the bytes `start..end` it shows.
#[derive(Debug)]
pub struct RawRow {
    pub text: String,
    pub start: usize,
    pub end: usize,
}

/// What a [`RawRow`] holds.
pub struct RawRowView {
    pub text: Seq<char>,
    pub start: int,
    pub end: int,
}

impl View for RawRow {
    type V = RawRowView;

    open spec fn view(&self) -> RawRowView {
        RawRowView { text: self.text@, start: self.start as int, end: self.end as int }
    }
}

/// End of the row that begins at `i`: before the next newline, and before the
/// first character after `i` that does not fit into `width` columns.
pub open spec fn row_end(t: Seq<char>, i: int, j: int, used: int, width: int) -> int
    decreases t.len() - j,
{
    if j >= t.len() {
        t.len() as int
    } else if t[j] == '\n' || (j > i && used + text::cols(t[j]) > width) {
        j
    } else {
        row_end(t, i, j + 1, used + text::cols(t[j]), width)
    }
}

pub proof fn lemma_row_end(t: Seq<char>, i: int, j: int, used: int, width: int)
    requires
        0 <= i <= j <= t.len(),
    ensures
        j <= row_end(t, i, j, used, width) <= t.len(),
        j == i && i < t.len() && t[i] != '\n' ==> row_end(t, i, j, used, width) > i,
    decreases t.len() - j,
{
    if j < t.len() && !(t[j] == '\n' || (j > i && used + text::cols(t[j]) > width)) {
        lemma_row_end(t, i, j + 1, used + text::cols(t[j]), width);
    }
}

/// Where the row after one that ends at `e` begins.
pub open spec fn row_next(t: Seq<char>, e: int) -> int {
    if 0 <= e < t.len() && t[e] == '\n' {
        e + 1
    } else {
        e
    }
}

/// The rows of the text from `i` on.
pub open spec fn rows_from(t: Seq<char>, width: int, i: int) -> Seq<RawRowView>
    decreases t.len() - i,
{
    if i < 0 || i > t.len() {
        Seq::empty()
    } else {
        proof {
            lemma_row_end(t, i, i, 0, width);
        }
        let e = row_end(t, i, i, 0, width);
        let row = RawRowView {
            text: t.subrange(i, e),
            start: bytes::byte_pos(t, i),
            end: bytes::byte_pos(t, e),
        };
        if e >= t.len() {
            seq![row]
        } else {
            seq![row] + rows_from(t, width, row_next(t, e))
        }
    }
}

/// The rows of a text wrapped to `width` columns; there is always one.
pub open spec fn raw_rows(t: Seq<char>, width: int) -> Seq<RawRowView> {
    rows_from(t, width, 0)
}

/// Wraps source text for display.
pub fn render_raw_pane(raw: &str, width: usize) -> (r: Vec<RawRow>)
    ensures
        views::views(r@) == raw_rows(raw@, width as int),
        r@.len() > 0,
{
    let cs = chars_of(raw);
    let n = cs.len();
    let ghost t = cs@;
    let ghost whole = raw_rows(t, width as int);
    let mut out: Vec<RawRow> = Vec::new();
    let mut i: usize = 0;
    let mut b: usize = 0;
    proof {
        bytes::lemma_byte_pos_ends(t);
        assert(views::views(out@) + rows_from(t, width as int, 0) =~= whole);
    }
    loop
        invariant
            t == cs@,
            t == raw@,
            n == t.len(),
            i <= n,
            b == bytes::byte_pos(t, i as int),
            bytes::byte_count(t) <= usize::MAX,
            whole == raw_rows(t, width as int),
            views::views(out@) + rows_from(t, width as int, i as int) == whole,
        decreases n + 1 - i,
    {
        let mut e: usize = i;
        let mut used: usize = 0;
        let mut eb: usize = b;
        while e < n && cs[e] != '\n' && (e == i || (used <= width && text::char_cols(cs[e]) <= width
            - used))
            invariant
                t == cs@,
                n == t.len(),
                i <= e <= n,
                eb == bytes::byte_pos(t, e as int),
                bytes::byte_count(t) <= usize::MAX,
                used <= width || (used <= 3 && e == i + 1),
                row_end(t, i as int, i as int, 0, width as int) == row_end(
                    t,
                    i as int,
                    e as int,
                    used as int,
                    width as int,
                ),
                e == i ==> used == 0,
            decreases n - e,
        {
            proof {
                bytes::lemma_byte_pos_step(t, e as int);
                bytes::lemma_byte_pos_monotone(t, e + 1, n as int);
                bytes::lemma_byte_pos_ends(t);
            }
            used = used + text::char_cols(cs[e]);
            eb = eb + char_bytes(cs[e]);
            e = e + 1;
        }
        let ghost prev = views::views(out@);
        let ghost row = RawRowView {
            text: t.subrange(i as int, e as int),
            start: b as int,
            end: eb as int,
        };
        assert(e == row_end(t, i as int, i as int, 0, width as int));
        out.push(RawRow { text: from_chars(&cs, i, e), start: b, end: eb });
        if e >= n {
            assert(rows_from(t, width as int, i as int) =~= seq![row]);
            assert(views::views(out@) =~= whole);
            return out;
        }
        proof {
            lemma_row_end(t, i as int, i as int, 0, width as int);
            bytes::lemma_byte_pos_step(t, e as int);
            bytes::lemma_utf8_width('\n');
            bytes::lemma_byte_pos_monotone(t, e + 1, n as int);
            bytes::lemma_byte_pos_ends(t);
            let rest = rows_from(t, width as int, row_next(t, e as int));
            assert(prev + (seq![row] + rest) =~= views::views(out@) + rest);
        }
        if cs[e] == '\n' {
            i = e + 1;
            b = eb + 1;
        } else {
            i = e;
            b = eb;
        }
    }
}

/// The rows that begin at or before byte `src`.
pub open spec fn row_begins_by(src: usize) -> spec_fn(RawRowView) -> bool {
    |r: RawRowView| r.start <= src
}

/// The row that shows byte `src`: the last that begins at or before it.
pub open spec fn cursor_row(rows: Seq<RawRowView>, src: usize) -> int {
    match views::last_where(rows, row_begins_by(src), rows.len() as int) {
        Some(i) => i,
        None => 0,
    }
}

/// Finds the row that shows byte `src`.
pub fn raw_row_for_cursor(rows: &[RawRow], src: usize) -> (r: usize)
    ensures
        r == cursor_row(views::views(rows@), src),
        rows@.len() > 0 ==> r < rows@.len(),
{
    let ghost vs = views::views(rows@);
    let mut i: usize = rows.len();
    while i > 0
        invariant
            vs == views::views(rows@),
            i <= rows@.len(),
            views::last_where(vs, row_begins_by(src), rows@.len() as int) == views::last_where(
                vs,
                row_begins_by(src),
                i as int,
            ),
        decreases i,
    {
        if rows[i - 1].start <= src {
            return i - 1;
        }
        i = i - 1;
    }
    0
}

/// Source byte at display column `col` of a row.
pub open spec fn byte_at_col(row: RawRowView, col: int) -> usize {
    text::sat(row.start + bytes::byte_pos(row.text, bytes::col_index(row.text, 0, 0, col)))
}

/// Source byte that a click on a row and column stands for; a click below the
/// last row counts for the last.
pub open spec fn clicked(rows: Seq<RawRowView>, row: usize, col: usize) -> usize {
    if rows.len() == 0 {
        0
    } else {
        byte_at_col(
            rows[if row < rows.len() {
                row as int
            } else {
                rows.len() - 1
            }],
            col as int,
        )
    }
}

/// Source byte that a click on a row and column stands for.
pub fn raw_click_to_source(rows: &[RawRow], row: usize, col: usize) -> (r: usize)
    ensures
        r == clicked(views::views(rows@), row, col),
{
    let n = rows.len();
    if n == 0 {
        return 0;
    }
    let at = if row < n {
        row
    } else {
        n - 1
    };
    let cs = chars_of(&rows[at].text);
    let len = cs.len();
    let k = find_col(&cs, 0, len, col);
    assert(cs@.subrange(0, len as int) =~= cs@);
    rows[at].start.saturating_add(offset_of(&cs, k))
}

/// Display column of byte `src` within the row that shows it.
pub open spec fn cursor_col(row: RawRowView, src: int) -> usize {
    let k = bytes::floor_index(
        row.text,
        if src > row.start {
            src - row.start
        } else {
            0
        },
    );
    bytes::cols_before(row.text.subrange(0, k), k)
}

/// Display column of byte `src` within `row`.
pub fn column_of(row: &RawRow, src: usize) -> (c: usize)
    ensures
        c == cursor_col(row@, src as int),
{
    let cs = chars_of(&row.text);
    let (k, _) = bytes::locate(&cs, src.saturating_sub(row.start));
    sum_cols(&cs, 0, k)
}

/// The cell of a pane that the cursor stands on, where it is in view: `rows` are shown
/// from the `scroll`th on.
pub open spec fn cell_of_cursor(
    rows: Seq<RawRowView>,
    src: usize,
    scroll: u16,
    area: Rect,
) -> Option<(u16, u16)> {
    let row = cursor_row(rows, src);
    if rows.len() == 0 || row < scroll {
        None
    } else {
        let x = area.x + cursor_col(rows[row], src as int);
        let y = area.y + (row - scroll);
        if x < area.x + area.width && y < area.y + area.height && x <= u16::MAX && y <= u16::MAX {
            Some((x as u16, y as u16))
        } else {
            None
        }
    }
}

/// The cell of a pane that the cursor stands on.
pub fn cursor_cell(rows: &[RawRow], src: usize, scroll: u16, area: Rect) -> (r: Option<(u16, u16)>)
    ensures
        r == cell_of_cursor(views::views(rows@), src, scroll, area),
{
    if rows.len() == 0 {
        return None;
    }
    let row = raw_row_for_cursor(rows, src);
    if row < scroll as usize {
        return None;
    }
    let down = row - scroll as usize;
    let col = column_of(&rows[row], src);
    if col >= area.width as usize || down >= area.height as usize {
        return None;
    }
    let x: usize = area.x as usize + col;
    let y: usize = area.y as usize + down;
    if x <= u16::MAX as usize && y <= u16::MAX as usize {
        Some((x as u16, y as u16))
    } else {
        None
    }
}

} // verus!
