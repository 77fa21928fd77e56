//! What a selection copies.

use vstd::prelude::*;
use crate::app;
use crate::app::Selection;
use crate::laws_shown::{lemma_shown_concat, lemma_shown_push, shown};
use crate::reader;
use crate::selection;
use crate::style;
use crate::text;

verus! {

// ---------------------------------------------------------------------------
// Columns of a line
// ---------------------------------------------------------------------------

/// The column where character `k` of a text begins.
pub open spec fn col_of(t: Seq<char>, k: int) -> int
    decreases k,
{
    if k <= 0 {
        0
    } else {
        col_of(t, k - 1) + text::cols(t[k - 1])
    }
}

/// Whether the columns of a text can be counted.
pub open spec fn is_narrow(t: Seq<char>) -> bool {
    col_of(t, t.len() as int) < usize::MAX
}

/// Whether `part` is what stands within the columns `from..to` of a text: a stretch of it
/// that holds the characters that lie there and no others. Whether characters without
/// width at the very end belong to it is left open.
pub open spec fn is_cut(part: Seq<char>, t: Seq<char>, from: int, to: int) -> bool {
    exists|a: int, b: int|
        0 <= a <= b <= t.len() && part == #[trigger] t.subrange(a, b) && cut_holds(t, a, b, from, to)
}

/// Whether the characters `a..b` of a text are those within the columns `from..to`.
pub open spec fn cut_holds(t: Seq<char>, a: int, b: int, from: int, to: int) -> bool {
    &&& forall|k: int| a <= k < b ==> from <= #[trigger] col_of(t, k) && col_of(t, k + 1) <= to
    &&& forall|k: int|
        0 <= k < t.len() && from <= #[trigger] col_of(t, k) && col_of(t, k) < to && col_of(t, k + 1)
            <= to ==> a <= k < b
}

proof fn lemma_col_grows(t: Seq<char>, i: int, j: int)
    requires
        0 <= i <= j,
    ensures
        0 <= col_of(t, i) <= col_of(t, j),
    decreases j,
{
    if i < j {
        lemma_col_grows(t, i, j - 1);
    } else if j > 0 {
        lemma_col_grows(t, j - 1, j - 1);
    }
}

/// What a span gives from character `i` on is a stretch of it.
proof fn lemma_span_cut(t: Seq<char>, i: int, from: usize, to: usize) -> (r: (int, int))
    requires
        0 <= i <= t.len(),
        is_narrow(t),
        col_of(t, i) < to,
    ensures
        i <= r.0 <= r.1 <= t.len(),
        selection::span_part(t, i, col_of(t, i) as usize, from, to).0 == t.subrange(r.0, r.1),
        forall|k: int|
            r.0 <= k < r.1 ==> from <= #[trigger] col_of(t, k) && col_of(t, k + 1) <= to,
        forall|k: int|
            i <= k < t.len() && from <= #[trigger] col_of(t, k) && col_of(t, k) < to && col_of(
                t,
                k + 1,
            ) <= to ==> r.0 <= k < r.1,
    decreases t.len() - i,
{
    let n = t.len() as int;
    lemma_col_grows(t, i, n);
    if i == n {
        assert(t.subrange(n, n) =~= Seq::<char>::empty());
        (n, n)
    } else {
        lemma_col_grows(t, i + 1, n);
        let next = col_of(t, i + 1);
        assert(next == col_of(t, i) + text::cols(t[i]));
        let within = col_of(t, i) >= from && next <= to;
        assert forall|k: int| i < k < n implies next <= #[trigger] col_of(t, k) by {
            lemma_col_grows(t, i + 1, k);
        }
        if next >= to {
            if within {
                assert(t.subrange(i, i + 1) =~= seq![t[i]]);
                (i, i + 1)
            } else {
                assert(t.subrange(i, i) =~= Seq::<char>::empty());
                (i, i)
            }
        } else {
            let (a, b) = lemma_span_cut(t, i + 1, from, to);
            let rest = selection::span_part(t, i + 1, next as usize, from, to).0;
            if !within {
                assert(Seq::<char>::empty() + rest =~= rest);
                (a, b)
            } else if a == b {
                assert(seq![t[i]] + rest =~= t.subrange(i, i + 1));
                (i, i + 1)
            } else {
                if a > i + 1 {
                    assert(from <= col_of(t, i + 1));
                    assert(col_of(t, i + 2) > to);
                    lemma_col_grows(t, i + 2, a + 1);
                    assert(from <= col_of(t, a));
                    assert(false);
                }
                assert(seq![t[i]] + rest =~= t.subrange(i, b));
                (i, b)
            }
        }
    }
}

proof fn lemma_span_shift(
    a: Seq<char>,
    b: Seq<char>,
    j: int,
    col: usize,
    from: usize,
    to: usize,
)
    requires
        0 <= j <= b.len(),
    ensures
        selection::span_part(a + b, a.len() + j, col, from, to) == selection::span_part(
            b,
            j,
            col,
            from,
            to,
        ),
    decreases b.len() - j,
{
    if j < b.len() {
        assert((a + b)[a.len() + j] == b[j]);
        let next = text::sat(col + text::cols(b[j]));
        lemma_span_shift(a, b, j + 1, next, from, to);
    }
}

/// Two spans side by side are cut as one.
proof fn lemma_span_concat(
    a: Seq<char>,
    b: Seq<char>,
    i: int,
    col: usize,
    from: usize,
    to: usize,
)
    requires
        0 <= i <= a.len(),
        col < to,
    ensures
        ({
            let (h, e) = selection::span_part(a, i, col, from, to);
            selection::span_part(a + b, i, col, from, to).0 == if e >= to {
                h
            } else {
                h + selection::span_part(b, 0, e, from, to).0
            }
        }),
    decreases a.len() - i,
{
    if i == a.len() {
        lemma_span_shift(a, b, 0, col, from, to);
        let p = selection::span_part(b, 0, col, from, to).0;
        assert(Seq::<char>::empty() + p =~= p);
        assert(a.len() + 0 == i);
    } else {
        assert((a + b)[i] == a[i]);
        let next = text::sat(col + text::cols(a[i]));
        if next < to {
            lemma_span_concat(a, b, i + 1, next, from, to);
            let (h, e) = selection::span_part(a, i, col, from, to);
            let (h2, e2) = selection::span_part(a, i + 1, next, from, to);
            let here = if col >= from && next <= to {
                seq![a[i]]
            } else {
                Seq::empty()
            };
            let p = selection::span_part(b, 0, e2, from, to).0;
            assert(here + (h2 + p) =~= (here + h2) + p);
        }
    }
}

/// The spans of a line are cut as the text they show.
proof fn lemma_line_as_span(
    spans: Seq<style::SpanView>,
    k: int,
    col: usize,
    from: usize,
    to: usize,
)
    requires
        0 <= k <= spans.len(),
        col < to,
    ensures
        selection::line_part(spans, k, col, from, to) == selection::span_part(
            shown(spans.skip(k)),
            0,
            col,
            from,
            to,
        ).0,
    decreases spans.len() - k,
{
    if k == spans.len() {
        assert(spans.skip(k) =~= Seq::empty());
        assert(shown(spans.skip(k)) =~= Seq::<char>::empty());
    } else {
        let rest = spans.skip(k + 1);
        let t = spans[k].content;
        assert(spans.skip(k) =~= seq![spans[k]] + rest);
        lemma_shown_concat(seq![spans[k]], rest);
        lemma_shown_push(Seq::empty(), spans[k]);
        assert(Seq::empty().push(spans[k]) =~= seq![spans[k]]);
        assert(shown(Seq::empty()) =~= Seq::<char>::empty());
        assert(shown(seq![spans[k]]) =~= t);
        lemma_span_concat(t, shown(rest), 0, col, from, to);
        let (h, e) = selection::span_part(t, 0, col, from, to);
        if e < to {
            lemma_line_as_span(spans, k + 1, e, from, to);
        }
    }
}

/// What is taken of a line is what stands within the columns.
proof fn lemma_line_cut(spans: Seq<style::SpanView>, from: usize, to: usize)
    requires
        is_narrow(shown(spans)),
    ensures
        is_cut(
            selection::line_part(spans, 0, 0, from, to),
            shown(spans),
            from as int,
            to as int,
        ),
{
    let t = shown(spans);
    let part = selection::line_part(spans, 0, 0, from, to);
    assert(spans.skip(0) =~= spans);
    if to > 0 {
        lemma_line_as_span(spans, 0, 0, from, to);
        let (a, b) = lemma_span_cut(t, 0, from, to);
        assert(part == t.subrange(a, b));
        assert(cut_holds(t, a, b, from as int, to as int));
    } else {
        assert forall|k: int| 0 <= k implies 0 <= #[trigger] col_of(t, k) by {
            lemma_col_grows(t, 0, k);
        }
        if spans.len() == 0 || spans[0].content.len() == 0 {
            assert(t.subrange(0, 0) =~= part);
            assert(cut_holds(t, 0, 0, from as int, to as int));
        } else {
            let rest = spans.skip(1);
            assert(spans =~= seq![spans[0]] + rest);
            lemma_shown_concat(seq![spans[0]], rest);
            lemma_shown_push(Seq::empty(), spans[0]);
            assert(Seq::empty().push(spans[0]) =~= seq![spans[0]]);
            assert(shown(Seq::empty()) =~= Seq::<char>::empty());
            assert(t[0] == spans[0].content[0]);
            assert(col_of(t, 1) == col_of(t, 0) + text::cols(t[0]));
            if from == 0 && text::cols(t[0]) == 0 {
                assert(part =~= t.subrange(0, 1));
                assert(cut_holds(t, 0, 1, from as int, to as int));
            } else {
                assert(part =~= t.subrange(0, 0));
                assert(cut_holds(t, 0, 0, from as int, to as int));
            }
        }
    }
}

/// What stands within all columns of a text is the text.
proof fn lemma_whole_cut(part: Seq<char>, t: Seq<char>)
    requires
        is_narrow(t),
        is_cut(part, t, 0, usize::MAX as int),
    ensures
        part == t,
{
    let (a, b) = choose|a: int, b: int|
        0 <= a <= b <= t.len() && part == #[trigger] t.subrange(a, b) && cut_holds(
            t,
            a,
            b,
            0,
            usize::MAX as int,
        );
    let n = t.len() as int;
    if n > 0 {
        lemma_col_grows(t, 0, 0);
        lemma_col_grows(t, 1, n);
        lemma_col_grows(t, n - 1, n);
        assert(a <= 0 < b) by {
            assert(0 <= col_of(t, 0));
        }
        assert(a <= n - 1 < b) by {
            assert(0 <= col_of(t, n - 1));
        }
    }
    assert(t.subrange(a, b) =~= t);
}

// ---------------------------------------------------------------------------
// Selected text
// ---------------------------------------------------------------------------

/// Lines one after the other, parted by newlines.
pub open spec fn joined(parts: Seq<Seq<char>>) -> Seq<char>
    decreases parts.len(),
{
    if parts.len() == 0 {
        Seq::empty()
    } else if parts.len() == 1 {
        parts[0]
    } else {
        parts[0] + seq!['\n'] + joined(parts.skip(1))
    }
}

/// Whether `parts` is what a selection from `start` to `end` covers of each of its lines:
/// the first from the column where it starts, the last up to the column where it ends, and
/// all between in full. A selection that goes on below the document ends with it.
pub open spec fn covers(
    parts: Seq<Seq<char>>,
    lines: Seq<Seq<style::SpanView>>,
    start: (usize, u16),
    end: (usize, u16),
) -> bool {
    let n = parts.len() as int;
    let below = end.0 >= lines.len();
    &&& n == if below {
        lines.len() - start.0
    } else {
        end.0 - start.0 + 1
    }
    &&& forall|k: int| 0 < k < n - 1 ==> #[trigger] parts[k] == shown(lines[start.0 + k])
    &&& n == 1 && !below ==> is_cut(
        parts[0],
        shown(lines[start.0 as int]),
        start.1 as int,
        end.1 as int,
    )
    &&& n > 1 || below ==> is_cut(
        parts[0],
        shown(lines[start.0 as int]),
        start.1 as int,
        usize::MAX as int,
    )
    &&& n > 1 && !below ==> is_cut(parts[n - 1], shown(lines[end.0 as int]), 0, end.1 as int)
    &&& n > 1 && below ==> parts[n - 1] == shown(lines[lines.len() - 1])
}

proof fn lemma_selected(
    lines: Seq<Seq<style::SpanView>>,
    i: int,
    start: (usize, u16),
    end: (usize, u16),
) -> (parts: Seq<Seq<char>>)
    requires
        start.0 <= i < lines.len(),
        i <= end.0,
        forall|l: int| 0 <= l < lines.len() ==> is_narrow(shown(#[trigger] lines[l])),
    ensures
        selection::selected_from(lines, i, start, end) == joined(parts),
        parts.len() == if end.0 >= lines.len() {
            lines.len() - i
        } else {
            end.0 - i + 1
        },
        forall|k: int|
            0 <= k < parts.len() ==> is_cut(
                #[trigger] parts[k],
                shown(lines[i + k]),
                if i + k == start.0 {
                    start.1 as int
                } else {
                    0
                },
                if i + k == end.0 {
                    end.1 as int
                } else {
                    usize::MAX as int
                },
            ),
    decreases lines.len() - i,
{
    let here = selection::line_selected(lines[i], i, start, end);
    assert(is_narrow(shown(lines[i])));
    lemma_line_cut(
        lines[i],
        if i == start.0 {
            start.1 as usize
        } else {
            0
        },
        if i == end.0 {
            end.1 as usize
        } else {
            usize::MAX
        },
    );
    if i < end.0 && i + 1 < lines.len() {
        let rest = lemma_selected(lines, i + 1, start, end);
        let parts = seq![here] + rest;
        assert(parts.skip(1) =~= rest);
        assert forall|k: int| 0 <= k < parts.len() implies is_cut(
            #[trigger] parts[k],
            shown(lines[i + k]),
            if i + k == start.0 {
                start.1 as int
            } else {
                0
            },
            if i + k == end.0 {
                end.1 as int
            } else {
                usize::MAX as int
            },
        ) by {
            if k > 0 {
                assert(parts[k] == rest[k - 1]);
                assert(i + 1 + (k - 1) == i + k);
            }
        }
        parts
    } else {
        let parts = seq![here];
        parts
    }
}

/// What a selection covers, where it starts on a line of the document.
proof fn lemma_covers(
    lines: Seq<Seq<style::SpanView>>,
    start: (usize, u16),
    end: (usize, u16),
) -> (parts: Seq<Seq<char>>)
    requires
        start.0 < lines.len(),
        start.0 <= end.0,
        forall|l: int| 0 <= l < lines.len() ==> is_narrow(shown(#[trigger] lines[l])),
    ensures
        selection::selected_from(lines, start.0 as int, start, end) == joined(parts),
        covers(parts, lines, start, end),
{
    let parts = lemma_selected(lines, start.0 as int, start, end);
    let n = parts.len() as int;
    assert forall|k: int| 0 < k < n - 1 implies #[trigger] parts[k] == shown(
        lines[start.0 + k],
    ) by {
        assert(is_narrow(shown(lines[start.0 + k])));
        lemma_whole_cut(parts[k], shown(lines[start.0 + k]));
    }
    assert(is_cut(
        parts[0],
        shown(lines[start.0 as int]),
        start.1 as int,
        if start.0 == end.0 {
            end.1 as int
        } else {
            usize::MAX as int
        },
    )) by {
        let p = parts[0];
    }
    if n > 1 {
        let p = parts[n - 1];
        if end.0 >= lines.len() {
            assert(is_narrow(shown(lines[lines.len() - 1])));
            lemma_whole_cut(p, shown(lines[lines.len() - 1]));
        } else {
            assert(start.0 + (n - 1) == end.0);
        }
    }
    parts
}

/// A selection copies the text that it covers: the first line from the column where it
/// starts, the lines between in full, and the last line up to the column where it ends,
/// parted by newlines. It starts at the end of the drag that comes first in the document.
pub proof fn law_selection_copies_what_it_covers(r: reader::ReaderModel, sel: Selection)
    requires
        r.rendered is Some,
        forall|l: int|
            0 <= l < r.rendered->0.lines.len() ==> is_narrow(
                shown(#[trigger] r.rendered->0.lines[l]),
            ),
    ensures
        ({
            let lines = r.rendered->0.lines;
            let a = (sel.anchor_line, sel.anchor_col);
            let f = (sel.focus_line, sel.focus_col);
            let (start, end) = if a.0 < f.0 || (a.0 == f.0 && a.1 <= f.1) {
                (a, f)
            } else {
                (f, a)
            };
            let got = r.selected_text(sel);
            &&& got is Some
            &&& start.0 >= lines.len() ==> got->0.len() == 0
            &&& start.0 < lines.len() ==> exists|parts: Seq<Seq<char>>|
                got->0 == #[trigger] joined(parts) && covers(parts, lines, start, end)
        }),
{
    let lines = r.rendered->0.lines;
    let (start, end) = sel.ordered();
    if start.0 < lines.len() {
        let parts = lemma_covers(lines, start, end);
        assert(r.selected_text(sel)->0 == joined(parts));
    }
}

// ---------------------------------------------------------------------------
// Cells of the screen
// ---------------------------------------------------------------------------

/// The cells of the body show the document from the scroll position on: one row further
/// down is the next line, one column further right the next column, and the first column
/// beside the line numbers is column zero.
pub proof fn law_cells_follow_the_document(
    m: app::Model,
    r: reader::ReaderModel,
    col: u16,
    row: u16,
)
    requires
        m.view == app::Screen::Reader(r),
    ensures
        m.place_at(col, row) matches Some((line, c)) ==> {
            &&& m.viewport.x <= col < m.viewport.x + m.viewport.width
            &&& m.viewport.y <= row < m.viewport.y + m.viewport.height
            &&& line == r.scroll + (row - m.viewport.y)
            &&& c <= col - m.viewport.x
            &&& m.opts.line_numbers || c == col - m.viewport.x
        },
        !m.opts.line_numbers && m.viewport.has(col, row) ==> m.place_at(col, row) is Some,
        m.place_at(col, row) matches Some((line, c)) ==> col < u16::MAX && m.viewport.has(
            (col + 1) as u16,
            row,
        ) ==> m.place_at((col + 1) as u16, row) == Some((line, (c + 1) as u16)),
{
}

/// Dragging from one cell to another copies what lies between the places that the cells
/// show, if that is any text.
pub proof fn law_drag_copies_the_selection(
    m: app::Model,
    from: (u16, u16),
    to: (u16, u16),
    now: u64,
)
    requires
        m.doc() is Some,
        !m.is_double(from.0, from.1, now),
        m.place_at(from.0, from.1) is Some,
        m.place_at(to.0, to.1) is Some,
        m.place_at(from.0, from.1) != m.place_at(to.0, to.1),
    ensures
        ({
            let (a, f) = (m.place_at(from.0, from.1)->0, m.place_at(to.0, to.1)->0);
            let sel = Selection {
                anchor_line: a.0,
                anchor_col: a.1,
                focus_line: f.0,
                focus_col: f.1,
                dragged: true,
            };
            let got = m.doc()->0.selected_text(sel);
            let (after, e) = m.pressed(from.0, from.1, now).0.dragged(to.0, to.1).released();
            &&& got is Some && got->0.len() > 0 ==> e == app::EffectModel::Copy(got->0)
            &&& got is None || got->0.len() == 0 ==> e is Nothing
            &&& after.selection is None
            &&& after.view == m.view
        }),
{
}

} // verus!
