//! What a rendered table shows of its source.

use vstd::prelude::*;
use crate::laws_blocks;
use crate::laws_blocks::{blanks, Page};
use crate::laws_shown::{lemma_shown_push, shown};
use crate::links;
use crate::markdown;
use crate::markdown::BlockView;
use crate::parse::{EventView, MdTagEnd, TagView};
use crate::style;
use crate::style::{Color, Style};
use crate::table;
use crate::table::Align;
use crate::text;
use crate::wrap;
use crate::wrap::RunView;

verus! {

// ---------------------------------------------------------------------------
// Cells
// ---------------------------------------------------------------------------

/// The texts of runs.
pub open spec fn texts(rs: Seq<RunView>) -> Seq<Seq<char>> {
    rs.map_values(|r: RunView| r.text)
}

/// Columns of texts side by side.
pub open spec fn cols_of(ps: Seq<Seq<char>>) -> int
    decreases ps.len(),
{
    if ps.len() == 0 {
        0
    } else {
        text::display_width(ps[0]) + cols_of(ps.drop_first())
    }
}

/// The characters of a text one by one.
pub open spec fn letters(t: Seq<char>) -> Seq<Seq<char>> {
    t.map_values(|c: char| seq![c])
}

/// Whether `x` is as much of some texts as fits into one column less than `w`, and an
/// ellipsis.
pub open spec fn is_cut_text(x: Seq<char>, ps: Seq<Seq<char>>, w: int) -> bool {
    exists|m: int, e: int| #[trigger] is_cut_at(x, ps, w, m, e)
}

/// Whether the texts are cut behind `m` of them and `e` characters of the next.
pub open spec fn is_cut_at(x: Seq<char>, ps: Seq<Seq<char>>, w: int, m: int, e: int) -> bool {
    let room = if w > 0 {
        w - 1
    } else {
        0
    };
    &&& 0 <= m < ps.len()
    &&& 0 <= e <= ps[m].len()
    &&& x == ps.take(m).flatten() + ps[m].take(e) + seq!['…']
    &&& cols_of(ps.take(m)) + cols_of(letters(ps[m].take(e))) <= room
    &&& cols_of(ps.take(m)) + text::display_width(ps[m]) > room
    &&& e < ps[m].len() ==> cols_of(ps.take(m)) + cols_of(letters(ps[m].take(e)))
        + text::display_width(seq![ps[m][e]]) > room
}

/// Whether the spaces around a text are on the side that the column's alignment asks for.
pub open spec fn is_set(align: Align, left: nat, right: nat) -> bool {
    match align {
        Align::Right => right == 0,
        Align::Center => left <= right <= left + 1,
        _ => left == 0,
    }
}

pub open spec fn is_padded(part: Seq<char>, x: Seq<char>, left: nat, right: nat) -> bool {
    part == blanks(left) + x + blanks(right)
}

/// Whether a part of a line shows a cell in `w` columns: in full where it fits, and
/// otherwise cut. Columns are counted up to the largest `usize`.
pub open spec fn shows_cell(part: Seq<char>, ps: Seq<Seq<char>>, w: int, align: Align) -> bool {
    exists|x: Seq<char>, left: nat, right: nat|
        {
            &&& #[trigger] is_padded(part, x, left, right)
            &&& is_set(align, left, right)
            &&& cols_of(ps) <= w ==> x == ps.flatten() && left + cols_of(ps) + right == w
            &&& w < cols_of(ps) && w < usize::MAX ==> is_cut_text(x, ps, w)
        }
}

/// The cell of column `c`, empty where the row has none.
pub open spec fn cell_of(row: Seq<Seq<Seq<char>>>, c: int) -> Seq<Seq<char>> {
    if 0 <= c < row.len() {
        row[c]
    } else {
        Seq::empty()
    }
}

/// Parts between bars.
pub open spec fn framed(parts: Seq<Seq<char>>) -> Seq<char> {
    seq!['│'] + parts.map_values(|x: Seq<char>| seq![' '] + x + seq![' ', '│']).flatten()
}

/// Whether a line shows the cells of a row, column by column, between bars.
pub open spec fn shows_row(
    line: Seq<style::SpanView>,
    row: Seq<Seq<Seq<char>>>,
    ws: Seq<int>,
    aligns: Seq<Align>,
) -> bool {
    exists|parts: Seq<Seq<char>>|
        {
            &&& parts.len() == ws.len()
            &&& shown(line) == #[trigger] framed(parts)
            &&& forall|c: int|
                0 <= c < ws.len() ==> shows_cell(
                    #[trigger] parts[c],
                    cell_of(row, c),
                    ws[c],
                    if c < aligns.len() {
                        aligns[c]
                    } else {
                        Align::Unset
                    },
                )
        }
}

/// A border: for each column a stroke as wide as the column and a space on both sides, with
/// `mid` between them and `left` and `right` at the ends.
pub open spec fn ruled(ws: Seq<int>, left: char, mid: char, right: char) -> Seq<char>
    decreases ws.len(),
{
    if ws.len() == 0 {
        seq![left]
    } else {
        ruled(ws.drop_last(), left, mid, mid) + Seq::new(
            (ws.last() + 2) as nat,
            |k: int| '─',
        ) + seq![right]
    }
}

/// Whether a table stands in the lines from `row` on: a border, the header, a border, the
/// rows in order, and a border.
pub open spec fn shows_table(
    lines: Seq<Seq<style::SpanView>>,
    row: int,
    ws: Seq<int>,
    aligns: Seq<Align>,
    header: Seq<Seq<Seq<char>>>,
    rows: Seq<Seq<Seq<Seq<char>>>>,
) -> bool {
    &&& 0 <= row
    &&& row + 4 + rows.len() <= lines.len()
    &&& shown(lines[row]) == ruled(ws, '┌', '┬', '┐')
    &&& shows_row(lines[row + 1], header, ws, aligns)
    &&& shown(lines[row + 2]) == ruled(ws, '├', '┼', '┤')
    &&& forall|r: int|
        0 <= r < rows.len() ==> shows_row(lines[row + 3 + r], #[trigger] rows[r], ws, aligns)
    &&& shown(lines[row + 3 + rows.len()]) == ruled(ws, '└', '┴', '┘')
}

/// Whether no column is so wide that the largest `usize` cannot count it.
pub open spec fn are_countable(ws: Seq<usize>) -> bool {
    forall|c: int| 0 <= c < ws.len() ==> #[trigger] ws[c] + 2 <= usize::MAX
}

proof fn lemma_border(ws: Seq<usize>, left: char, mid: char, right: char, n: int)
    requires
        are_countable(ws),
        0 <= n <= ws.len(),
    ensures
        table::border_text(ws, left, mid, right, n) == ruled(
            as_ints(ws).take(n),
            left,
            mid,
            if n < ws.len() {
                mid
            } else {
                right
            },
        ),
    decreases n,
{
    if n > 0 {
        lemma_border(ws, left, mid, right, n - 1);
        let vs = as_ints(ws).take(n);
        assert(vs.drop_last() =~= as_ints(ws).take(n - 1));
        assert(vs.last() == ws[n - 1]);
        assert(ws[n - 1] + 2 <= usize::MAX);
        let stroke = Seq::new((vs.last() + 2) as nat, |k: int| '─');
        assert(text::repeated('─', text::sat(ws[n - 1] + 2) as nat) =~= stroke);
        let end = if n < ws.len() {
            mid
        } else {
            right
        };
        let before = table::border_text(ws, left, mid, right, n - 1);
        assert((before + stroke).push(end) =~= before + stroke + seq![end]);
    }
}

proof fn lemma_border_line(ws: Seq<usize>, left: char, mid: char, right: char, s: Style)
    requires
        are_countable(ws),
    ensures
        shown(table::border_view(ws, left, mid, right, s)) == ruled(as_ints(ws), left, mid, right),
{
    let n = ws.len() as int;
    let t = table::border_text(ws, left, mid, right, n);
    lemma_border(ws, left, mid, right, n);
    assert(as_ints(ws).take(n) =~= as_ints(ws));
    let line = table::border_view(ws, left, mid, right, s);
    assert(line.map_values(|x: style::SpanView| x.content) =~= seq![t]);
    seq![t].lemma_flatten_one_element();
}

proof fn lemma_flatten_front(a: Seq<char>, b: Seq<Seq<char>>)
    ensures
        (seq![a] + b).flatten() == a + b.flatten(),
{
    assert((seq![a] + b).drop_first() =~= b);
}

proof fn lemma_cols_front(a: Seq<char>, b: Seq<Seq<char>>)
    ensures
        cols_of(seq![a] + b) == text::display_width(a) + cols_of(b),
{
    assert((seq![a] + b).drop_first() =~= b);
}

proof fn lemma_cols_push(ps: Seq<Seq<char>>, a: Seq<char>)
    ensures
        cols_of(ps.push(a)) == cols_of(ps) + text::display_width(a),
        0 <= cols_of(ps),
    decreases ps.len(),
{
    reveal_with_fuel(cols_of, 2);
    if ps.len() > 0 {
        lemma_cols_push(ps.drop_first(), a);
        assert(ps.push(a).drop_first() =~= ps.drop_first().push(a));
    } else {
        assert(ps.push(a).drop_first() =~= Seq::empty());
    }
}

proof fn lemma_runs_width(rs: Seq<RunView>)
    ensures
        wrap::runs_width(rs) == text::sat(cols_of(texts(rs))),
        0 <= cols_of(texts(rs)),
    decreases rs.len(),
{
    if rs.len() > 0 {
        lemma_runs_width(rs.drop_last());
        lemma_cols_push(texts(rs.drop_last()), rs.last().text);
        assert(texts(rs) =~= texts(rs.drop_last()).push(rs.last().text));
    }
    lemma_cols_push(texts(rs), Seq::empty());
}

proof fn lemma_fit_end(t: Seq<char>, i: int, limit: int)
    requires
        0 <= i <= t.len(),
        cols_of(letters(t.take(i))) <= limit,
    ensures
        ({
            let e = wrap::fit_end(t, i, cols_of(letters(t.take(i))), limit);
            &&& i <= e <= t.len()
            &&& cols_of(letters(t.take(e))) <= limit
            &&& e < t.len() ==> cols_of(letters(t.take(e))) + text::display_width(seq![t[e]])
                > limit
        }),
    decreases t.len() - i,
{
    if i < t.len() {
        lemma_cols_push(letters(t.take(i)), seq![t[i]]);
        assert(letters(t.take(i + 1)) =~= letters(t.take(i)).push(seq![t[i]]));
        if cols_of(letters(t.take(i + 1))) <= limit {
            lemma_fit_end(t, i + 1, limit);
        }
    }
}

/// Runs cut to a width are some in full and the beginning of the next.
proof fn lemma_cut_runs(rs: Seq<RunView>, i: int, budget: int) -> (r: (int, int))
    requires
        0 <= i <= rs.len(),
        0 <= budget,
        cols_of(texts(rs).skip(i)) > budget,
    ensures
        ({
            let ps = texts(rs);
            let (m, e) = r;
            let full = ps.subrange(i, m);
            &&& i <= m < rs.len()
            &&& 0 <= e <= ps[m].len()
            &&& texts(table::cut_runs(rs, i, budget)).flatten() == full.flatten() + ps[m].take(e)
            &&& cols_of(full) + cols_of(letters(ps[m].take(e))) <= budget
            &&& cols_of(full) + text::display_width(ps[m]) > budget
            &&& e < ps[m].len() ==> cols_of(full) + cols_of(letters(ps[m].take(e)))
                + text::display_width(seq![ps[m][e]]) > budget
        }),
    decreases rs.len() - i,
{
    let ps = texts(rs);
    let cut = table::cut_runs(rs, i, budget);
    if i == rs.len() {
        assert(ps.skip(i) =~= Seq::empty());
        assert(false);
        (0, 0)
    } else {
        let w = text::display_width(ps[i]);
        assert(ps.skip(i) =~= seq![ps[i]] + ps.skip(i + 1));
        lemma_cols_front(ps[i], ps.skip(i + 1));
        if w <= budget {
            let (m, e) = lemma_cut_runs(rs, i + 1, budget - w);
            let more = table::cut_runs(rs, i + 1, budget - w);
            assert(texts(cut) =~= seq![ps[i]] + texts(more));
            lemma_flatten_front(ps[i], texts(more));
            assert(ps.subrange(i, m) =~= seq![ps[i]] + ps.subrange(i + 1, m));
            lemma_flatten_front(ps[i], ps.subrange(i + 1, m));
            lemma_cols_front(ps[i], ps.subrange(i + 1, m));
            assert(texts(cut).flatten() =~= ps.subrange(i, m).flatten() + ps[m].take(e));
            (m, e)
        } else {
            let t = ps[i];
            assert(t.take(0) =~= Seq::empty());
            assert(letters(t.take(0)) =~= Seq::empty());
            lemma_fit_end(t, 0, budget);
            let e = wrap::fit_end(t, 0, 0, budget);
            assert(ps.subrange(i, i) =~= Seq::empty());
            assert(ps.subrange(i, i).flatten() =~= Seq::<char>::empty());
            if e > 0 {
                assert(texts(cut) =~= seq![t.take(e)]);
                seq![t.take(e)].lemma_flatten_one_element();
            } else {
                assert(texts(cut) =~= Seq::empty());
                assert(texts(cut).flatten() =~= Seq::<char>::empty());
            }
            assert(texts(cut).flatten() =~= ps.subrange(i, i).flatten() + t.take(e));
            (i, e)
        }
    }
}

proof fn lemma_truncated(rs: Seq<RunView>, w: usize)
    ensures
        ({
            let x = texts(table::truncated(rs, w)).flatten();
            &&& cols_of(texts(rs)) <= w ==> table::truncated(rs, w) == rs
            &&& w < cols_of(texts(rs)) && w < usize::MAX ==> is_cut_text(x, texts(rs), w as int)
        }),
{
    lemma_runs_width(rs);
    let ps = texts(rs);
    if w < cols_of(ps) && w < usize::MAX {
        let budget: int = if w > 0 {
            w - 1
        } else {
            0
        };
        assert(ps.skip(0) =~= ps);
        let (m, e) = lemma_cut_runs(rs, 0, budget);
        let cut = table::cut_runs(rs, 0, budget);
        let dots = wrap::plain_run("…"@, Style::plain());
        assert(texts(cut.push(dots)) =~= texts(cut).push("…"@));
        texts(cut).lemma_flatten_push("…"@);
        reveal_strlit("…");
        assert("…"@ =~= seq!['…']);
        assert(ps.subrange(0, m) =~= ps.take(m));
        let x = texts(table::truncated(rs, w)).flatten();
        assert(is_cut_at(x, ps, w as int, m, e));
    }
}

// ---------------------------------------------------------------------------
// Rows
// ---------------------------------------------------------------------------

proof fn lemma_row_runs(
    p: table::RowPen,
    rs: Seq<RunView>,
    head: Option<Color>,
    line: usize,
    targets: Seq<links::TargetView>,
)
    ensures
        shown(p.runs(rs, head, line, targets).spans) == shown(p.spans) + texts(rs).flatten(),
    decreases rs.len(),
{
    if rs.len() == 0 {
        assert(texts(rs).flatten() =~= Seq::<char>::empty());
        assert(shown(p.spans) + Seq::<char>::empty() =~= shown(p.spans));
    } else {
        let init = rs.drop_last();
        lemma_row_runs(p, init, head, line, targets);
        let q = p.runs(init, head, line, targets);
        let a = p.runs(rs, head, line, targets);
        let t = rs.last().text;
        assert(a.spans.drop_last() =~= q.spans);
        assert(a.spans =~= q.spans.push(a.spans.last()));
        lemma_shown_push(q.spans, a.spans.last());
        assert(texts(rs) =~= texts(init).push(t));
        texts(init).lemma_flatten_push(t);
        assert(shown(p.spans) + texts(init).flatten() + t =~= shown(p.spans) + (
        texts(init).flatten() + t));
    }
}

proof fn lemma_pad(p: table::RowPen, n: usize)
    ensures
        shown(p.pad(n).spans) == shown(p.spans) + blanks(n as nat),
{
    if n > 0 {
        assert(text::repeated(' ', n as nat) =~= blanks(n as nat));
        lemma_shown_push(p.spans, style::span(text::repeated(' ', n as nat), Style::plain()));
    } else {
        assert(shown(p.spans) + blanks(0) =~= shown(p.spans));
    }
}

proof fn lemma_cell(
    p: table::RowPen,
    cell: Seq<RunView>,
    w: usize,
    align: Align,
    head: Option<Color>,
    border: Style,
    line: usize,
    targets: Seq<links::TargetView>,
) -> (part: Seq<char>)
    ensures
        shows_cell(part, texts(cell), w as int, align),
        shown(p.cell(cell, w, align, head, border, line, targets).spans) == shown(p.spans) + (seq![
            ' ',
        ] + part + seq![' ', '│']),
{
    let cut = table::truncated(cell, w);
    let (l, r) = table::pads(w, wrap::runs_width(cut), align);
    lemma_truncated(cell, w);
    lemma_runs_width(cell);
    let x = texts(cut).flatten();
    let part = blanks(l as nat) + x + blanks(r as nat);
    let p1 = p.put(Style::plain(), " "@, 1);
    let p2 = p1.pad(l);
    let p3 = p2.content(cut, head, line, targets);
    let p4 = p3.pad(r);
    let p5 = p4.put(Style::plain(), " "@, 1);
    let p6 = p5.put(border, "│"@, 1);
    lemma_shown_push(p.spans, style::span(" "@, Style::plain()));
    lemma_pad(p1, l);
    let p2s = table::RowPen { link: None, link_start: p2.col, ..p2 };
    lemma_row_runs(p2s, cut, head, line, targets);
    lemma_pad(p3, r);
    lemma_shown_push(p4.spans, style::span(" "@, Style::plain()));
    lemma_shown_push(p5.spans, style::span("│"@, border));
    reveal_strlit(" ");
    reveal_strlit("│");
    assert(" "@ =~= seq![' ']);
    assert("│"@ =~= seq!['│']);
    assert(shown(p6.spans) =~= shown(p.spans) + (seq![' '] + part + seq![' ', '│']));
    assert(is_padded(part, x, l as nat, r as nat));
    assert(is_set(align, l as nat, r as nat));
    part
}

proof fn lemma_cells(
    p: table::RowPen,
    row: Seq<Seq<RunView>>,
    ws: Seq<usize>,
    aligns: Seq<Align>,
    head: Option<Color>,
    border: Style,
    line: usize,
    targets: Seq<links::TargetView>,
    n: int,
) -> (parts: Seq<Seq<char>>)
    requires
        shown(p.spans) == seq!['│'],
        0 <= n <= ws.len(),
    ensures
        parts.len() == n,
        shown(p.cells(row, ws, aligns, head, border, line, targets, n).spans) == framed(parts),
        forall|c: int|
            0 <= c < n ==> shows_cell(
                #[trigger] parts[c],
                texts(table::cell_at(row, c)),
                ws[c] as int,
                table::align_at(aligns, c),
            ),
    decreases n,
{
    let f = |x: Seq<char>| seq![' '] + x + seq![' ', '│'];
    if n == 0 {
        let parts = Seq::<Seq<char>>::empty();
        assert(parts.map_values(f).flatten() =~= Seq::<char>::empty());
        assert(framed(parts) =~= seq!['│']);
        parts
    } else {
        let init = lemma_cells(p, row, ws, aligns, head, border, line, targets, n - 1);
        let q = p.cells(row, ws, aligns, head, border, line, targets, n - 1);
        let part = lemma_cell(
            q,
            table::cell_at(row, n - 1),
            ws[n - 1],
            table::align_at(aligns, n - 1),
            head,
            border,
            line,
            targets,
        );
        let parts = init.push(part);
        assert(parts.map_values(f) =~= init.map_values(f).push(f(part)));
        init.map_values(f).lemma_flatten_push(f(part));
        assert(framed(init) + f(part) =~= framed(parts));
        parts
    }
}

/// The texts of a row's cells.
pub open spec fn row_texts(row: Seq<Seq<RunView>>) -> Seq<Seq<Seq<char>>> {
    Seq::new(row.len(), |c: int| texts(row[c]))
}

pub open spec fn as_ints(ws: Seq<usize>) -> Seq<int> {
    Seq::new(ws.len(), |c: int| ws[c] as int)
}

proof fn lemma_row(
    row: Seq<Seq<RunView>>,
    ws: Seq<usize>,
    aligns: Seq<Align>,
    head: Option<Color>,
    border: Style,
    line: usize,
    targets: Seq<links::TargetView>,
    out: Seq<links::LinkSpanView>,
)
    ensures
        shows_row(
            table::row_view(row, ws, aligns, head, border, line, targets, out).spans,
            row_texts(row),
            as_ints(ws),
            aligns,
        ),
{
    let s = style::span("│"@, border);
    let start = table::RowPen { spans: seq![s], col: 1, links: out, link: None, link_start: 0 };
    reveal_strlit("│");
    lemma_shown_push(Seq::empty(), s);
    assert(Seq::empty().push(s) =~= seq![s]);
    assert(shown(Seq::empty()) =~= Seq::<char>::empty());
    assert(shown(seq![s]) =~= seq!['│']);
    let n = ws.len() as int;
    let parts = lemma_cells(start, row, ws, aligns, head, border, line, targets, n);
    assert forall|c: int| 0 <= c < n implies shows_cell(
        #[trigger] parts[c],
        cell_of(row_texts(row), c),
        as_ints(ws)[c],
        if c < aligns.len() {
            aligns[c]
        } else {
            Align::Unset
        },
    ) by {
        assert(texts(table::cell_at(row, c)) =~= cell_of(row_texts(row), c));
    }
}

proof fn lemma_rows(
    lines: Seq<Seq<style::SpanView>>,
    out: Seq<links::LinkSpanView>,
    rows: Seq<Seq<Seq<RunView>>>,
    n: int,
    ws: Seq<usize>,
    aligns: Seq<Align>,
    border: Style,
    targets: Seq<links::TargetView>,
)
    requires
        0 <= n <= rows.len(),
    ensures
        ({
            let r = table::rows_put(lines, out, rows, n, ws, aligns, border, targets).0;
            &&& r.len() == lines.len() + n
            &&& lines.is_prefix_of(r)
            &&& forall|k: int|
                0 <= k < n ==> shows_row(
                    r[lines.len() + k],
                    row_texts(#[trigger] rows[k]),
                    as_ints(ws),
                    aligns,
                )
        }),
    decreases n,
{
    laws_blocks::lemma_rows_prefix(lines, out, rows, n, ws, aligns, border, targets);
    if n > 0 {
        lemma_rows(lines, out, rows, n - 1, ws, aligns, border, targets);
        let (ls, os) = table::rows_put(lines, out, rows, n - 1, ws, aligns, border, targets);
        lemma_row(rows[n - 1], ws, aligns, None, border, ls.len() as usize, targets, os);
    }
}

/// The texts of rows of cells.
pub open spec fn rows_texts(rows: Seq<Seq<Seq<RunView>>>) -> Seq<Seq<Seq<Seq<char>>>> {
    Seq::new(rows.len(), |r: int| row_texts(rows[r]))
}

proof fn lemma_table_put(
    lines: Seq<Seq<style::SpanView>>,
    out: Seq<links::LinkSpanView>,
    header: Seq<Seq<RunView>>,
    rows: Seq<Seq<Seq<RunView>>>,
    aligns: Seq<Align>,
    max_width: usize,
    muted: Color,
    head: Color,
    targets: Seq<links::TargetView>,
)
    requires
        table::column_widths(header, rows, max_width).len() > 0,
        are_countable(table::column_widths(header, rows, max_width)),
    ensures
        shows_table(
            table::table_put(
                lines,
                out,
                header,
                rows,
                aligns,
                max_width,
                muted,
                head,
                targets,
            ).0,
            lines.len() as int,
            as_ints(table::column_widths(header, rows, max_width)),
            aligns,
            row_texts(header),
            rows_texts(rows),
        ),
{
    let ws = table::column_widths(header, rows, max_width);
    let border = Style::plain().fg(muted);
    let top = lines.push(table::border_view(ws, '┌', '┬', '┐', border));
    let h = table::row_view(
        header,
        ws,
        aligns,
        Some(head),
        border,
        top.len() as usize,
        targets,
        out,
    );
    lemma_row(header, ws, aligns, Some(head), border, top.len() as usize, targets, out);
    let base = top.push(h.spans).push(table::border_view(ws, '├', '┼', '┤', border));
    let n = rows.len() as int;
    lemma_rows(base, h.links, rows, n, ws, aligns, border, targets);
    let ls = table::rows_put(base, h.links, rows, n, ws, aligns, border, targets).0;
    let all = table::table_put(
        lines,
        out,
        header,
        rows,
        aligns,
        max_width,
        muted,
        head,
        targets,
    ).0;
    assert(all == ls.push(table::border_view(ws, '└', '┴', '┘', border)));
    let row = lines.len() as int;
    lemma_border_line(ws, '┌', '┬', '┐', border);
    lemma_border_line(ws, '├', '┼', '┤', border);
    lemma_border_line(ws, '└', '┴', '┘', border);
    assert(ls[row] == base[row]);
    assert(ls[row + 2] == base[row + 2]);
    assert(ls[row + 1] == base[row + 1]);
    assert(all[row + 1] == h.spans);
    assert forall|r: int| 0 <= r < n implies shows_row(
        all[row + 3 + r],
        #[trigger] rows_texts(rows)[r],
        as_ints(ws),
        aligns,
    ) by {
        assert(shows_row(ls[base.len() + r], row_texts(rows[r]), as_ints(ws), aligns));
        assert(base.len() + r == row + 3 + r);
    }
}

// ---------------------------------------------------------------------------
// Column widths
// ---------------------------------------------------------------------------

/// Whether `n` is the length of the longest of the rows.
pub open spec fn is_column_count(
    n: int,
    header: Seq<Seq<Seq<char>>>,
    rows: Seq<Seq<Seq<Seq<char>>>>,
) -> bool {
    &&& header.len() <= n
    &&& forall|r: int| 0 <= r < rows.len() ==> (#[trigger] rows[r]).len() <= n
    &&& header.len() == n || exists|r: int| 0 <= r < rows.len() && (#[trigger] rows[r]).len() == n
}

/// Whether every cell fits into its column.
pub open spec fn holds_all(
    ws: Seq<int>,
    header: Seq<Seq<Seq<char>>>,
    rows: Seq<Seq<Seq<Seq<char>>>>,
) -> bool {
    forall|c: int|
        0 <= c < ws.len() ==> cols_of(cell_of(header, c)) <= #[trigger] ws[c] && forall|r: int|
            0 <= r < rows.len() ==> cols_of(cell_of(#[trigger] rows[r], c)) <= ws[c]
}

/// The sum of widths.
pub open spec fn sum_of(ws: Seq<int>) -> int
    decreases ws.len(),
{
    if ws.len() == 0 {
        0
    } else {
        sum_of(ws.drop_last()) + ws.last()
    }
}

/// Whether widths are the best for a screen: where there are widths that hold every cell
/// and leave room for a bar and a space on each side, these hold every cell and none of
/// them is larger.
pub open spec fn is_best(
    ws: Seq<int>,
    header: Seq<Seq<Seq<char>>>,
    rows: Seq<Seq<Seq<Seq<char>>>>,
    cols: int,
) -> bool {
    forall|vs: Seq<int>|
        vs.len() == ws.len() && #[trigger] holds_all(vs, header, rows) && sum_of(vs) + 3 * vs.len()
            + 1 <= cols ==> holds_all(ws, header, rows) && forall|c: int|
            0 <= c < ws.len() ==> ws[c] <= #[trigger] vs[c]
}

proof fn lemma_longest(rows: Seq<Seq<Seq<RunView>>>)
    requires
        forall|r: int| 0 <= r < rows.len() ==> (#[trigger] rows[r]).len() <= usize::MAX,
    ensures
        forall|r: int| 0 <= r < rows.len() ==> (#[trigger] rows[r]).len() <= table::longest(rows),
        table::longest(rows) == 0 || exists|r: int|
            0 <= r < rows.len() && (#[trigger] rows[r]).len() == table::longest(rows),
    decreases rows.len(),
{
    if rows.len() > 0 {
        let init = rows.drop_last();
        assert forall|r: int| 0 <= r < init.len() implies (#[trigger] init[r]).len()
            <= usize::MAX by {
            assert(init[r] == rows[r]);
        }
        lemma_longest(init);
        assert forall|r: int| 0 <= r < rows.len() implies (#[trigger] rows[r]).len()
            <= table::longest(rows) by {
            if r < init.len() {
                assert(init[r] == rows[r]);
            }
        }
        if table::longest(rows) == rows.last().len() {
            assert(rows[rows.len() - 1].len() == table::longest(rows));
        } else if table::longest(rows) > 0 {
            let r = choose|r: int|
                0 <= r < init.len() && (#[trigger] init[r]).len() == table::longest(init);
            assert(rows[r].len() == table::longest(rows));
        }
    }
}

proof fn lemma_column_count(header: Seq<Seq<RunView>>, rows: Seq<Seq<Seq<RunView>>>)
    requires
        header.len() <= usize::MAX,
        forall|r: int| 0 <= r < rows.len() ==> (#[trigger] rows[r]).len() <= usize::MAX,
    ensures
        is_column_count(
            table::column_count(header, rows) as int,
            row_texts(header),
            rows_texts(rows),
        ),
{
    lemma_longest(rows);
    let n = table::column_count(header, rows) as int;
    let ts = rows_texts(rows);
    assert forall|r: int| 0 <= r < ts.len() implies (#[trigger] ts[r]).len() <= n by {
        assert(rows[r].len() <= table::longest(rows));
    }
    if header.len() != n {
        let r = choose|r: int|
            0 <= r < rows.len() && (#[trigger] rows[r]).len() == table::longest(rows);
        assert(ts[r].len() == n);
    }
}

/// The widest cell of a column takes the columns of one of them.
proof fn lemma_widest_bound(rows: Seq<Seq<Seq<RunView>>>, c: int, v: int)
    requires
        0 <= v,
        forall|r: int|
            0 <= r < rows.len() ==> wrap::runs_width(table::cell_at(#[trigger] rows[r], c)) <= v,
    ensures
        table::widest(rows, c) <= v,
    decreases rows.len(),
{
    if rows.len() > 0 {
        let init = rows.drop_last();
        assert forall|r: int| 0 <= r < init.len() implies wrap::runs_width(
            table::cell_at(#[trigger] init[r], c),
        ) <= v by {
            assert(init[r] == rows[r]);
        }
        lemma_widest_bound(init, c, v);
        assert(wrap::runs_width(table::cell_at(rows[rows.len() - 1], c)) <= v);
    }
}

proof fn lemma_widest(rows: Seq<Seq<Seq<RunView>>>, i: int, c: int)
    requires
        0 <= i < rows.len(),
    ensures
        wrap::runs_width(table::cell_at(rows[i], c)) <= table::widest(rows, c),
    decreases rows.len(),
{
    if i < rows.len() - 1 {
        lemma_widest(rows.drop_last(), i, c);
        assert(rows.drop_last()[i] == rows[i]);
    }
}

proof fn lemma_total(ws: Seq<usize>, vs: Seq<int>)
    requires
        ws.len() == vs.len(),
        forall|c: int| 0 <= c < ws.len() ==> ws[c] <= vs[c],
    ensures
        table::total_width(ws) <= sum_of(vs),
    decreases ws.len(),
{
    if ws.len() > 0 {
        lemma_total(ws.drop_last(), vs.drop_last());
    }
}

proof fn lemma_cell_width(row: Seq<Seq<RunView>>, c: int)
    requires
        0 <= c,
    ensures
        wrap::runs_width(table::cell_at(row, c)) == text::sat(cols_of(cell_of(row_texts(row), c))),
        0 <= cols_of(cell_of(row_texts(row), c)),
{
    lemma_runs_width(table::cell_at(row, c));
    assert(texts(table::cell_at(row, c)) =~= cell_of(row_texts(row), c));
}

proof fn lemma_best(header: Seq<Seq<RunView>>, rows: Seq<Seq<Seq<RunView>>>, width: usize)
    ensures
        is_best(
            as_ints(table::column_widths(header, rows, width)),
            row_texts(header),
            rows_texts(rows),
            width as int,
        ),
{
    let ws = table::column_widths(header, rows, width);
    let natural = table::natural_widths(header, rows);
    let h = row_texts(header);
    let ts = rows_texts(rows);
    let n = ws.len() as int;
    assert forall|vs: Seq<int>|
        vs.len() == n && #[trigger] holds_all(vs, h, ts) && sum_of(vs) + 3 * vs.len() + 1
            <= width implies holds_all(as_ints(ws), h, ts) && forall|c: int|
        0 <= c < n ==> as_ints(ws)[c] <= #[trigger] vs[c] by {
        assert forall|c: int| 0 <= c < n implies natural[c] <= vs[c] by {
            lemma_cell_width(header, c);
            assert(cols_of(cell_of(h, c)) <= vs[c]);
            assert forall|r: int| 0 <= r < rows.len() implies wrap::runs_width(
                table::cell_at(#[trigger] rows[r], c),
            ) <= vs[c] by {
                lemma_cell_width(rows[r], c);
                assert(cols_of(cell_of(ts[r], c)) <= vs[c]);
            }
            lemma_widest_bound(rows, c, vs[c]);
        }
        lemma_total(natural, vs);
        assert(0 <= sum_of(vs));
        assert(ws == natural);
        assert forall|c: int| 0 <= c < n implies cols_of(cell_of(h, c)) <= #[trigger] as_ints(
            ws,
        )[c] && forall|r: int| 0 <= r < ts.len() ==> cols_of(cell_of(#[trigger] ts[r], c))
            <= as_ints(ws)[c] by {
            assert(cols_of(cell_of(h, c)) <= vs[c]);
            lemma_sum_part(vs, c);
            lemma_cell_width(header, c);
            assert forall|r: int| 0 <= r < ts.len() implies cols_of(cell_of(#[trigger] ts[r], c))
                <= as_ints(ws)[c] by {
                lemma_cell_width(rows[r], c);
                lemma_widest(rows, r, c);
                assert(cols_of(cell_of(ts[r], c)) <= vs[c]);
            }
        }
    }
}

proof fn lemma_sum_part(vs: Seq<int>, c: int)
    requires
        0 <= c < vs.len(),
        forall|k: int| 0 <= k < vs.len() ==> 0 <= vs[k],
    ensures
        vs[c] <= sum_of(vs),
        0 <= sum_of(vs),
    decreases vs.len(),
{
    let init = vs.drop_last();
    if init.len() > 0 {
        lemma_sum_part(
            init,
            if c < init.len() {
                c
            } else {
                0
            },
        );
    } else {
        assert(sum_of(init) == 0);
    }
}

// ---------------------------------------------------------------------------
// Reading
// ---------------------------------------------------------------------------

/// Whether an event is part of a line of text.
pub open spec fn is_inline(ev: EventView) -> bool {
    match ev {
        EventView::Text(_) => true,
        EventView::Code(_) => true,
        EventView::FootnoteReference(_) => true,
        EventView::SoftBreak => true,
        EventView::HardBreak => true,
        EventView::TaskListMarker(_) => true,
        EventView::Hidden => true,
        EventView::Start(TagView::Emphasis) => true,
        EventView::Start(TagView::Strong) => true,
        EventView::Start(TagView::Strikethrough) => true,
        EventView::Start(TagView::Link(_)) => true,
        EventView::Start(TagView::Image(..)) => true,
        EventView::Start(TagView::Other) => true,
        EventView::End(MdTagEnd::Emphasis) => true,
        EventView::End(MdTagEnd::Strong) => true,
        EventView::End(MdTagEnd::Strikethrough) => true,
        EventView::End(MdTagEnd::Link) => true,
        EventView::End(MdTagEnd::Other) => true,
        _ => false,
    }
}

/// The texts that an event shows.
pub open spec fn pieces(ev: EventView) -> Seq<Seq<char>> {
    match ev {
        EventView::Text(s) => seq![s],
        EventView::Code(s) => seq![seq![' '] + s + seq![' ']],
        EventView::FootnoteReference(name) => seq![seq!['[', '^'] + name + seq![']']],
        EventView::SoftBreak => seq![seq![' ']],
        EventView::HardBreak => seq![seq!['\n']],
        EventView::TaskListMarker(checked) => seq![
            seq![
                '[',
                if checked {
                    'x'
                } else {
                    ' '
                },
                ']',
            ],
            seq![' '],
        ],
        EventView::Start(TagView::Image(dest, title)) => seq![
            if title.len() == 0 {
                "[image: "@ + dest + seq![']']
            } else {
                "[image: "@ + title + seq![' ', '('] + dest + seq![')', ']']
            },
        ],
        _ => Seq::empty(),
    }
}

/// The texts that events show.
pub open spec fn pieces_of(es: Seq<EventView>) -> Seq<Seq<char>> {
    es.map_values(|ev: EventView| pieces(ev)).flatten()
}

/// Whether events begin at `i` with the given ones.
pub open spec fn stand_at(evs: Seq<(EventView, usize)>, i: int, es: Seq<EventView>) -> bool {
    &&& 0 <= i
    &&& i + es.len() <= evs.len()
    &&& forall|k: int| 0 <= k < es.len() ==> (#[trigger] evs[i + k]).0 == es[k]
}

pub proof fn lemma_stand_parts(
    evs: Seq<(EventView, usize)>,
    i: int,
    a: Seq<EventView>,
    b: Seq<EventView>,
)
    requires
        stand_at(evs, i, a + b),
    ensures
        stand_at(evs, i, a),
        stand_at(evs, i + a.len(), b),
{
    assert forall|k: int| 0 <= k < a.len() implies (#[trigger] evs[i + k]).0 == a[k] by {
        assert((a + b)[k] == a[k]);
    }
    assert forall|k: int| 0 <= k < b.len() implies (#[trigger] evs[i + a.len() + k]).0 == b[k] by {
        assert((a + b)[a.len() + k] == b[k]);
        assert(evs[i + (a.len() + k)].0 == (a + b)[a.len() + k]);
    }
}

proof fn lemma_runs_bound(p: Page, n: int)
    requires
        0 <= n <= p.evs.len(),
    ensures
        p.read(n).runs.len() <= 2 * n,
    decreases n,
{
    laws_blocks::lemma_read_start(p);
    if n > 0 {
        lemma_runs_bound(p, n - 1);
        laws_blocks::lemma_read_step(p, n - 1);
        lemma_event_runs(p.read(n - 1), p.evs[n - 1].0, p.evs[n - 1].1);
    }
}

proof fn lemma_event_runs(b: markdown::BuilderView, ev: EventView, offset: usize)
    ensures
        b.event(ev, offset).runs.len() <= b.runs.len() + 2,
{
}

/// Whether two states differ in no more than their runs and what they have of a table.
pub open spec fn like(b: markdown::BuilderView, a: markdown::BuilderView) -> bool {
    &&& a.blocks == b.blocks
    &&& a.prefix == b.prefix
    &&& !b.in_code_block
    &&& !a.in_code_block
}

proof fn lemma_inline_step(b: markdown::BuilderView, ev: EventView, offset: usize)
    requires
        is_inline(ev),
        !b.in_code_block,
    ensures
        ({
            let a = b.event(ev, offset);
            &&& like(b, a)
            &&& a.table == b.table
            &&& a.runs.len() >= b.runs.len()
            &&& a.runs.take(b.runs.len() as int) == b.runs
            &&& texts(a.runs.skip(b.runs.len() as int)) == pieces(ev)
        }),
{
    let a = b.event(ev, offset);
    let n = b.runs.len() as int;
    reveal_strlit(" ");
    reveal_strlit("[^");
    reveal_strlit("]");
    reveal_strlit("\n");
    reveal_strlit("[x]");
    reveal_strlit("[ ]");
    reveal_strlit(" (");
    reveal_strlit(")]");
    assert(" "@ =~= seq![' ']);
    assert("[^"@ =~= seq!['[', '^']);
    assert("]"@ =~= seq![']']);
    assert("\n"@ =~= seq!['\n']);
    assert("[x]"@ =~= seq!['[', 'x', ']']);
    assert("[ ]"@ =~= seq!['[', ' ', ']']);
    assert(" ("@ =~= seq![' ', '(']);
    assert(")]"@ =~= seq![')', ']']);
    assert(a.runs.take(n) =~= b.runs);
    assert(texts(a.runs.skip(n)) =~= pieces(ev));
}

proof fn lemma_inline_event(p: Page, i: int)
    requires
        0 <= i < p.evs.len(),
        is_inline(p.evs[i].0),
        !p.read(i).in_code_block,
    ensures
        ({
            let b = p.read(i);
            let a = p.read(i + 1);
            &&& like(b, a)
            &&& a.table == b.table
            &&& a.runs.len() >= b.runs.len()
            &&& a.runs.take(b.runs.len() as int) == b.runs
            &&& texts(a.runs.skip(b.runs.len() as int)) == pieces(p.evs[i].0)
        }),
{
    laws_blocks::lemma_read_step(p, i);
    lemma_inline_step(p.read(i), p.evs[i].0, p.evs[i].1);
}

pub proof fn lemma_inline_read(p: Page, i: int, es: Seq<EventView>)
    requires
        stand_at(p.evs, i, es),
        forall|k: int| 0 <= k < es.len() ==> is_inline(#[trigger] es[k]),
        !p.read(i).in_code_block,
    ensures
        ({
            let b = p.read(i);
            let a = p.read(i + es.len());
            &&& like(b, a)
            &&& a.table == b.table
            &&& a.runs.len() >= b.runs.len()
            &&& a.runs.take(b.runs.len() as int) == b.runs
            &&& texts(a.runs.skip(b.runs.len() as int)) == pieces_of(es)
        }),
    decreases es.len(),
{
    let f = |ev: EventView| pieces(ev);
    let b = p.read(i);
    let n = b.runs.len() as int;
    let a = p.read(i + es.len());
    if es.len() == 0 {
        assert(a.runs.take(n) =~= b.runs);
        assert(pieces_of(es) =~= Seq::<Seq<char>>::empty());
        assert(texts(a.runs.skip(n)) =~= pieces_of(es));
    } else {
        let init = es.drop_last();
        let ev = es.last();
        let j = i + init.len();
        assert(init + seq![ev] =~= es);
        lemma_stand_parts(p.evs, i, init, seq![ev]);
        assert forall|k: int| 0 <= k < init.len() implies is_inline(#[trigger] init[k]) by {
            assert(init[k] == es[k]);
        }
        lemma_inline_read(p, i, init);
        assert(is_inline(es[es.len() - 1]));
        assert(p.evs[j + 0].0 == seq![ev][0]);
        let m = p.read(j);
        lemma_inline_event(p, j);
        assert(a.runs.take(n) =~= m.runs.take(n));
        let k = m.runs.len() as int;
        assert(a.runs =~= m.runs + a.runs.skip(k));
        assert(texts(a.runs.skip(n)) =~= texts(m.runs.skip(n)) + texts(a.runs.skip(k)));
        assert(es.map_values(f) =~= init.map_values(f).push(pieces(ev)));
        init.map_values(f).lemma_flatten_push(pieces(ev));
    }
}

/// The events of a cell.
pub open spec fn cell_events(c: Seq<EventView>) -> Seq<EventView> {
    seq![EventView::Start(TagView::TableCell)] + c + seq![EventView::End(MdTagEnd::TableCell)]
}

/// The events of cells side by side.
pub open spec fn cells_events(cells: Seq<Seq<EventView>>) -> Seq<EventView> {
    cells.map_values(|c: Seq<EventView>| cell_events(c)).flatten()
}

/// The events of a body row.
pub open spec fn row_events(row: Seq<Seq<EventView>>) -> Seq<EventView> {
    seq![EventView::Start(TagView::Other)] + cells_events(row) + seq![
        EventView::End(MdTagEnd::TableRow),
    ]
}

/// The events of body rows.
pub open spec fn rows_events(rows: Seq<Seq<Seq<EventView>>>) -> Seq<EventView> {
    rows.map_values(|r: Seq<Seq<EventView>>| row_events(r)).flatten()
}

/// The events of a table.
pub open spec fn table_events(
    aligns: Seq<Align>,
    header: Seq<Seq<EventView>>,
    rows: Seq<Seq<Seq<EventView>>>,
) -> Seq<EventView> {
    seq![EventView::Start(TagView::Table(aligns)), EventView::Start(TagView::Other)]
        + cells_events(header) + seq![EventView::End(MdTagEnd::TableHead)] + rows_events(rows)
        + seq![EventView::End(MdTagEnd::Table)]
}

/// Whether the cells of a row hold lines of text.
pub open spec fn is_inline_row(row: Seq<Seq<EventView>>) -> bool {
    forall|c: int, k: int|
        0 <= c < row.len() && 0 <= k < row[c].len() ==> is_inline(#[trigger] row[c][k])
}

/// The texts of a row's cells.
pub open spec fn row_pieces(row: Seq<Seq<EventView>>) -> Seq<Seq<Seq<char>>> {
    Seq::new(row.len(), |c: int| pieces_of(row[c]))
}

/// The texts of the cells of rows.
pub open spec fn rows_pieces(rows: Seq<Seq<Seq<EventView>>>) -> Seq<Seq<Seq<Seq<char>>>> {
    Seq::new(rows.len(), |r: int| row_pieces(rows[r]))
}

proof fn lemma_cell_start(p: Page, i: int)
    requires
        0 <= i < p.evs.len(),
        p.evs[i].0 == EventView::Start(TagView::TableCell),
        p.read(i).table is Some,
    ensures
        ({
            let b = p.read(i);
            let a = p.read(i + 1);
            &&& a.blocks == b.blocks
            &&& a.prefix == b.prefix
            &&& a.in_code_block == b.in_code_block
            &&& a.runs == b.runs
            &&& a.table == Some(
                markdown::TableStateView { cell_start: b.runs.len() as usize, ..b.table->0 },
            )
        }),
{
    laws_blocks::lemma_read_step(p, i);
}

proof fn lemma_cell_end(p: Page, i: int)
    requires
        0 <= i < p.evs.len(),
        p.evs[i].0 == EventView::End(MdTagEnd::TableCell),
        p.read(i).table is Some,
        p.read(i).table->0.cell_start <= p.read(i).runs.len(),
    ensures
        ({
            let b = p.read(i);
            let a = p.read(i + 1);
            let at = b.table->0.cell_start as int;
            &&& a.blocks == b.blocks
            &&& a.prefix == b.prefix
            &&& a.in_code_block == b.in_code_block
            &&& a.runs == b.runs.take(at)
            &&& a.table == Some(
                markdown::TableStateView {
                    current_row: b.table->0.current_row.push(b.runs.skip(at)),
                    ..b.table->0
                },
            )
        }),
{
    laws_blocks::lemma_read_step(p, i);
}

/// Reading a cell adds it to the row in progress.
proof fn lemma_cell_read(p: Page, i: int, c: Seq<EventView>) -> (cell: Seq<RunView>)
    requires
        stand_at(p.evs, i, cell_events(c)),
        forall|k: int| 0 <= k < c.len() ==> is_inline(#[trigger] c[k]),
        !p.read(i).in_code_block,
        p.read(i).table is Some,
        2 * p.evs.len() <= usize::MAX,
    ensures
        texts(cell) == pieces_of(c),
        ({
            let b = p.read(i);
            let a = p.read(i + cell_events(c).len());
            &&& like(b, a)
            &&& a.runs == b.runs
            &&& a.table is Some
            &&& a.table->0.aligns == b.table->0.aligns
            &&& a.table->0.header == b.table->0.header
            &&& a.table->0.rows == b.table->0.rows
            &&& a.table->0.current_row == b.table->0.current_row.push(cell)
        }),
{
    let es = cell_events(c);
    let first = seq![EventView::Start(TagView::TableCell)];
    let last = seq![EventView::End(MdTagEnd::TableCell)];
    let b = p.read(i);
    lemma_runs_bound(p, i);
    lemma_stand_parts(p.evs, i, first + c, last);
    lemma_stand_parts(p.evs, i, first, c);
    let j = i + 1 + c.len();
    assert(p.evs[i + 0].0 == first[0]);
    assert(p.evs[i + (first + c).len() + 0].0 == last[0]);
    lemma_cell_start(p, i);
    lemma_inline_read(p, i + 1, c);
    let m = p.read(j);
    lemma_cell_end(p, j);
    m.runs.skip(b.runs.len() as int)
}

/// Reading cells adds them to the row in progress, in order.
proof fn lemma_cells_read(p: Page, i: int, cells: Seq<Seq<EventView>>) -> (row: Seq<Seq<RunView>>)
    requires
        stand_at(p.evs, i, cells_events(cells)),
        is_inline_row(cells),
        !p.read(i).in_code_block,
        p.read(i).table is Some,
        2 * p.evs.len() <= usize::MAX,
    ensures
        row_texts(row) == row_pieces(cells),
        row.len() <= cells_events(cells).len(),
        ({
            let b = p.read(i);
            let a = p.read(i + cells_events(cells).len());
            &&& like(b, a)
            &&& a.runs == b.runs
            &&& a.table is Some
            &&& a.table->0.aligns == b.table->0.aligns
            &&& a.table->0.header == b.table->0.header
            &&& a.table->0.rows == b.table->0.rows
            &&& a.table->0.current_row == b.table->0.current_row + row
        }),
    decreases cells.len(),
{
    let f = |c: Seq<EventView>| cell_events(c);
    let b = p.read(i);
    if cells.len() == 0 {
        let row = Seq::<Seq<RunView>>::empty();
        assert(cells_events(cells) =~= Seq::<EventView>::empty());
        assert(row_texts(row) =~= row_pieces(cells));
        assert(b.table->0.current_row + row =~= b.table->0.current_row);
        row
    } else {
        let init = cells.drop_last();
        let c = cells.last();
        let before = cells_events(init);
        assert(cells.map_values(f) =~= init.map_values(f).push(cell_events(c)));
        init.map_values(f).lemma_flatten_push(cell_events(c));
        assert(cells_events(cells) == before + cell_events(c));
        lemma_stand_parts(p.evs, i, before, cell_events(c));
        assert forall|x: int, k: int| 0 <= x < init.len() && 0 <= k < init[x].len() implies
            is_inline(#[trigger] init[x][k]) by {
            assert(init[x] == cells[x]);
            assert(is_inline(cells[x][k]));
        }
        assert forall|k: int| 0 <= k < c.len() implies is_inline(#[trigger] c[k]) by {
            assert(is_inline(cells[cells.len() - 1][k]));
        }
        let some = lemma_cells_read(p, i, init);
        let cell = lemma_cell_read(p, i + before.len(), c);
        let row = some.push(cell);
        let prev = p.read(i + before.len()).table->0.current_row;
        assert(prev.push(cell) =~= b.table->0.current_row + row);
        assert(some.len() == row_texts(some).len());
        assert(row_pieces(init).len() == init.len());
        assert forall|k: int| 0 <= k < row.len() implies #[trigger] row_texts(row)[k]
            == row_pieces(cells)[k] by {
            if k < some.len() {
                assert(row_texts(some)[k] == row_pieces(init)[k]);
            }
        }
        assert(row_texts(row) =~= row_pieces(cells));
        row
    }
}

proof fn lemma_row_end(p: Page, i: int)
    requires
        0 <= i < p.evs.len(),
        p.evs[i].0 == EventView::End(MdTagEnd::TableRow),
        p.read(i).table is Some,
    ensures
        ({
            let b = p.read(i);
            let a = p.read(i + 1);
            &&& a.blocks == b.blocks
            &&& a.prefix == b.prefix
            &&& a.in_code_block == b.in_code_block
            &&& a.runs == b.runs
            &&& a.table is Some
            &&& a.table->0.aligns == b.table->0.aligns
            &&& a.table->0.header == b.table->0.header
            &&& a.table->0.rows == b.table->0.rows.push(b.table->0.current_row)
            &&& a.table->0.current_row.len() == 0
        }),
{
    laws_blocks::lemma_read_step(p, i);
}

/// Reading a body row adds it to the table in progress.
proof fn lemma_row_read(p: Page, i: int, cells: Seq<Seq<EventView>>) -> (row: Seq<Seq<RunView>>)
    requires
        stand_at(p.evs, i, row_events(cells)),
        is_inline_row(cells),
        !p.read(i).in_code_block,
        p.read(i).table is Some,
        p.read(i).table->0.current_row.len() == 0,
        2 * p.evs.len() <= usize::MAX,
    ensures
        row_texts(row) == row_pieces(cells),
        row.len() <= p.evs.len(),
        ({
            let b = p.read(i);
            let a = p.read(i + row_events(cells).len());
            &&& like(b, a)
            &&& a.runs == b.runs
            &&& a.table is Some
            &&& a.table->0.aligns == b.table->0.aligns
            &&& a.table->0.header == b.table->0.header
            &&& a.table->0.rows == b.table->0.rows.push(row)
            &&& a.table->0.current_row.len() == 0
        }),
{
    let first = seq![EventView::Start(TagView::Other)];
    let mid = cells_events(cells);
    let last = seq![EventView::End(MdTagEnd::TableRow)];
    let b = p.read(i);
    lemma_stand_parts(p.evs, i, first + mid, last);
    lemma_stand_parts(p.evs, i, first, mid);
    assert(p.evs[i + 0].0 == first[0]);
    let j = i + 1 + mid.len();
    assert(p.evs[i + (first + mid).len() + 0].0 == last[0]);
    lemma_inline_event(p, i);
    assert(pieces(first[0]) =~= Seq::empty());
    assert(p.read(i + 1).runs =~= b.runs) by {
        let r = p.read(i + 1).runs;
        let n = b.runs.len() as int;
        assert(texts(r.skip(n)).len() == 0);
        assert(r =~= r.take(n) + r.skip(n));
    }
    let row = lemma_cells_read(p, i + 1, cells);
    let m = p.read(j);
    assert(b.table->0.current_row + row =~= row);
    lemma_row_end(p, j);
    row
}

/// Reading body rows adds them to the table in progress, in order.
proof fn lemma_rows_read(
    p: Page,
    i: int,
    rows: Seq<Seq<Seq<EventView>>>,
) -> (r: Seq<Seq<Seq<RunView>>>)
    requires
        stand_at(p.evs, i, rows_events(rows)),
        forall|k: int| 0 <= k < rows.len() ==> is_inline_row(#[trigger] rows[k]),
        !p.read(i).in_code_block,
        p.read(i).table is Some,
        p.read(i).table->0.current_row.len() == 0,
        2 * p.evs.len() <= usize::MAX,
    ensures
        rows_texts(r) == rows_pieces(rows),
        forall|k: int| 0 <= k < r.len() ==> (#[trigger] r[k]).len() <= p.evs.len(),
        ({
            let b = p.read(i);
            let a = p.read(i + rows_events(rows).len());
            &&& like(b, a)
            &&& a.runs == b.runs
            &&& a.table is Some
            &&& a.table->0.aligns == b.table->0.aligns
            &&& a.table->0.header == b.table->0.header
            &&& a.table->0.rows == b.table->0.rows + r
            &&& a.table->0.current_row.len() == 0
        }),
    decreases rows.len(),
{
    let f = |r: Seq<Seq<EventView>>| row_events(r);
    let b = p.read(i);
    if rows.len() == 0 {
        let r = Seq::<Seq<Seq<RunView>>>::empty();
        assert(rows_events(rows) =~= Seq::<EventView>::empty());
        assert(rows_texts(r) =~= rows_pieces(rows));
        assert(b.table->0.rows + r =~= b.table->0.rows);
        r
    } else {
        let init = rows.drop_last();
        let c = rows.last();
        let before = rows_events(init);
        assert(rows.map_values(f) =~= init.map_values(f).push(row_events(c)));
        init.map_values(f).lemma_flatten_push(row_events(c));
        assert(rows_events(rows) == before + row_events(c));
        lemma_stand_parts(p.evs, i, before, row_events(c));
        assert forall|k: int| 0 <= k < init.len() implies is_inline_row(#[trigger] init[k]) by {
            assert(init[k] == rows[k]);
        }
        assert(is_inline_row(rows[rows.len() - 1]));
        let some = lemma_rows_read(p, i, init);
        let row = lemma_row_read(p, i + before.len(), c);
        let r = some.push(row);
        let prev = p.read(i + before.len()).table->0.rows;
        assert(prev.push(row) =~= b.table->0.rows + r);
        assert(some.len() == rows_texts(some).len());
        assert forall|k: int| 0 <= k < r.len() implies #[trigger] rows_texts(r)[k] == rows_pieces(
            rows,
        )[k] by {
            if k < some.len() {
                assert(rows_texts(some)[k] == rows_pieces(init)[k]);
            }
        }
        assert(rows_texts(r) =~= rows_pieces(rows));
        r
    }
}

proof fn lemma_table_start(p: Page, i: int, aligns: Seq<Align>)
    requires
        0 <= i < p.evs.len(),
        p.evs[i].0 == EventView::Start(TagView::Table(aligns)),
    ensures
        ({
            let b = p.read(i);
            let a = p.read(i + 1);
            &&& a.blocks == b.blocks
            &&& a.prefix == b.prefix
            &&& a.in_code_block == b.in_code_block
            &&& a.runs == b.runs
            &&& a.table is Some
            &&& a.table->0.aligns == aligns
            &&& a.table->0.rows.len() == 0
            &&& a.table->0.current_row.len() == 0
        }),
{
    laws_blocks::lemma_read_step(p, i);
}

proof fn lemma_head_end(p: Page, i: int)
    requires
        0 <= i < p.evs.len(),
        p.evs[i].0 == EventView::End(MdTagEnd::TableHead),
        p.read(i).table is Some,
    ensures
        ({
            let b = p.read(i);
            let a = p.read(i + 1);
            &&& a.blocks == b.blocks
            &&& a.prefix == b.prefix
            &&& a.in_code_block == b.in_code_block
            &&& a.runs == b.runs
            &&& a.table is Some
            &&& a.table->0.aligns == b.table->0.aligns
            &&& a.table->0.header == b.table->0.current_row
            &&& a.table->0.rows == b.table->0.rows
            &&& a.table->0.current_row.len() == 0
        }),
{
    laws_blocks::lemma_read_step(p, i);
}

proof fn lemma_table_end(p: Page, i: int)
    requires
        0 <= i < p.evs.len(),
        p.evs[i].0 == EventView::End(MdTagEnd::Table),
        p.read(i).table is Some,
    ensures
        ({
            let b = p.read(i);
            let a = p.read(i + 1);
            let t = b.table->0;
            let n = b.blocks.len() as int;
            &&& a.blocks.len() == n + 2
            &&& a.blocks[n].0 == (BlockView::Table {
                aligns: t.aligns,
                header: t.header,
                rows: t.rows,
            })
            &&& a.prefix == b.prefix
            &&& a.runs == b.runs
        }),
{
    laws_blocks::lemma_read_step(p, i);
}

/// Reading the events of a table adds a block that holds its cells.
proof fn lemma_table_read(
    p: Page,
    i: int,
    aligns: Seq<Align>,
    header: Seq<Seq<EventView>>,
    rows: Seq<Seq<Seq<EventView>>>,
) -> (r: (Seq<Seq<RunView>>, Seq<Seq<Seq<RunView>>>))
    requires
        stand_at(p.evs, i, table_events(aligns, header, rows)),
        is_inline_row(header),
        forall|k: int| 0 <= k < rows.len() ==> is_inline_row(#[trigger] rows[k]),
        !p.read(i).in_code_block,
        2 * p.evs.len() <= usize::MAX,
    ensures
        row_texts(r.0) == row_pieces(header),
        rows_texts(r.1) == rows_pieces(rows),
        r.0.len() <= p.evs.len(),
        forall|k: int| 0 <= k < r.1.len() ==> (#[trigger] r.1[k]).len() <= p.evs.len(),
        ({
            let b = p.read(i);
            let a = p.read(i + table_events(aligns, header, rows).len());
            let n = b.blocks.len() as int;
            &&& a.blocks.len() == n + 2
            &&& a.blocks[n].0 == (BlockView::Table { aligns, header: r.0, rows: r.1 })
            &&& a.prefix == b.prefix
            &&& a.runs == b.runs
        }),
{
    let e0 = seq![EventView::Start(TagView::Table(aligns)), EventView::Start(TagView::Other)];
    let e1 = cells_events(header);
    let e2 = seq![EventView::End(MdTagEnd::TableHead)];
    let e3 = rows_events(rows);
    let e4 = seq![EventView::End(MdTagEnd::Table)];
    lemma_stand_parts(p.evs, i, e0 + e1 + e2 + e3, e4);
    lemma_stand_parts(p.evs, i, e0 + e1 + e2, e3);
    lemma_stand_parts(p.evs, i, e0 + e1, e2);
    lemma_stand_parts(p.evs, i, e0, e1);
    assert(p.evs[i + 0].0 == e0[0]);
    assert(p.evs[i + 1].0 == e0[1]);
    let b = p.read(i);
    lemma_table_start(p, i, aligns);
    lemma_inline_event(p, i + 1);
    assert(p.read(i + 2).runs =~= b.runs) by {
        let r = p.read(i + 2).runs;
        let n = b.runs.len() as int;
        assert(texts(r.skip(n)).len() == 0);
        assert(r =~= r.take(n) + r.skip(n));
    }
    let h = lemma_cells_read(p, i + 2, header);
    let j = i + 2 + e1.len();
    assert(p.evs[i + (e0 + e1).len() + 0].0 == e2[0]);
    assert(p.read(i + 2).table->0.current_row + h =~= h);
    lemma_head_end(p, j);
    let r = lemma_rows_read(p, j + 1, rows);
    assert(p.read(j + 1).table->0.rows + r =~= r);
    let k = j + 1 + e3.len();
    assert(p.evs[i + (e0 + e1 + e2 + e3).len() + 0].0 == e4[0]);
    lemma_table_end(p, k);
    (h, r)
}

/// Whether a code block is open after the first `n` events.
pub open spec fn code_open(evs: Seq<(EventView, usize)>, n: int) -> bool
    decreases n,
{
    if n <= 0 {
        false
    } else {
        match evs[n - 1].0 {
            EventView::Start(TagView::CodeBlock(_)) => true,
            EventView::End(MdTagEnd::CodeBlock) => false,
            _ => code_open(evs, n - 1),
        }
    }
}

proof fn lemma_event_code(b: markdown::BuilderView, ev: EventView, offset: usize)
    ensures
        b.event(ev, offset).in_code_block == match ev {
            EventView::Start(TagView::CodeBlock(_)) => true,
            EventView::End(MdTagEnd::CodeBlock) => false,
            _ => b.in_code_block,
        },
{
}

pub proof fn lemma_code_open(p: Page, n: int)
    requires
        0 <= n <= p.evs.len(),
    ensures
        p.read(n).in_code_block == code_open(p.evs, n),
    decreases n,
{
    laws_blocks::lemma_read_start(p);
    if n > 0 {
        lemma_code_open(p, n - 1);
        laws_blocks::lemma_read_step(p, n - 1);
        lemma_event_code(p.read(n - 1), p.evs[n - 1].0, p.evs[n - 1].1);
    }
}

proof fn lemma_table_prefix(
    a: Seq<Seq<style::SpanView>>,
    b: Seq<Seq<style::SpanView>>,
    row: int,
    ws: Seq<int>,
    aligns: Seq<Align>,
    header: Seq<Seq<Seq<char>>>,
    rows: Seq<Seq<Seq<Seq<char>>>>,
)
    requires
        shows_table(a, row, ws, aligns, header, rows),
        a.is_prefix_of(b),
    ensures
        shows_table(b, row, ws, aligns, header, rows),
{
    assert forall|r: int| 0 <= r < rows.len() implies shows_row(
        b[row + 3 + r],
        #[trigger] rows[r],
        ws,
        aligns,
    ) by {
        assert(a[row + 3 + r] == b[row + 3 + r]);
    }
    assert(a[row] == b[row]);
    assert(a[row + 1] == b[row + 1]);
    assert(a[row + 2] == b[row + 2]);
    assert(a[row + 3 + rows.len()] == b[row + 3 + rows.len()]);
}

proof fn lemma_laid_table(
    p: Page,
    bs: Seq<(BlockView, usize)>,
    k: int,
    aligns: Seq<Align>,
    header: Seq<Seq<RunView>>,
    rows: Seq<Seq<Seq<RunView>>>,
)
    requires
        0 <= k < bs.len(),
        bs[k].0 == (BlockView::Table { aligns, header, rows }),
    ensures
        p.laid(bs, k + 1).pen.lines == table::table_put(
            p.laid(bs, k).pen.lines,
            p.laid(bs, k).pen.links,
            header,
            rows,
            aligns,
            p.cols(),
            p.theme.muted,
            p.theme.heading@[1],
            p.all_read().targets,
        ).0,
{
    reveal(Page::laid);
}

/// A table is shown row by row: where the events of a table stand, behind what comes
/// before it there are a border, a line that shows the cells of the header, a border, and
/// one line for each body row, in the order of the source, that shows the cells of that row
/// in their columns. The columns hold every cell in full where the screen has room for
/// that. Of a table without cells nothing is shown. Columns are told of that the largest
/// `usize` can count with a space on both sides.
pub proof fn law_table_is_shown(
    p: Page,
    i: int,
    aligns: Seq<Align>,
    header: Seq<Seq<EventView>>,
    rows: Seq<Seq<Seq<EventView>>>,
)
    requires
        2 * p.evs.len() <= usize::MAX,
        stand_at(p.evs, i, table_events(aligns, header, rows)),
        is_inline_row(header),
        forall|r: int| 0 <= r < rows.len() ==> is_inline_row(#[trigger] rows[r]),
        !code_open(p.evs, i),
    ensures
        exists|ws: Seq<int>|
            {
                let h = row_pieces(header);
                let rs = rows_pieces(rows);
                &&& #[trigger] is_best(ws, row_pieces(header), rows_pieces(rows), p.cols() as int)
                &&& is_column_count(ws.len() as int, h, rs)
                &&& 0 < ws.len() && (forall|c: int|
                    0 <= c < ws.len() ==> #[trigger] ws[c] + 2 <= usize::MAX) ==> shows_table(
                    p.rendered().lines,
                    p.rows_before(i),
                    ws,
                    aligns,
                    h,
                    rs,
                )
            },
        ({
            let a = p.read(i + table_events(aligns, header, rows).len());
            a.runs == p.read(i).runs && a.prefix == p.read(i).prefix
        }),
{
    lemma_code_open(p, i);
    let j = i + table_events(aligns, header, rows).len();
    let (h, rs) = lemma_table_read(p, i, aligns, header, rows);
    laws_blocks::lemma_stretch(p, i, j);
    let bs = p.read(j).blocks;
    let k0 = p.read(i).blocks.len() as int;
    let w = p.cols();
    let ws = table::column_widths(h, rs, w);
    lemma_best(h, rs, w);
    lemma_column_count(h, rs);
    assert(as_ints(ws).len() == table::column_count(h, rs));
    if 0 < ws.len() && (forall|c: int|
        0 <= c < ws.len() ==> #[trigger] as_ints(ws)[c] + 2 <= usize::MAX) {
        assert forall|c: int| 0 <= c < ws.len() implies #[trigger] ws[c] + 2 <= usize::MAX by {
            assert(as_ints(ws)[c] + 2 <= usize::MAX);
        }
        let l0 = p.laid(bs, k0);
        let l1 = p.laid(bs, k0 + 1);
        let l2 = p.laid(bs, k0 + 2);
        laws_blocks::lemma_laid_grows(p, bs, k0 + 1, k0 + 2);
        let targets = p.all_read().targets;
        lemma_table_put(
            l0.pen.lines,
            l0.pen.links,
            h,
            rs,
            aligns,
            w,
            p.theme.muted,
            p.theme.heading@[1],
            targets,
        );
        lemma_laid_table(p, bs, k0, aligns, h, rs);
        let row = p.rows_before(i);
        let hp = row_pieces(header);
        let rp = rows_pieces(rows);
        lemma_table_prefix(l1.pen.lines, l2.pen.lines, row, as_ints(ws), aligns, hp, rp);
        lemma_table_prefix(l2.pen.lines, p.rendered().lines, row, as_ints(ws), aligns, hp, rp);
    }
}

} // verus!
