//! Widths of what is laid out: wrapped text fits, table rows align.

use vstd::prelude::*;
use crate::bytes;
use crate::links;
use crate::paint;
use crate::raw;
use crate::statusline;
use crate::style;
use crate::style::Style;
use crate::table;
use crate::text;
use crate::wrap;
use crate::wrap::PendingCheckbox;

verus! {

// ---------------------------------------------------------------------------
// Wrapped text
// ---------------------------------------------------------------------------

/// Columns of the characters `a..b` of a text, one by one.
pub open spec fn single_cols(t: Seq<char>, a: int, b: int) -> int
    decreases b - a,
{
    if a >= b {
        0
    } else {
        single_cols(t, a, b - 1) + text::display_width(seq![t[b - 1]])
    }
}

/// Whether no part of a text is wider than its characters are one by one. A part can be:
/// a variation selector makes the character before it wider.
pub open spec fn adds_up(t: Seq<char>) -> bool {
    forall|a: int, b: int|
        #![trigger t.subrange(a, b)]
        0 <= a <= b <= t.len() ==> text::display_width(t.subrange(a, b)) <= single_cols(t, a, b)
}

/// No part of a text of printable ASCII is wider than its characters are one by one.
pub proof fn law_printable_text_adds_up(t: Seq<char>)
    requires
        text::is_printable(t),
        t.len() <= usize::MAX,
    ensures
        adds_up(t),
{
    assert forall|a: int, b: int|
        #![trigger t.subrange(a, b)]
        0 <= a <= b <= t.len() implies text::display_width(t.subrange(a, b)) <= single_cols(
        t,
        a,
        b,
    ) by {
        lemma_printable_cols(t, a, b);
    }
}

proof fn lemma_printable_cols(t: Seq<char>, a: int, b: int)
    requires
        text::is_printable(t),
        t.len() <= usize::MAX,
        0 <= a <= b <= t.len(),
    ensures
        text::display_width(t.subrange(a, b)) == b - a,
        single_cols(t, a, b) == b - a,
    decreases b - a,
{
    reveal(text::display_width);
    let u = t.subrange(a, b);
    assert(text::is_printable(u)) by {
        assert forall|i: int| 0 <= i < u.len() implies text::is_printable_ascii(
            #[trigger] u[i],
        ) by {
            assert(u[i] == t[a + i]);
        }
    }
    if a < b {
        lemma_printable_cols(t, a, b - 1);
        let one = seq![t[b - 1]];
        assert(text::is_printable(one));
    }
}

proof fn lemma_fit_cols(t: Seq<char>, i: int, j: int, limit: int)
    requires
        0 <= i <= j <= t.len(),
        single_cols(t, i, j) <= limit,
    ensures
        ({
            let e = wrap::fit_end(t, j, single_cols(t, i, j), limit);
            j <= e <= t.len() && single_cols(t, i, e) <= limit
        }),
    decreases t.len() - j,
{
    if j < t.len() && single_cols(t, i, j + 1) <= limit {
        lemma_fit_cols(t, i, j + 1, limit);
    }
}

/// Whether every stretch of `t` without white space takes at most `limit` columns, or can
/// be cut where that is `allowed`.
pub open spec fn words_fit(t: Seq<char>, limit: usize, allowed: bool) -> bool {
    forall|i: int, e: int|
        #![trigger t.subrange(i, e)]
        0 <= i < e <= t.len() && (forall|k: int| i <= k < e ==> !text::is_space(#[trigger] t[k]))
            ==> text::display_width(t.subrange(i, e)) <= limit || (allowed && adds_up(
            t.subrange(i, e),
        ))
}

/// Whether a line fits into `width` columns. A line whose last character is wider than
/// what was left for it may go beyond by that one.
pub open spec fn line_fits(line: Seq<style::SpanView>, width: usize) -> bool {
    statusline::line_cols(line) <= width || (line.len() > 0 && line.last().content.len() == 1
        && statusline::line_cols(line.drop_last()) < width)
}

/// What lines are held to.
struct Bounds {
    /// The line that the block begins with.
    from: nat,
    /// Columns that every line has beside its prefix.
    limit: usize,
    /// Columns that continuation lines have beside theirs.
    cont: usize,
    width: usize,
    /// Whether words may be cut.
    cuts: bool,
}

impl Bounds {
    /// A pen whose finished lines, from the first of the block on, and whose line in
    /// progress fit.
    spec fn fits(self, p: wrap::PenView) -> bool {
        &&& p.col == statusline::line_cols(p.spans)
        &&& p.at_line_start ==> p.inner == 0
        &&& 0 < p.room < usize::MAX
        &&& self.limit <= p.room
        &&& self.cuts ==> p.room <= self.cont
        &&& p.inner <= p.room ==> p.col + (p.room - p.inner) <= self.width
        &&& p.inner > p.room ==> line_fits(p.spans, self.width)
        &&& self.from <= p.lines.len()
        &&& forall|i: int|
            self.from <= i < p.lines.len() ==> line_fits(#[trigger] p.lines[i], self.width)
    }

    spec fn frames(self, f: wrap::FrameView) -> bool {
        &&& f.hanging_width == statusline::line_cols(f.hanging)
        &&& 0 < f.cont_room < usize::MAX
        &&& f.cont_room == self.cont
        &&& self.limit <= f.cont_room
        &&& f.hanging_width + f.cont_room <= self.width
    }
}

proof fn lemma_span_cols_prefix(a: Seq<style::SpanView>, b: Seq<style::SpanView>, n: int)
    requires
        n <= a.len(),
        n <= b.len(),
        forall|i: int| 0 <= i < n ==> a[i] == b[i],
    ensures
        paint::span_cols(a, n) == paint::span_cols(b, n),
    decreases n,
{
    if n > 0 {
        lemma_span_cols_prefix(a, b, n - 1);
    }
}

proof fn lemma_broken_fits(b: Bounds, p: wrap::PenView, f: wrap::FrameView)
    requires
        b.fits(p),
        b.frames(f),
    ensures
        b.fits(p.broken(f)),
{
    let q = p.broken(f);
    assert forall|i: int| b.from <= i < q.lines.len() implies line_fits(
        #[trigger] q.lines[i],
        b.width,
    ) by {
        if i < p.lines.len() {
            assert(q.lines[i] == p.lines[i]);
        }
    }
}

proof fn lemma_put_fits(b: Bounds, p: wrap::PenView, s: Style, chunk: Seq<char>)
    requires
        b.fits(p),
        p.inner + text::display_width(chunk) <= p.room || (chunk.len() == 1 && p.inner < p.room),
    ensures
        b.fits(p.put(s, chunk)),
{
    let q = p.put(s, chunk);
    lemma_span_cols_prefix(q.spans, p.spans, p.spans.len() as int);
    assert(q.spans.drop_last() =~= p.spans);
    assert(q.spans.last().content == chunk);
}

proof fn lemma_split_fits(
    b: Bounds,
    p: wrap::PenView,
    f: wrap::FrameView,
    s: Style,
    word: Seq<char>,
    i: int,
)
    requires
        b.fits(p),
        b.frames(f),
        adds_up(word),
        0 <= i <= word.len(),
    ensures
        b.fits(p.split(f, s, word, i)),
    decreases word.len() - i,
{
    if i < word.len() {
        lemma_broken_fits(b, p, f);
        let a = if p.avail() == 0 && !p.at_line_start {
            p.broken(f)
        } else {
            p
        };
        let room = a.avail() as int;
        assert(room > 0);
        lemma_fit_cols(word, i, i, room);
        let fit = wrap::fit_end(word, i, 0, room);
        let e = if fit <= i {
            i + 1
        } else {
            fit
        };
        assert(text::display_width(word.subrange(i, e)) <= single_cols(word, i, e));
        lemma_put_fits(b, a, s, word.subrange(i, e));
        let q = a.put(s, word.subrange(i, e));
        if e < word.len() {
            lemma_broken_fits(b, q, f);
            lemma_split_fits(b, q.broken(f), f, s, word, e);
        }
    }
}

proof fn lemma_placed_fits(
    b: Bounds,
    p: wrap::PenView,
    f: wrap::FrameView,
    s: Style,
    word: Seq<char>,
)
    requires
        b.fits(p),
        b.frames(f),
        word.len() > 0,
        text::is_space(word[0]) || text::display_width(word) <= b.limit || (b.cuts && adds_up(
            word,
        )),
    ensures
        b.fits(p.placed(f, s, word)),
{
    let w = text::display_width(word);
    lemma_broken_fits(b, p, f);
    if text::is_space(word[0]) {
        if !p.at_line_start && p.inner + w <= p.room {
            lemma_put_fits(b, p, s, word);
        }
    } else if w > p.room {
        lemma_split_fits(b, p, f, s, word, 0);
    } else if p.inner + w > p.room && !p.at_line_start {
        lemma_put_fits(b, p.broken(f), s, word);
    } else {
        lemma_put_fits(b, p, s, word);
    }
}

proof fn lemma_chunk_alike(t: Seq<char>, i: int, j: int)
    requires
        0 <= i < j <= t.len(),
        forall|k: int| i <= k < j ==> text::is_space(#[trigger] t[k]) == text::is_space(t[i]),
    ensures
        forall|k: int|
            i <= k < wrap::chunk_end(t, i, j) ==> text::is_space(#[trigger] t[k])
                == text::is_space(t[i]),
    decreases t.len() - j,
{
    if j < t.len() && text::is_space(t[j]) == text::is_space(t[i]) {
        lemma_chunk_alike(t, i, j + 1);
    }
}

proof fn lemma_segment_fits(
    b: Bounds,
    p: wrap::PenView,
    f: wrap::FrameView,
    s: Style,
    t: Seq<char>,
    i: int,
)
    requires
        b.fits(p),
        b.frames(f),
        words_fit(t, b.limit, b.cuts),
    ensures
        b.fits(p.segment(f, s, t, i)),
    decreases t.len() - i,
{
    if 0 <= i < t.len() {
        wrap::lemma_chunk_end(t, i, i + 1);
        lemma_chunk_alike(t, i, i + 1);
        let e = wrap::chunk_end(t, i, i + 1);
        let word = t.subrange(i, e);
        lemma_placed_fits(b, p, f, s, word);
        lemma_segment_fits(b, p.placed(f, s, word), f, s, t, e);
    }
}

proof fn lemma_words_fit_part(t: Seq<char>, a: int, e: int, limit: usize, allowed: bool)
    requires
        0 <= a <= e <= t.len(),
        words_fit(t, limit, allowed),
    ensures
        words_fit(t.subrange(a, e), limit, allowed),
{
    let u = t.subrange(a, e);
    assert forall|i: int, j: int|
        #![trigger u.subrange(i, j)]
        0 <= i < j <= u.len() && (forall|k: int| i <= k < j ==> !text::is_space(
            #[trigger] u[k],
        )) implies text::display_width(u.subrange(i, j)) <= limit || (allowed && adds_up(
        u.subrange(i, j),
    )) by {
        assert(u.subrange(i, j) =~= t.subrange(a + i, a + j));
        assert forall|k: int| a + i <= k < a + j implies !text::is_space(#[trigger] t[k]) by {
            assert(t[k] == u[k - a]);
        }
    }
}

proof fn lemma_flowed_fits(
    b: Bounds,
    p: wrap::PenView,
    f: wrap::FrameView,
    s: Style,
    t: Seq<char>,
    i: int,
)
    requires
        b.fits(p),
        b.frames(f),
        words_fit(t, b.limit, b.cuts),
    ensures
        b.fits(p.flowed(f, s, t, i)),
    decreases t.len() - i,
{
    if 0 <= i < t.len() {
        text::lemma_first_char(t, '\n', i);
        match text::first_char(t, '\n', i) {
            Some(k) => {
                lemma_words_fit_part(t, i, k, b.limit, b.cuts);
                let q = p.segment(f, s, t.subrange(i, k), 0);
                lemma_segment_fits(b, p, f, s, t.subrange(i, k), 0);
                lemma_broken_fits(b, q, f);
                lemma_flowed_fits(b, q.broken(f), f, s, t, k + 1);
            },
            None => {
                let n = t.len() as int;
                lemma_words_fit_part(t, i, n, b.limit, b.cuts);
                lemma_segment_fits(b, p, f, s, t.subrange(i, n), 0);
            },
        }
    }
}

proof fn lemma_runs_fit(b: Bounds, p: wrap::PenView, f: wrap::FrameView, rs: Seq<wrap::RunView>)
    requires
        b.fits(p),
        b.frames(f),
        forall|i: int| 0 <= i < rs.len() ==> words_fit((#[trigger] rs[i]).text, b.limit, b.cuts),
    ensures
        b.fits(p.runs(f, rs)),
    decreases rs.len(),
{
    if rs.len() > 0 {
        let before = rs.drop_last();
        assert forall|i: int| 0 <= i < before.len() implies words_fit(
            (#[trigger] before[i]).text,
            b.limit,
            b.cuts,
        ) by {
            assert(before[i] == rs[i]);
        }
        lemma_runs_fit(b, p, f, before);
        let q = p.runs(f, before);
        let r = rs[rs.len() - 1];
        let linked = q.pinned(r.image).linked(f, r.link);
        assert(b.fits(linked));
        lemma_flowed_fits(b, linked, f, r.style, r.text, 0);
    }
}

proof fn lemma_prefix_cols(rs: Seq<wrap::RunView>, n: int)
    requires
        0 <= n <= rs.len(),
    ensures
        paint::span_cols(wrap::spans_of(rs), n) == wrap::runs_width(rs.take(n)),
    decreases n,
{
    if n > 0 {
        lemma_prefix_cols(rs, n - 1);
        assert(rs.take(n).drop_last() =~= rs.take(n - 1));
    }
}

/// Wrapped text keeps to its width: no line of a block is wider than it should be, but
/// for one character that is wider than what was left for it. That holds where every word
/// fits beside the prefixes. It also holds of longer words, which are cut, where no part of
/// them is wider than its characters are one by one and the hanging prefix is no wider than
/// the first.
pub proof fn law_wrapped_lines_fit(
    p: wrap::PenView,
    runs: Seq<wrap::RunView>,
    prefix: Seq<wrap::RunView>,
    hanging: Seq<wrap::RunView>,
    width: usize,
    targets: Seq<links::TargetView>,
    boxes: Seq<PendingCheckbox>,
    limit: usize,
)
    requires
        wrap::runs_width(prefix) < width,
        wrap::runs_width(hanging) < width,
        width < usize::MAX,
        wrap::runs_width(prefix) + limit <= width,
        wrap::runs_width(hanging) + limit <= width,
        forall|i: int|
            0 <= i < runs.len() ==> words_fit(
                (#[trigger] runs[i]).text,
                limit,
                wrap::runs_width(hanging) <= wrap::runs_width(prefix),
            ),
    ensures
        ({
            let q = p.wrapped(runs, prefix, hanging, width, targets, boxes);
            forall|i: int|
                p.lines.len() <= i < q.lines.len() ==> line_fits(#[trigger] q.lines[i], width)
        }),
{
    let f = wrap::frame_view(hanging, width, targets, boxes);
    let b = Bounds {
        from: p.lines.len(),
        limit,
        cont: f.cont_room,
        width,
        cuts: wrap::runs_width(hanging) <= wrap::runs_width(prefix),
    };
    let a = p.started(prefix, width);
    lemma_prefix_cols(prefix, prefix.len() as int);
    assert(prefix.take(prefix.len() as int) =~= prefix);
    lemma_prefix_cols(hanging, hanging.len() as int);
    assert(hanging.take(hanging.len() as int) =~= hanging);
    assert(b.frames(f));
    assert(b.fits(a));
    lemma_runs_fit(b, a, f, runs);
    let c = a.runs(f, runs);
    let q = c.ended(f);
    assert forall|i: int| b.from <= i < q.lines.len() implies line_fits(
        #[trigger] q.lines[i],
        width,
    ) by {
        if i < c.lines.len() {
            assert(q.lines[i] == c.lines[i]);
        }
    }
}

// ---------------------------------------------------------------------------
// Tables
// ---------------------------------------------------------------------------

/// Columns of a table row up to and with its `n`th border.
pub open spec fn frame_cols(ws: Seq<usize>, n: int) -> int
    decreases n,
{
    if n <= 0 {
        1
    } else {
        frame_cols(ws, n - 1) + ws[n - 1] + 3
    }
}

proof fn lemma_frame_cols_grow(ws: Seq<usize>, i: int, j: int)
    requires
        0 <= i <= j <= ws.len(),
    ensures
        1 <= frame_cols(ws, i) <= frame_cols(ws, j),
    decreases j,
{
    if i < j {
        lemma_frame_cols_grow(ws, i, j - 1);
    } else if i > 0 {
        lemma_frame_cols_grow(ws, i - 1, i - 1);
    }
}

proof fn lemma_row_runs_col(
    p: table::RowPen,
    rs: Seq<wrap::RunView>,
    head: Option<style::Color>,
    line: usize,
    targets: Seq<links::TargetView>,
)
    ensures
        p.runs(rs, head, line, targets).col == text::sat(p.col + wrap::runs_width(rs)),
    decreases rs.len(),
{
    if rs.len() > 0 {
        lemma_row_runs_col(p, rs.drop_last(), head, line, targets);
    }
}

proof fn lemma_cells_col(
    p: table::RowPen,
    row: Seq<Seq<wrap::RunView>>,
    ws: Seq<usize>,
    aligns: Seq<table::Align>,
    head: Option<style::Color>,
    border: Style,
    line: usize,
    targets: Seq<links::TargetView>,
    n: int,
)
    requires
        0 <= n <= ws.len(),
        p.col == 1,
        frame_cols(ws, ws.len() as int) <= usize::MAX,
        forall|c: int|
            0 <= c < ws.len() ==> wrap::runs_width(
                table::truncated(table::cell_at(row, c), #[trigger] ws[c]),
            ) <= ws[c],
    ensures
        p.cells(row, ws, aligns, head, border, line, targets, n).col == frame_cols(ws, n),
    decreases n,
{
    if n > 0 {
        lemma_cells_col(p, row, ws, aligns, head, border, line, targets, n - 1);
        lemma_frame_cols_grow(ws, n, ws.len() as int);
        lemma_frame_cols_grow(ws, n - 1, n - 1);
        let q = p.cells(row, ws, aligns, head, border, line, targets, n - 1);
        let w = ws[n - 1];
        let cell = table::truncated(table::cell_at(row, n - 1), w);
        let (l, r) = table::pads(w, wrap::runs_width(cell), table::align_at(aligns, n - 1));
        assert(l + wrap::runs_width(cell) + r == w);
        let padded = q.put(Style::plain(), " "@, 1).pad(l);
        let a = table::RowPen { link: None, link_start: padded.col, ..padded };
        lemma_row_runs_col(a, cell, head, line, targets);
    }
}

proof fn lemma_border_len(ws: Seq<usize>, left: char, mid: char, right: char, n: int)
    requires
        0 <= n <= ws.len(),
        frame_cols(ws, ws.len() as int) <= usize::MAX,
    ensures
        table::border_text(ws, left, mid, right, n).len() == frame_cols(ws, n),
    decreases n,
{
    if n > 0 {
        lemma_border_len(ws, left, mid, right, n - 1);
        lemma_frame_cols_grow(ws, n, ws.len() as int);
        lemma_frame_cols_grow(ws, n - 1, n - 1);
    }
}

proof fn lemma_widest(rows: Seq<Seq<Seq<wrap::RunView>>>, i: int, c: int)
    requires
        0 <= i < rows.len(),
    ensures
        wrap::runs_width(table::cell_at(rows[i], c)) <= table::widest(rows, c),
    decreases rows.len(),
{
    if i < rows.len() - 1 {
        lemma_widest(rows.drop_last(), i, c);
        assert(rows.drop_last()[i] == rows[i]);
    }
}

proof fn lemma_runs_width_front(r: wrap::RunView, rs: Seq<wrap::RunView>)
    ensures
        wrap::runs_width(seq![r] + rs) == text::sat(
            text::display_width(r.text) + wrap::runs_width(rs),
        ),
    decreases rs.len(),
{
    if rs.len() == 0 {
        assert(seq![r] + rs =~= seq![r]);
        assert(seq![r].drop_last() =~= Seq::empty());
        reveal_with_fuel(wrap::runs_width, 2);
    } else {
        lemma_runs_width_front(r, rs.drop_last());
        assert((seq![r] + rs).drop_last() =~= seq![r] + rs.drop_last());
    }
}

/// Whether no part of the text of a cell is wider than its characters are one by one.
pub open spec fn cell_adds_up(cell: Seq<wrap::RunView>) -> bool {
    forall|k: int| 0 <= k < cell.len() ==> adds_up((#[trigger] cell[k]).text)
}

proof fn lemma_cut_fits(rs: Seq<wrap::RunView>, i: int, budget: int)
    requires
        0 <= i,
        0 <= budget,
        cell_adds_up(rs),
    ensures
        wrap::runs_width(table::cut_runs(rs, i, budget)) <= budget,
    decreases rs.len() - i,
{
    if i < rs.len() {
        let r = rs[i];
        let w = text::display_width(r.text);
        assert(adds_up(r.text));
        if w <= budget {
            lemma_cut_fits(rs, i + 1, budget - w);
            lemma_runs_width_front(r, table::cut_runs(rs, i + 1, budget - w));
        } else {
            lemma_fit_cols(r.text, 0, 0, budget);
            let e = wrap::fit_end(r.text, 0, 0, budget);
            if e > 0 {
                let cut = wrap::RunView { text: r.text.take(e), ..r };
                lemma_runs_width_front(cut, Seq::empty());
                assert(seq![cut] + Seq::<wrap::RunView>::empty() =~= seq![cut]);
                assert(r.text.take(e) =~= r.text.subrange(0, e));
            }
        }
    }
}

/// A cell cut to at least one column takes no more than that.
proof fn lemma_truncated_fits(cell: Seq<wrap::RunView>, w: usize)
    requires
        wrap::runs_width(cell) <= w || (w > 0 && cell_adds_up(cell)),
    ensures
        wrap::runs_width(table::truncated(cell, w)) <= w,
{
    if wrap::runs_width(cell) > w {
        lemma_cut_fits(cell, 0, w - 1);
        let dots = wrap::plain_run("…"@, Style::plain());
        let cut = table::cut_runs(cell, 0, w - 1);
        assert(cut.push(dots).drop_last() =~= cut);
        reveal_strlit("…");
        reveal(text::display_width);
        assert(!text::is_printable_ascii("…"@[0]));
    }
}

/// A table is aligned, whether its cells fit or are cut: its header, each of its rows and
/// its borders end at the same column. Where cells are cut, no part of their text is to be
/// wider than its characters are one by one.
pub proof fn law_table_is_aligned(
    header: Seq<Seq<wrap::RunView>>,
    rows: Seq<Seq<Seq<wrap::RunView>>>,
    aligns: Seq<table::Align>,
    max_width: usize,
    head: Option<style::Color>,
    border: Style,
    line: usize,
    targets: Seq<links::TargetView>,
    out: Seq<links::LinkSpanView>,
    i: int,
)
    requires
        0 <= i < rows.len(),
        ({
            let ws = table::column_widths(header, rows, max_width);
            &&& frame_cols(ws, ws.len() as int) <= usize::MAX
            &&& ws != table::natural_widths(header, rows) ==> {
                &&& forall|c: int| 0 <= c < header.len() ==> cell_adds_up(#[trigger] header[c])
                &&& forall|c: int| 0 <= c < rows[i].len() ==> cell_adds_up(#[trigger] rows[i][c])
            }
        }),
    ensures
        ({
            let ws = table::column_widths(header, rows, max_width);
            let end = frame_cols(ws, ws.len() as int);
            &&& table::row_view(header, ws, aligns, head, border, line, targets, out).col == end
            &&& table::row_view(rows[i], ws, aligns, None, border, line, targets, out).col == end
            &&& forall|left: char, mid: char, right: char|
                (#[trigger] table::border_text(ws, left, mid, right, ws.len() as int)).len() == end
        }),
{
    let ws = table::column_widths(header, rows, max_width);
    let natural = table::natural_widths(header, rows);
    let start = table::RowPen {
        spans: seq![style::span("│"@, border)],
        col: 1,
        links: out,
        link: None,
        link_start: 0,
    };
    let n = ws.len() as int;
    assert forall|c: int| 0 <= c < ws.len() implies wrap::runs_width(
        table::truncated(table::cell_at(header, c), #[trigger] ws[c]),
    ) <= ws[c] by {
        assert(ws == natural ==> wrap::runs_width(table::cell_at(header, c)) <= natural[c]);
        lemma_truncated_fits(table::cell_at(header, c), ws[c]);
    }
    assert forall|c: int| 0 <= c < ws.len() implies wrap::runs_width(
        table::truncated(table::cell_at(rows[i], c), #[trigger] ws[c]),
    ) <= ws[c] by {
        lemma_widest(rows, i, c);
        assert(ws == natural ==> wrap::runs_width(table::cell_at(rows[i], c)) <= natural[c]);
        lemma_truncated_fits(table::cell_at(rows[i], c), ws[c]);
    }
    lemma_cells_col(start, header, ws, aligns, head, border, line, targets, n);
    lemma_cells_col(start, rows[i], ws, aligns, None, border, line, targets, n);
    assert forall|left: char, mid: char, right: char|
        (#[trigger] table::border_text(ws, left, mid, right, ws.len() as int)).len() == frame_cols(
            ws,
            n,
        ) by {
        lemma_border_len(ws, left, mid, right, n);
    }
}

// ---------------------------------------------------------------------------
// Source rows
// ---------------------------------------------------------------------------

proof fn lemma_row_end_fits(t: Seq<char>, i: int, j: int, width: int)
    requires
        0 <= i <= j <= t.len(),
        j <= i + 1 || statusline::total_cols(t, i, j) <= width,
    ensures
        ({
            let e = raw::row_end(t, i, j, statusline::total_cols(t, i, j), width);
            e <= i + 1 || statusline::total_cols(t, i, e) <= width
        }),
    decreases t.len() - j,
{
    let used = statusline::total_cols(t, i, j);
    if j < t.len() && !(t[j] == '\n' || (j > i && used + text::cols(t[j]) > width)) {
        assert(statusline::total_cols(t, i, j + 1) == used + text::cols(t[j]));
        lemma_row_end_fits(t, i, j + 1, width);
    }
}

/// A row of source text takes no more columns than the pane has, unless it is a
/// single character.
pub proof fn law_source_rows_fit(t: Seq<char>, width: int, i: int)
    requires
        0 <= i <= t.len(),
    ensures
        ({
            let e = raw::row_end(t, i, i, 0, width);
            e <= i + 1 || statusline::total_cols(t, i, e) <= width
        }),
{
    assert(statusline::total_cols(t, i, i) == 0);
    lemma_row_end_fits(t, i, i, width);
}

proof fn lemma_rows_cover(t: Seq<char>, width: int, i: int)
    requires
        0 <= i <= t.len(),
    ensures
        ({
            let rows = raw::rows_from(t, width, i);
            &&& rows.len() > 0
            &&& rows[0].start == bytes::byte_pos(t, i)
            &&& rows.last().end == bytes::byte_count(t)
            &&& forall|k: int|
                0 <= k < rows.len() ==> (#[trigger] rows[k]).end - rows[k].start
                    == bytes::byte_count(rows[k].text)
            &&& forall|k: int|
                0 <= k < rows.len() - 1 ==> (#[trigger] rows[k]).end <= rows[k + 1].start
                    <= rows[k].end + 1
        }),
    decreases t.len() - i,
{
    raw::lemma_row_end(t, i, i, 0, width);
    let e = raw::row_end(t, i, i, 0, width);
    bytes::lemma_byte_pos_split(t, i, e);
    bytes::lemma_byte_pos_ends(t);
    let rows = raw::rows_from(t, width, i);
    if e < t.len() {
        let next = raw::row_next(t, e);
        lemma_rows_cover(t, width, next);
        let more = raw::rows_from(t, width, next);
        bytes::lemma_byte_pos_step(t, e);
        bytes::lemma_utf8_width(t[e]);
        assert(rows.last() == more.last());
        assert forall|k: int| 0 <= k < rows.len() implies (#[trigger] rows[k]).end - rows[k].start
            == bytes::byte_count(rows[k].text) by {
            if k > 0 {
                assert(rows[k] == more[k - 1]);
            }
        }
        assert forall|k: int| 0 <= k < rows.len() - 1 implies (#[trigger] rows[k]).end
            <= rows[k + 1].start <= rows[k].end + 1 by {
            assert(rows[k + 1] == more[k]);
            if k > 0 {
                assert(rows[k] == more[k - 1]);
            }
        }
    }
}

/// The rows of a source text cover it from its first byte to its last: each goes on
/// where the one before ended, or behind the newline there.
pub proof fn law_source_rows_cover(t: Seq<char>, width: int)
    ensures
        ({
            let rows = raw::raw_rows(t, width);
            &&& rows.len() > 0
            &&& rows[0].start == 0
            &&& rows.last().end == bytes::byte_count(t)
            &&& forall|k: int|
                0 <= k < rows.len() ==> (#[trigger] rows[k]).end - rows[k].start
                    == bytes::byte_count(rows[k].text)
            &&& forall|k: int|
                0 <= k < rows.len() - 1 ==> (#[trigger] rows[k]).end <= rows[k + 1].start
                    <= rows[k].end + 1
        }),
{
    bytes::lemma_byte_pos_ends(t);
    lemma_rows_cover(t, width, 0);
}

} // verus!
