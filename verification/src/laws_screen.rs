//! What the screen shows of a document, and what a click on it meets.

use vstd::prelude::*;
use crate::app;
use crate::laws_shown::{lemma_line_text, shown};
use crate::links;
use crate::markdown;
use crate::paint;
use crate::reader;
use crate::reader::Focus;
use crate::selection;
use crate::style;
use crate::text;
use crate::theme::Theme;
use crate::views;

verus! {

// ---------------------------------------------------------------------------
// Drawing
// ---------------------------------------------------------------------------

proof fn lemma_painted(
    spans: Seq<style::SpanView>,
    from: usize,
    to: usize,
    mark: paint::Mark,
    theme: Theme,
)
    ensures
        shown(paint::painted(spans, from, to, mark, theme)) == shown(spans),
{
    paint::law_paint_keeps_text(spans, from, to, mark, theme);
    lemma_line_text(spans);
    lemma_line_text(paint::painted(spans, from, to, mark, theme));
}

proof fn lemma_link_marked(
    spans: Seq<style::SpanView>,
    all: Seq<links::LinkSpanView>,
    which: Option<usize>,
    idx: usize,
    theme: Theme,
)
    ensures
        shown(paint::link_marked(spans, all, which, idx, theme)) == shown(spans),
{
    if let Some(i) = which {
        if i < all.len() {
            let l = all[i as int];
            lemma_painted(spans, l.col_start, l.col_end, paint::Mark::Link, theme);
        }
    }
}

proof fn lemma_box_marked(
    spans: Seq<style::SpanView>,
    all: Seq<links::CheckboxSpan>,
    which: Option<usize>,
    idx: usize,
    theme: Theme,
)
    ensures
        shown(paint::box_marked(spans, all, which, idx, theme)) == shown(spans),
{
    if let Some(i) = which {
        if i < all.len() {
            let b = all[i as int];
            lemma_painted(spans, b.col_start, b.col_end, paint::Mark::Checkbox, theme);
        }
    }
}

proof fn lemma_matches_marked(
    spans: Seq<style::SpanView>,
    s: reader::DocSearchModel,
    idx: usize,
    theme: Theme,
    n: int,
)
    requires
        n <= s.matches.len(),
    ensures
        shown(paint::matches_marked(spans, s, idx, theme, n)) == shown(spans),
    decreases n,
{
    if n > 0 {
        lemma_matches_marked(spans, s, idx, theme, n - 1);
        let before = paint::matches_marked(spans, s, idx, theme, n - 1);
        let m = s.matches[n - 1];
        lemma_painted(before, m.col_start, m.col_end, paint::Mark::CurrentMatch, theme);
        lemma_painted(before, m.col_start, m.col_end, paint::Mark::Match, theme);
    }
}

proof fn lemma_shown_line(
    r: reader::ReaderModel,
    rd: markdown::RenderedView,
    idx: usize,
    focus: bool,
    theme: Theme,
)
    ensures
        shown(r.shown_line(rd, idx, focus, theme)) == shown(rd.lines[idx as int]),
{
    let plain = rd.lines[idx as int];
    lemma_link_marked(plain, rd.links, r.focused_link(), idx, theme);
    let a = paint::link_marked(plain, rd.links, r.focused_link(), idx, theme);
    lemma_box_marked(a, rd.boxes, r.focused_box(), idx, theme);
    let b = paint::box_marked(a, rd.boxes, r.focused_box(), idx, theme);
    let c = if focus {
        b
    } else {
        plain
    };
    lemma_link_marked(c, rd.links, r.hover_link, idx, theme);
    let d = paint::link_marked(c, rd.links, r.hover_link, idx, theme);
    lemma_box_marked(d, rd.boxes, r.hover_checkbox, idx, theme);
    let e = paint::box_marked(d, rd.boxes, r.hover_checkbox, idx, theme);
    if let Some(s) = r.doc_search {
        lemma_matches_marked(e, s, idx, theme, s.matches.len() as int);
    }
}

/// Whether a text is a number, with spaces before it and one behind it.
pub open spec fn shows_number(t: Seq<char>, n: nat) -> bool {
    let d = text::decimal(n);
    &&& t.len() >= d.len() + 1
    &&& t.last() == ' '
    &&& t.subrange(t.len() - 1 - d.len(), t.len() - 1) == d
    &&& forall|k: int| 0 <= k < t.len() - 1 - d.len() ==> #[trigger] t[k] == ' '
}

/// The screen shows the lines of the document from the scroll position on, one on each row
/// as far as there are rows and lines, whatever is marked in them. A gutter shows the number
/// of each, counted from one.
pub proof fn law_screen_shows_the_document(
    m: app::Model,
    r: reader::ReaderModel,
    rd: markdown::RenderedView,
    area: app::Rect,
)
    requires
        r.scroll < rd.lines.len() <= usize::MAX,
    ensures
        ({
            let f = m.frame(r, rd, area);
            let left = rd.lines.len() - r.scroll;
            &&& f.lines.len() == (if left < area.height {
                left
            } else {
                area.height as int
            })
            &&& forall|i: int|
                0 <= i < f.lines.len() ==> shown(#[trigger] f.lines[i]) == shown(
                    rd.lines[r.scroll + i],
                )
            &&& m.opts.line_numbers ==> f.numbers.len() == f.lines.len() && forall|i: int|
                0 <= i < f.numbers.len() ==> shows_number(
                    shown(#[trigger] f.numbers[i]),
                    (r.scroll + i + 1) as nat,
                )
        }),
{
    let f = m.frame(r, rd, area);
    assert forall|i: int| 0 <= i < f.lines.len() implies shown(#[trigger] f.lines[i]) == shown(
        rd.lines[r.scroll + i],
    ) by {
        lemma_shown_line(r, rd, (r.scroll + i) as usize, !m.mouse_recent, m.opts.theme);
    }
    if m.opts.line_numbers {
        let w = text::decimal(rd.lines.len()).len() + 1;
        assert forall|i: int| 0 <= i < f.numbers.len() implies shows_number(
            shown(#[trigger] f.numbers[i]),
            (r.scroll + i + 1) as nat,
        ) by {
            let n = (r.scroll + i + 1) as nat;
            let t = crate::frame::number_text(n, w as int);
            assert(f.numbers[i].map_values(|s: style::SpanView| s.content) =~= seq![t]);
            seq![t].lemma_flatten_one_element();
            let d = text::decimal(n);
            assert(t.subrange(t.len() - 1 - d.len(), t.len() - 1) =~= d);
        }
    }
}

// ---------------------------------------------------------------------------
// Clicks
// ---------------------------------------------------------------------------

/// Whether a place of the document is drawn on a cell of the screen: so many rows below the
/// top of the body, and so many columns right of the gutter.
pub open spec fn is_drawn_at(
    m: app::Model,
    r: reader::ReaderModel,
    line: int,
    c: int,
    col: u16,
    row: u16,
) -> bool {
    let gutter = if m.opts.line_numbers {
        text::decimal(r.total()).len() + 1
    } else {
        0
    };
    &&& r.scroll <= line
    &&& 0 <= c
    &&& row == m.viewport.y + (line - r.scroll)
    &&& col == m.viewport.x + gutter + c
    &&& row < m.viewport.y + m.viewport.height
    &&& col < m.viewport.x + m.viewport.width
}

/// Whether link `k` is the only one at a place.
pub open spec fn is_only_link(rd: markdown::RenderedView, k: int, line: int, c: int) -> bool {
    &&& 0 <= k < rd.links.len() <= usize::MAX
    &&& rd.links[k].line == line
    &&& rd.links[k].col_start <= c < rd.links[k].col_end
    &&& forall|j: int|
        0 <= j < rd.links.len() && j != k && #[trigger] rd.links[j].line == line ==> !(
        rd.links[j].col_start <= c < rd.links[j].col_end)
}

/// Whether a task marker stands at a place.
pub open spec fn box_at(rd: markdown::RenderedView, k: int, line: int, c: int) -> bool {
    &&& 0 <= k < rd.boxes.len()
    &&& rd.boxes[k].line == line
    &&& rd.boxes[k].col_start <= c < rd.boxes[k].col_end
}

/// Whether task marker `k` is the only one at a place.
pub open spec fn is_only_box(rd: markdown::RenderedView, k: int, line: int, c: int) -> bool {
    &&& rd.boxes.len() <= usize::MAX
    &&& box_at(rd, k, line, c)
    &&& forall|j: int| j != k ==> !#[trigger] box_at(rd, j, line, c)
}

proof fn lemma_places(
    m: app::Model,
    r: reader::ReaderModel,
    line: int,
    c: int,
    col: u16,
    row: u16,
)
    requires
        m.doc() == Some(r),
        r.rendered is Some,
        is_drawn_at(m, r, line, c, col, row),
    ensures
        m.line_at(row) == line,
        m.col_at(col) == Some(c as usize),
        m.place_at(col, row) == Some((line as usize, c as u16)),
{
}

proof fn lemma_only_link(rd: markdown::RenderedView, k: int, line: usize, c: usize)
    requires
        is_only_link(rd, k, line as int, c as int),
    ensures
        views::first_where(rd.links, links::link_covers(line, c), 0) == Some(k),
{
    let f = links::link_covers(line, c);
    views::lemma_first_where(rd.links, f, 0);
    assert(f(rd.links[k]));
    if let Some(i) = views::first_where(rd.links, f, 0) {
        assert(f(rd.links[i]));
        assert(rd.links[i].line == line);
    }
}

proof fn lemma_box(rd: markdown::RenderedView, line: usize, c: usize)
    ensures
        match views::first_where(rd.boxes, links::box_covers(line, c), 0) {
            Some(i) => box_at(rd, i, line as int, c as int),
            None => forall|j: int| !#[trigger] box_at(rd, j, line as int, c as int),
        },
{
    let f = links::box_covers(line, c);
    views::lemma_first_where(rd.boxes, f, 0);
    match views::first_where(rd.boxes, f, 0) {
        Some(i) => {
            assert(f(rd.boxes[i]));
        },
        None => {
            assert forall|j: int| !#[trigger] box_at(rd, j, line as int, c as int) by {
                if box_at(rd, j, line as int, c as int) {
                    assert(!f(rd.boxes[j]));
                }
            }
        },
    }
}

/// A click on a link that is drawn under the mouse focuses that link and follows it, and
/// the mouse over it marks that link.
pub proof fn law_click_follows_the_link_under_it(
    m: app::Model,
    r: reader::ReaderModel,
    rd: markdown::RenderedView,
    k: int,
    line: int,
    c: int,
    col: u16,
    row: u16,
)
    requires
        m.doc() == Some(r),
        r.rendered == Some(rd),
        r.edit is None,
        is_drawn_at(m, r, line, c, col, row),
        is_only_link(rd, k, line, c),
        forall|j: int| !#[trigger] box_at(rd, j, line, c),
    ensures
        m.clicked(col, row) == m.with_doc(
            reader::ReaderModel { focus: Some(Focus::Link(k as usize)), ..r },
        ).follow(rd.links[k].target),
        m.hovered(col, row) == m.with_doc(
            reader::ReaderModel { hover_link: Some(k as usize), hover_checkbox: None, ..r },
        ),
{
    lemma_places(m, r, line, c, col, row);
    lemma_only_link(rd, k, line as usize, c as usize);
    lemma_box(rd, line as usize, c as usize);
}

/// A click on a task marker that is drawn under the mouse flips that marker.
pub proof fn law_click_flips_the_marker_under_it(
    m: app::Model,
    r: reader::ReaderModel,
    rd: markdown::RenderedView,
    k: int,
    line: int,
    c: int,
    col: u16,
    row: u16,
)
    requires
        m.doc() == Some(r),
        r.rendered == Some(rd),
        r.edit is None,
        is_drawn_at(m, r, line, c, col, row),
        is_only_box(rd, k, line, c),
    ensures
        m.clicked(col, row) == m.toggle(k as usize),
{
    lemma_places(m, r, line, c, col, row);
    lemma_box(rd, line as usize, c as usize);
    assert(box_at(rd, k, line, c));
}

/// A click where nothing is drawn that reacts does nothing.
pub proof fn law_click_on_plain_text_does_nothing(
    m: app::Model,
    r: reader::ReaderModel,
    rd: markdown::RenderedView,
    line: int,
    c: int,
    col: u16,
    row: u16,
)
    requires
        m.doc() == Some(r),
        r.rendered == Some(rd),
        r.edit is None,
        is_drawn_at(m, r, line, c, col, row),
        forall|j: int| !#[trigger] box_at(rd, j, line, c),
        forall|j: int|
            0 <= j < rd.links.len() && #[trigger] rd.links[j].line == line ==> !(
            rd.links[j].col_start <= c < rd.links[j].col_end),
    ensures
        m.clicked(col, row) == (m, app::EffectModel::Nothing),
{
    lemma_places(m, r, line, c, col, row);
    lemma_box(rd, line as usize, c as usize);
    let f = links::link_covers(line as usize, c as usize);
    views::lemma_first_where(rd.links, f, 0);
    if let Some(i) = views::first_where(rd.links, f, 0) {
        assert(f(rd.links[i]));
        assert(rd.links[i].line == line);
    }
}

// ---------------------------------------------------------------------------
// Words
// ---------------------------------------------------------------------------

/// Whether a text is the word at position `c` of a line: the stretch without white space
/// around it, less the punctuation at its ends.
pub open spec fn is_word_at(t: Seq<char>, c: int, w: Seq<char>) -> bool {
    exists|a: int, b: int, from: int, to: int|
        {
            &&& 0 <= a <= from <= to <= b <= t.len()
            &&& a <= c < b
            &&& forall|x: int| a <= x < b ==> !text::is_space(#[trigger] t[x])
            &&& a > 0 ==> text::is_space(t[a - 1])
            &&& b < t.len() ==> text::is_space(t[b])
            &&& w == #[trigger] t.subrange(from, to)
            &&& forall|x: int| a <= x < from || to <= x < b ==> selection::is_edge(#[trigger] t[x])
            &&& w.len() > 0 ==> !selection::is_edge(w[0]) && !selection::is_edge(w.last())
            &&& #[trigger] is_range(a, b)
        }
}

pub open spec fn is_range(a: int, b: int) -> bool {
    a <= b
}

proof fn lemma_hit(t: Seq<char>, i: int, c: int)
    requires
        0 <= i <= c,
        forall|x: int| 0 <= x < t.len() ==> text::cols(#[trigger] t[x]) == 1,
    ensures
        selection::hit_index(t, i, i, c) == (if c < t.len() {
            Some(c)
        } else {
            None
        }),
    decreases t.len() - i,
{
    if i < t.len() && i < c {
        lemma_hit(t, i + 1, c);
    }
}

proof fn lemma_run_start(t: Seq<char>, i: int)
    requires
        0 <= i <= t.len(),
    ensures
        ({
            let a = selection::run_start(t, i);
            &&& 0 <= a <= i
            &&& forall|x: int| a <= x < i ==> !text::is_space(#[trigger] t[x])
            &&& a > 0 ==> text::is_space(t[a - 1])
        }),
    decreases i,
{
    if i > 0 && !text::is_space(t[i - 1]) {
        lemma_run_start(t, i - 1);
    }
}

proof fn lemma_run_end(t: Seq<char>, i: int)
    requires
        0 <= i <= t.len(),
    ensures
        ({
            let b = selection::run_end(t, i);
            &&& i <= b <= t.len()
            &&& forall|x: int| i <= x < b ==> !text::is_space(#[trigger] t[x])
            &&& b < t.len() ==> text::is_space(t[b])
        }),
    decreases t.len() - i,
{
    if i < t.len() && !text::is_space(t[i]) {
        lemma_run_end(t, i + 1);
    }
}

proof fn lemma_edge_start(t: Seq<char>, i: int, end: int)
    requires
        0 <= i <= end <= t.len(),
    ensures
        ({
            let f = selection::edge_start(t, i, end);
            &&& i <= f <= end
            &&& forall|x: int| i <= x < f ==> selection::is_edge(#[trigger] t[x])
            &&& f < end ==> !selection::is_edge(t[f])
        }),
    decreases end - i,
{
    if i < end && selection::is_edge(t[i]) {
        lemma_edge_start(t, i + 1, end);
    }
}

proof fn lemma_edge_end(t: Seq<char>, i: int, end: int)
    requires
        0 <= i <= end <= t.len(),
    ensures
        ({
            let f = selection::edge_end(t, i, end);
            &&& i <= f <= end
            &&& forall|x: int| f <= x < end ==> selection::is_edge(#[trigger] t[x])
            &&& i < f ==> !selection::is_edge(t[f - 1])
        }),
    decreases end - i,
{
    if i < end && selection::is_edge(t[end - 1]) {
        lemma_edge_end(t, i, end - 1);
    }
}

/// A double click takes the word that it meets: on a line whose characters take one column
/// each, the word around the column, and nothing on white space, on punctuation alone or
/// behind the line.
pub proof fn law_word_is_the_one_at_the_column(t: Seq<char>, c: int)
    requires
        0 <= c,
        forall|x: int| 0 <= x < t.len() ==> text::cols(#[trigger] t[x]) == 1,
    ensures
        match selection::word_at(t, c) {
            Some(w) => c < t.len() && w.len() > 0 && is_word_at(t, c, w),
            None => c >= t.len() || text::is_space(t[c]) || is_word_at(t, c, Seq::empty()),
        },
{
    lemma_hit(t, 0, c);
    if c < t.len() && !text::is_space(t[c]) {
        let a = selection::run_start(t, c);
        let b = selection::run_end(t, c);
        lemma_run_start(t, c);
        lemma_run_end(t, c);
        lemma_edge_start(t, a, b);
        let from = selection::edge_start(t, a, b);
        lemma_edge_end(t, from, b);
        let to = selection::edge_end(t, from, b);
        let w = t.subrange(from, to);
        assert(is_range(a, b));
        if from == to {
            assert(w =~= Seq::<char>::empty());
        }
        assert(is_word_at(t, c, w));
    }
}

// ---------------------------------------------------------------------------
// Marks
// ---------------------------------------------------------------------------

/// The cursor of an edit is drawn on the cell of its line and column, if that is on screen.
pub proof fn law_cursor_is_drawn_at_its_place(col: u16, row: u16, scroll: u16, body: app::Rect)
    requires
        body.y + body.height <= u16::MAX,
        body.x + body.width <= u16::MAX,
    ensures
        match crate::frame::cursor_cell(Some((col, row)), scroll, body) {
            Some((x, y)) => {
                &&& scroll <= row < scroll + body.height
                &&& col < body.width
                &&& x == body.x + col
                &&& y == body.y + (row - scroll)
            },
            None => !(scroll <= row < scroll + body.height && col < body.width),
        },
        crate::frame::cursor_cell(None, scroll, body) is None,
{
}

/// Columns of the first `n` spans.
pub open spec fn cols_upto(spans: Seq<style::SpanView>, n: int) -> int
    decreases n,
{
    if n <= 0 {
        0
    } else {
        cols_upto(spans, n - 1) + text::display_width(spans[n - 1].content)
    }
}

proof fn lemma_cols_upto(spans: Seq<style::SpanView>, n: int, m: int)
    requires
        0 <= n <= m <= spans.len(),
        cols_upto(spans, m) <= usize::MAX,
    ensures
        paint::span_cols(spans, n) == cols_upto(spans, n),
        0 <= cols_upto(spans, n) <= cols_upto(spans, m),
    decreases m, n,
{
    if n < m {
        lemma_cols_upto(spans, n, m - 1);
        lemma_cols_upto(spans, m - 1, m - 1);
    } else if n > 0 {
        lemma_cols_upto(spans, n - 1, n - 1);
    }
}

/// A link that is focused or under the mouse stands out on its line: the spans within its
/// columns are reversed and have the color of a focused link, and nothing else changes.
pub proof fn law_mark_stands_on_its_link(
    spans: Seq<style::SpanView>,
    all: Seq<links::LinkSpanView>,
    i: usize,
    idx: usize,
    theme: Theme,
    j: int,
)
    requires
        i < all.len(),
        0 <= j < spans.len(),
        cols_upto(spans, spans.len() as int) <= usize::MAX,
    ensures
        ({
            let a = paint::link_marked(spans, all, Some(i), idx, theme);
            let l = all[i as int];
            let within = l.line == idx && l.col_start <= cols_upto(spans, j) && cols_upto(
                spans,
                j + 1,
            ) <= l.col_end;
            &&& a.len() == spans.len()
            &&& a[j].content == spans[j].content
            &&& within ==> a[j].style == spans[j].style.fg(theme.link_focused).add_modifier(
                style::Modifier::reversed(),
            )
            &&& !within ==> a[j].style == spans[j].style
        }),
{
    let n = spans.len() as int;
    lemma_cols_upto(spans, j, n);
    lemma_cols_upto(spans, j + 1, n);
}

/// Looking for the next link from a place finds the first that starts there or behind, and
/// looking for the one before finds the last that ends there or before.
pub proof fn law_neighbour_link_is_the_nearest(
    all: Seq<links::LinkSpanView>,
    line: usize,
    col: usize,
)
    ensures
        match views::first_where(all, links::link_after(line, col), 0) {
            Some(i) => {
                &&& 0 <= i < all.len()
                &&& all[i].line > line || (all[i].line == line && all[i].col_start >= col)
                &&& forall|j: int|
                    0 <= j < i ==> (#[trigger] all[j]).line < line || (all[j].line == line
                        && all[j].col_start < col)
            },
            None => forall|j: int|
                0 <= j < all.len() ==> (#[trigger] all[j]).line < line || (all[j].line == line
                    && all[j].col_start < col),
        },
        match views::last_where(all, links::link_before(line, col), all.len() as int) {
            Some(i) => {
                &&& 0 <= i < all.len()
                &&& all[i].line < line || (all[i].line == line && all[i].col_end <= col)
                &&& forall|j: int|
                    i < j < all.len() ==> (#[trigger] all[j]).line > line || (all[j].line == line
                        && all[j].col_end > col)
            },
            None => forall|j: int|
                0 <= j < all.len() ==> (#[trigger] all[j]).line > line || (all[j].line == line
                    && all[j].col_end > col),
        },
{
    let f = links::link_after(line, col);
    let g = links::link_before(line, col);
    views::lemma_first_where(all, f, 0);
    views::lemma_last_where(all, g, all.len() as int);
    assert forall|j: int| 0 <= j < all.len() implies f(#[trigger] all[j]) == (all[j].line > line || (
    all[j].line == line && all[j].col_start >= col)) by {}
    assert forall|j: int| 0 <= j < all.len() implies g(#[trigger] all[j]) == (all[j].line < line || (
    all[j].line == line && all[j].col_end <= col)) by {}
}

} // verus!
