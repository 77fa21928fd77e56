//! Tables: column-aligned rows between box-drawing borders.

use vstd::prelude::*;
use crate::double;
use crate::double::shrink;
use crate::links;
use crate::links::{LinkSpan, LinkTarget};
use crate::style;
use crate::style::{Color, Line, Modifier, Span, Style};
use crate::text;
use crate::text::{from_chars, repeat_char, str_width, to_chars};
use crate::views;
use crate::wrap;
use crate::wrap::{find_fit_end, measure, Run};

verus! {

broadcast use crate::views::group_views;

/// How a column's cells are set.
#[derive(Clone, Copy, Debug, PartialEq, Eq, Structural)]
pub enum Align {
    /// The source names no alignment.
    Unset,
    Left,
    Center,
    Right,
}

/// The runs of one table cell.
#[derive(Debug)]
pub struct Cell {
    pub runs: Vec<Run>,
}

impl View for Cell {
    type V = Seq<wrap::RunView>;

    open spec fn view(&self) -> Seq<wrap::RunView> {
        views::views(self.runs@)
    }
}

/// The cells of one table row.
#[derive(Debug)]
pub struct Row {
    pub cells: Vec<Cell>,
}

impl View for Row {
    type V = Seq<Seq<wrap::RunView>>;

    open spec fn view(&self) -> Seq<Seq<wrap::RunView>> {
        views::views(self.cells@)
    }
}

/// A row's cell at `i`, empty past the end.
pub open spec fn cell_at(row: Seq<Seq<wrap::RunView>>, i: int) -> Seq<wrap::RunView> {
    if 0 <= i < row.len() {
        row[i]
    } else {
        Seq::empty()
    }
}

pub open spec fn max(a: usize, b: usize) -> usize {
    if a >= b {
        a
    } else {
        b
    }
}

fn larger(a: usize, b: usize) -> (r: usize)
    ensures
        r == max(a, b),
{
    if a >= b {
        a
    } else {
        b
    }
}

/// Length of the longest row.
pub open spec fn longest(rows: Seq<Seq<Seq<wrap::RunView>>>) -> usize
    decreases rows.len(),
{
    if rows.len() == 0 {
        0
    } else {
        max(longest(rows.drop_last()), rows.last().len() as usize)
    }
}

/// Width of the widest cell of column `c`.
pub open spec fn widest(rows: Seq<Seq<Seq<wrap::RunView>>>, c: int) -> usize
    decreases rows.len(),
{
    if rows.len() == 0 {
        0
    } else {
        max(widest(rows.drop_last(), c), wrap::runs_width(cell_at(rows.last(), c)))
    }
}

/// Number of columns of a table.
pub open spec fn column_count(
    header: Seq<Seq<wrap::RunView>>,
    rows: Seq<Seq<Seq<wrap::RunView>>>,
) -> usize {
    max(header.len() as usize, longest(rows))
}

/// Width of each column with all cells in full.
pub open spec fn natural_widths(
    header: Seq<Seq<wrap::RunView>>,
    rows: Seq<Seq<Seq<wrap::RunView>>>,
) -> Seq<usize> {
    Seq::new(
        column_count(header, rows) as nat,
        |c: int| max(wrap::runs_width(cell_at(header, c)), widest(rows, c)),
    )
}

/// The sum of column widths.
pub open spec fn total_width(ws: Seq<usize>) -> usize
    decreases ws.len(),
{
    if ws.len() == 0 {
        0
    } else {
        text::sat(total_width(ws.drop_last()) + ws.last())
    }
}

/// Columns that `n` cells may fill in a table of at most `max_width`: each cell
/// takes three more for its border and padding, and at least one for itself.
pub open spec fn content_room(n: usize, max_width: usize) -> usize {
    let frame = text::sat(3 * n + 1);
    max(
        if max_width > frame {
            (max_width - frame) as usize
        } else {
            0
        },
        n,
    )
}

/// A width scaled by `avail / total` and rounded down, at least one.
pub open spec fn scaled(w: usize, avail: usize, total: usize) -> usize {
    let s = text::sat(double::shrunk(w as int, avail as int, total as int));
    if s == 0 {
        1
    } else {
        s
    }
}

/// The widths that a table's columns get: the natural ones where they fit, and
/// otherwise shrunk in proportion.
pub open spec fn column_widths(
    header: Seq<Seq<wrap::RunView>>,
    rows: Seq<Seq<Seq<wrap::RunView>>>,
    max_width: usize,
) -> Seq<usize> {
    let ws = natural_widths(header, rows);
    let avail = content_room(ws.len() as usize, max_width);
    let total = total_width(ws);
    if total > avail {
        Seq::new(ws.len(), |c: int| scaled(ws[c], avail, total))
    } else {
        ws
    }
}

/// A horizontal border up to and with its `i`th column.
pub open spec fn border_text(ws: Seq<usize>, left: char, mid: char, right: char, i: int) -> Seq<char>
    decreases i,
{
    if i <= 0 {
        seq![left]
    } else {
        (border_text(ws, left, mid, right, i - 1) + text::repeated(
            '─',
            text::sat(ws[i - 1] + 2) as nat,
        )).push(
            if i < ws.len() {
                mid
            } else {
                right
            },
        )
    }
}

/// A horizontal border as a line.
pub open spec fn border_view(
    ws: Seq<usize>,
    left: char,
    mid: char,
    right: char,
    s: Style,
) -> Seq<style::SpanView> {
    seq![style::span(border_text(ws, left, mid, right, ws.len() as int), s)]
}

/// The runs from `i` on that fit into `budget` columns, the last one cut short.
pub open spec fn cut_runs(runs: Seq<wrap::RunView>, i: int, budget: int) -> Seq<wrap::RunView>
    decreases runs.len() - i,
{
    if i >= runs.len() {
        Seq::empty()
    } else {
        let r = runs[i];
        let w = text::display_width(r.text);
        if w <= budget {
            seq![r] + cut_runs(runs, i + 1, budget - w)
        } else {
            let e = wrap::fit_end(r.text, 0, 0, budget);
            if e > 0 {
                seq![wrap::RunView { text: r.text.take(e), ..r }]
            } else {
                Seq::empty()
            }
        }
    }
}

/// The runs of a cell cut to `room` columns, an ellipsis in place of what is
/// left out.
pub open spec fn truncated(runs: Seq<wrap::RunView>, room: usize) -> Seq<wrap::RunView> {
    if wrap::runs_width(runs) <= room {
        runs
    } else {
        cut_runs(
            runs,
            0,
            if room > 0 {
                room - 1
            } else {
                0
            },
        ).push(wrap::plain_run("…"@, Style::plain()))
    }
}

/// Style of header cells on top of their own.
pub open spec fn header_style(s: Style, head: Color) -> Style {
    s.add_modifier(Modifier::bold()).fg(head)
}

/// A table row in progress.
#[verifier::ext_equal]
pub struct RowPen {
    pub spans: Seq<style::SpanView>,
    pub col: usize,
    pub links: Seq<links::LinkSpanView>,
    /// The link in progress and where it began.
    pub link: Option<usize>,
    pub link_start: usize,
}

impl RowPen {
    pub open spec fn put(self, s: Style, t: Seq<char>, w: usize) -> RowPen {
        RowPen {
            spans: self.spans.push(style::span(t, s)),
            col: text::sat(self.col + w),
            ..self
        }
    }

    /// Appends `n` spaces, if any.
    pub open spec fn pad(self, n: usize) -> RowPen {
        if n > 0 {
            self.put(Style::plain(), text::repeated(' ', n as nat), n)
        } else {
            self
        }
    }

    /// Records the link in progress, if it takes any columns.
    pub open spec fn link_closed(self, line: usize, targets: Seq<links::TargetView>) -> RowPen {
        match self.link {
            Some(li) if li < targets.len() && self.link_start < self.col => RowPen {
                links: self.links.push(
                    links::LinkSpanView {
                        line,
                        col_start: self.link_start,
                        col_end: self.col,
                        target: targets[li as int],
                    },
                ),
                ..self
            },
            _ => self,
        }
    }

    /// Appends one run of a cell.
    pub open spec fn run(
        self,
        r: wrap::RunView,
        head: Option<Color>,
        line: usize,
        targets: Seq<links::TargetView>,
    ) -> RowPen {
        let p = if self.link == r.link {
            self
        } else {
            RowPen { link: r.link, link_start: self.col, ..self.link_closed(line, targets) }
        };
        p.put(
            match head {
                Some(c) => header_style(r.style, c),
                None => r.style,
            },
            r.text,
            text::display_width(r.text),
        )
    }

    pub open spec fn runs(
        self,
        rs: Seq<wrap::RunView>,
        head: Option<Color>,
        line: usize,
        targets: Seq<links::TargetView>,
    ) -> RowPen
        decreases rs.len(),
    {
        if rs.len() == 0 {
            self
        } else {
            self.runs(rs.drop_last(), head, line, targets).run(rs.last(), head, line, targets)
        }
    }

    /// Appends the content of a cell, with its links.
    pub open spec fn content(
        self,
        rs: Seq<wrap::RunView>,
        head: Option<Color>,
        line: usize,
        targets: Seq<links::TargetView>,
    ) -> RowPen {
        RowPen { link: None, link_start: self.col, ..self }.runs(
            rs,
            head,
            line,
            targets,
        ).link_closed(line, targets)
    }

    /// Appends one cell of width `w` and the border after it.
    pub open spec fn cell(
        self,
        cell: Seq<wrap::RunView>,
        w: usize,
        align: Align,
        head: Option<Color>,
        border: Style,
        line: usize,
        targets: Seq<links::TargetView>,
    ) -> RowPen {
        let shown = truncated(cell, w);
        let (l, r) = pads(w, wrap::runs_width(shown), align);
        self.put(Style::plain(), " "@, 1).pad(l).content(shown, head, line, targets).pad(r).put(
            Style::plain(),
            " "@,
            1,
        ).put(border, "│"@, 1)
    }

    /// Appends the first `n` cells of a row.
    pub open spec fn cells(
        self,
        row: Seq<Seq<wrap::RunView>>,
        ws: Seq<usize>,
        aligns: Seq<Align>,
        head: Option<Color>,
        border: Style,
        line: usize,
        targets: Seq<links::TargetView>,
        n: int,
    ) -> RowPen
        decreases n,
    {
        if n <= 0 {
            self
        } else {
            self.cells(row, ws, aligns, head, border, line, targets, n - 1).cell(
                cell_at(row, n - 1),
                ws[n - 1],
                align_at(aligns, n - 1),
                head,
                border,
                line,
                targets,
            )
        }
    }
}

/// A column's alignment.
pub open spec fn align_at(aligns: Seq<Align>, c: int) -> Align {
    if 0 <= c < aligns.len() {
        aligns[c]
    } else {
        Align::Unset
    }
}

/// Padding before and after content of width `cw` in a cell of width `w`.
pub open spec fn pads(w: usize, cw: usize, align: Align) -> (usize, usize) {
    let extra: usize = if w > cw {
        (w - cw) as usize
    } else {
        0
    };
    match align {
        Align::Right => (extra, 0),
        Align::Center => (extra / 2, (extra - extra / 2) as usize),
        _ => (0, extra),
    }
}

/// A whole table row.
pub open spec fn row_view(
    row: Seq<Seq<wrap::RunView>>,
    ws: Seq<usize>,
    aligns: Seq<Align>,
    head: Option<Color>,
    border: Style,
    line: usize,
    targets: Seq<links::TargetView>,
    links: Seq<links::LinkSpanView>,
) -> RowPen {
    RowPen {
        spans: seq![style::span("│"@, border)],
        col: 1,
        links,
        link: None,
        link_start: 0,
    }.cells(row, ws, aligns, head, border, line, targets, ws.len() as int)
}

/// A row being put out: its spans, its width so far and the link in progress.
struct RowState {
    spans: Vec<Span>,
    col: usize,
    links: Vec<LinkSpan>,
    link: Option<usize>,
    link_start: usize,
}

impl View for RowState {
    type V = RowPen;

    closed spec fn view(&self) -> RowPen {
        RowPen {
            spans: views::views(self.spans@),
            col: self.col,
            links: views::views(self.links@),
            link: self.link,
            link_start: self.link_start,
        }
    }
}

impl RowState {
    fn put(&mut self, s: Style, t: String, w: usize)
        ensures
            final(self)@ == old(self)@.put(s, t@, w),
    {
        self.spans.push(Span::styled(t, s));
        self.col = self.col.saturating_add(w);
    }

    fn pad(&mut self, n: usize)
        ensures
            final(self)@ == old(self)@.pad(n),
    {
        if n > 0 {
            self.put(Style::plain(), repeat_char(' ', n), n);
        }
    }

    fn close_link(&mut self, line: usize, targets: &[LinkTarget])
        ensures
            final(self)@ == old(self)@.link_closed(line, views::views(targets@)),
    {
        match self.link {
            Some(li) => {
                if li < targets.len() && self.link_start < self.col {
                    self.links.push(
                        LinkSpan {
                            line,
                            col_start: self.link_start,
                            col_end: self.col,
                            target: targets[li].clone(),
                        },
                    );
                }
            },
            None => {},
        }
    }

    fn emit_runs_tracking_links(
        &mut self,
        runs: &[Run],
        head: Option<Color>,
        line: usize,
        targets: &[LinkTarget],
    )
        ensures
            final(self)@ == old(self)@.content(
                views::views(runs@),
                head,
                line,
                views::views(targets@),
            ),
    {
        self.link = None;
        self.link_start = self.col;
        let ghost start = self@;
        let mut i: usize = 0;
        while i < runs.len()
            invariant
                i <= runs@.len(),
                self@ == start.runs(
                    views::views(runs@).take(i as int),
                    head,
                    line,
                    views::views(targets@),
                ),
            decreases runs@.len() - i,
        {
            let run = &runs[i];
            if !wrap::same_index(self.link, run.link) {
                self.close_link(line, targets);
                self.link = run.link;
                self.link_start = self.col;
            }
            let s = match head {
                Some(c) => run.style.add_modifier(Modifier::bold()).fg(c),
                None => run.style,
            };
            self.put(s, run.text.clone(), str_width(&run.text));
            i = i + 1;
            assert(views::views(runs@).take(i as int).drop_last() =~= views::views(runs@).take(
                i - 1,
            ));
        }
        assert(views::views(runs@).take(i as int) =~= views::views(runs@));
        self.close_link(line, targets);
    }
}

/// Cuts the runs of a cell to `room` columns.
pub fn truncate_runs(runs: &[Run], room: usize) -> (r: Vec<Run>)
    ensures
        views::views(r@) == truncated(views::views(runs@), room),
{
    let total = measure(runs);
    if total <= room {
        return views::copy_all(runs);
    }
    let ghost rv = views::views(runs@);
    let mut out: Vec<Run> = Vec::new();
    let mut budget: usize = if room > 0 {
        room - 1
    } else {
        0
    };
    let ghost whole = cut_runs(rv, 0, budget as int);
    let mut i: usize = 0;
    let mut done = false;
    while i < runs.len() && !done
        invariant
            rv == views::views(runs@),
            i <= runs@.len(),
            !done ==> views::views(out@) + cut_runs(rv, i as int, budget as int) == whole,
            done ==> views::views(out@) == whole,
        decreases runs@.len() - i, (if done { 0int } else { 1int }),
    {
        let run = &runs[i];
        let w = str_width(&run.text);
        let ghost prev = views::views(out@);
        if w <= budget {
            out.push(run.clone());
            budget = budget - w;
            i = i + 1;
            assert(prev + (seq![run@] + cut_runs(rv, i as int, budget as int)) =~= views::views(
                out@,
            ) + cut_runs(rv, i as int, budget as int));
        } else {
            let cs = to_chars(&run.text);
            let e = find_fit_end(&cs, 0, budget);
            if e > 0 {
                assert(cs@.take(e as int) =~= cs@.subrange(0, e as int));
                out.push(
                    Run {
                        text: from_chars(&cs, 0, e),
                        style: run.style,
                        link: run.link,
                        checkbox: run.checkbox,
                        image: run.image,
                    },
                );
            }
            assert(views::views(out@) =~= whole);
            done = true;
        }
    }
    proof {
        if !done {
            assert(views::views(out@) =~= whole);
        }
    }
    out.push(Run::plain("…".to_string(), Style::plain()));
    out
}

/// Builds a horizontal border.
pub fn border_line(ws: &[usize], left: char, mid: char, right: char, s: Style) -> (r: Line)
    ensures
        r@ == border_view(ws@, left, mid, right, s),
{
    let mut t = String::new();
    t.push(left);
    let n = ws.len();
    let mut i: usize = 0;
    assert(t@ =~= border_text(ws@, left, mid, right, 0));
    while i < n
        invariant
            n == ws@.len(),
            i <= n,
            t@ == border_text(ws@, left, mid, right, i as int),
        decreases n - i,
    {
        t.push_str(&repeat_char('─', ws[i].saturating_add(2)));
        i = i + 1;
        t.push(
            if i < n {
                mid
            } else {
                right
            },
        );
    }
    let mut spans: Vec<Span> = Vec::new();
    spans.push(Span::styled(t, s));
    let r = Line { spans };
    assert(r@ =~= border_view(ws@, left, mid, right, s));
    r
}

/// Puts out one row of cells. `head` is the header color for a header row.
pub fn emit_row(
    row: &Row,
    ws: &[usize],
    aligns: &[Align],
    head: Option<Color>,
    border: Style,
    lines: &mut Vec<Line>,
    out_links: &mut Vec<LinkSpan>,
    targets: &[LinkTarget],
)
    ensures
        views::views(final(lines)@) == views::views(old(lines)@).push(
            row_view(
                row@,
                ws@,
                aligns@,
                head,
                border,
                old(lines)@.len() as usize,
                views::views(targets@),
                views::views(old(out_links)@),
            ).spans,
        ),
        views::views(final(out_links)@) == row_view(
            row@,
            ws@,
            aligns@,
            head,
            border,
            old(lines)@.len() as usize,
            views::views(targets@),
            views::views(old(out_links)@),
        ).links,
{
    let line = lines.len();
    let mut st = RowState {
        spans: Vec::new(),
        col: 1,
        links: Vec::new(),
        link: None,
        link_start: 0,
    };
    std::mem::swap(&mut st.links, out_links);
    st.spans.push(Span::styled("│".to_string(), border));
    let ghost start = st@;
    assert(start.spans =~= seq![style::span("│"@, border)]);
    let n = ws.len();
    let mut i: usize = 0;
    while i < n
        invariant
            n == ws@.len(),
            i <= n,
            st@ == start.cells(
                row@,
                ws@,
                aligns@,
                head,
                border,
                line,
                views::views(targets@),
                i as int,
            ),
        decreases n - i,
    {
        let w = ws[i];
        let align = if i < aligns.len() {
            aligns[i]
        } else {
            Align::Unset
        };
        let shown = if i < row.cells.len() {
            truncate_runs(&row.cells[i].runs, w)
        } else {
            let none: Vec<Run> = Vec::new();
            assert(views::views(none@) =~= cell_at(row@, i as int));
            truncate_runs(&none, w)
        };
        let cw = measure(&shown);
        let extra: usize = if w > cw {
            w - cw
        } else {
            0
        };
        let (lpad, rpad): (usize, usize) = match align {
            Align::Right => (extra, 0),
            Align::Center => (extra / 2, extra - extra / 2),
            _ => (0, extra),
        };
        st.put(Style::plain(), " ".to_string(), 1);
        st.pad(lpad);
        st.emit_runs_tracking_links(&shown, head, line, targets);
        st.pad(rpad);
        st.put(Style::plain(), " ".to_string(), 1);
        st.put(border, "│".to_string(), 1);
        i = i + 1;
    }
    std::mem::swap(&mut st.links, out_links);
    let mut spans: Vec<Span> = Vec::new();
    std::mem::swap(&mut st.spans, &mut spans);
    lines.push(Line { spans });
}

/// Width of the widest cell of column `c`.
fn column_need(header: &Row, rows: &[Row], c: usize) -> (w: usize)
    ensures
        w == max(wrap::runs_width(cell_at(header@, c as int)), widest(views::views(rows@), c as int)),
{
    let ghost rv = views::views(rows@);
    let mut w: usize = 0;
    let mut i: usize = 0;
    while i < rows.len()
        invariant
            rv == views::views(rows@),
            i <= rows@.len(),
            w == widest(rv.take(i as int), c as int),
        decreases rows@.len() - i,
    {
        let need: usize = if c < rows[i].cells.len() {
            measure(&rows[i].cells[c].runs)
        } else {
            0
        };
        w = larger(w, need);
        i = i + 1;
        assert(rv.take(i as int).drop_last() =~= rv.take(i - 1));
    }
    assert(rv.take(i as int) =~= rv);
    let head: usize = if c < header.cells.len() {
        measure(&header.cells[c].runs)
    } else {
        0
    };
    larger(head, w)
}

/// Computes the widths of a table's columns.
pub fn fit_columns(header: &Row, rows: &[Row], max_width: usize) -> (ws: Vec<usize>)
    ensures
        ws@ == column_widths(header@, views::views(rows@), max_width),
{
    let ghost rv = views::views(rows@);
    let mut n: usize = 0;
    let mut i: usize = 0;
    while i < rows.len()
        invariant
            rv == views::views(rows@),
            i <= rows@.len(),
            n == longest(rv.take(i as int)),
        decreases rows@.len() - i,
    {
        n = larger(n, rows[i].cells.len());
        i = i + 1;
        assert(rv.take(i as int).drop_last() =~= rv.take(i - 1));
    }
    assert(rv.take(i as int) =~= rv);
    let cols = larger(header.cells.len(), n);
    let ghost natural = natural_widths(header@, rv);
    let mut ws: Vec<usize> = Vec::new();
    let mut total: usize = 0;
    let mut c: usize = 0;
    while c < cols
        invariant
            rv == views::views(rows@),
            natural == natural_widths(header@, rv),
            cols == natural.len(),
            c <= cols,
            ws@ == natural.take(c as int),
            total == total_width(ws@),
        decreases cols - c,
    {
        let w = column_need(header, rows, c);
        let ghost prev = ws@;
        ws.push(w);
        total = total.saturating_add(w);
        c = c + 1;
        assert(ws@.drop_last() =~= prev);
        assert(ws@ =~= natural.take(c as int));
    }
    assert(natural.take(c as int) =~= natural);
    let frame = cols.saturating_add(cols).saturating_add(cols).saturating_add(1);
    let avail = larger(max_width.saturating_sub(frame), cols);
    if total > avail {
        let mut k: usize = 0;
        while k < cols
            invariant
                cols == natural.len(),
                ws@.len() == cols,
                k <= cols,
                0 < cols ==> 0 < avail,
                total > avail,
                forall|j: int| 0 <= j < k ==> ws@[j] == scaled(natural[j], avail, total),
                forall|j: int| k <= j < cols ==> ws@[j] == natural[j],
            decreases cols - k,
        {
            let w = ws[k];
            let s = match shrink(w, avail, total) {
                Some(n) => n,
                None => usize::MAX,
            };
            ws.set(
                k,
                if s == 0 {
                    1
                } else {
                    s
                },
            );
            k = k + 1;
        }
        assert(ws@ =~= column_widths(header@, rv, max_width));
    }
    ws
}

/// The lines and links of a document after a table's rows from `i` on.
pub open spec fn rows_put(
    lines: Seq<Seq<style::SpanView>>,
    out: Seq<links::LinkSpanView>,
    rows: Seq<Seq<Seq<wrap::RunView>>>,
    n: int,
    ws: Seq<usize>,
    aligns: Seq<Align>,
    border: Style,
    targets: Seq<links::TargetView>,
) -> (Seq<Seq<style::SpanView>>, Seq<links::LinkSpanView>)
    decreases n,
{
    if n <= 0 {
        (lines, out)
    } else {
        let (ls, os) = rows_put(lines, out, rows, n - 1, ws, aligns, border, targets);
        let r = row_view(rows[n - 1], ws, aligns, None, border, ls.len() as usize, targets, os);
        (ls.push(r.spans), r.links)
    }
}

/// The lines and links of a document after a table: a border, the header row, a
/// border, the body rows and a border. A table without columns adds nothing.
pub open spec fn table_put(
    lines: Seq<Seq<style::SpanView>>,
    out: Seq<links::LinkSpanView>,
    header: Seq<Seq<wrap::RunView>>,
    rows: Seq<Seq<Seq<wrap::RunView>>>,
    aligns: Seq<Align>,
    max_width: usize,
    muted: Color,
    head: Color,
    targets: Seq<links::TargetView>,
) -> (Seq<Seq<style::SpanView>>, Seq<links::LinkSpanView>) {
    let ws = column_widths(header, rows, max_width);
    let border = Style::plain().fg(muted);
    if ws.len() == 0 {
        (lines, out)
    } else {
        let top = lines.push(border_view(ws, '┌', '┬', '┐', border));
        let h = row_view(header, ws, aligns, Some(head), border, top.len() as usize, targets, out);
        let (ls, os) = rows_put(
            top.push(h.spans).push(border_view(ws, '├', '┼', '┤', border)),
            h.links,
            rows,
            rows.len() as int,
            ws,
            aligns,
            border,
            targets,
        );
        (ls.push(border_view(ws, '└', '┴', '┘', border)), os)
    }
}

/// Puts out a table.
pub fn layout_table(
    header: &Row,
    rows: &[Row],
    aligns: &[Align],
    max_width: usize,
    muted: Color,
    head: Color,
    lines: &mut Vec<Line>,
    out_links: &mut Vec<LinkSpan>,
    targets: &[LinkTarget],
)
    ensures
        (views::views(final(lines)@), views::views(final(out_links)@)) == table_put(
            views::views(old(lines)@),
            views::views(old(out_links)@),
            header@,
            views::views(rows@),
            aligns@,
            max_width,
            muted,
            head,
            views::views(targets@),
        ),
{
    let ws = fit_columns(header, rows, max_width);
    if ws.len() == 0 {
        return ;
    }
    let border = Style::plain().fg(muted);
    lines.push(border_line(&ws, '┌', '┬', '┐', border));
    emit_row(header, &ws, aligns, Some(head), border, lines, out_links, targets);
    lines.push(border_line(&ws, '├', '┼', '┤', border));
    let ghost ls = views::views(lines@);
    let ghost os = views::views(out_links@);
    let ghost rv = views::views(rows@);
    let mut i: usize = 0;
    while i < rows.len()
        invariant
            rv == views::views(rows@),
            i <= rows@.len(),
            (views::views(lines@), views::views(out_links@)) == rows_put(
                ls,
                os,
                rv,
                i as int,
                ws@,
                aligns@,
                border,
                views::views(targets@),
            ),
        decreases rows@.len() - i,
    {
        emit_row(&rows[i], &ws, aligns, None, border, lines, out_links, targets);
        i = i + 1;
    }
    lines.push(border_line(&ws, '└', '┴', '┘', border));
}

} // verus!
