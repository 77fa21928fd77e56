//! What holds of every layout.

use vstd::prelude::*;
use crate::links;
use crate::markdown;
use crate::style;
use crate::style::Style;
use crate::table;
use crate::text;
use crate::theme::Theme;
use crate::views;
use crate::wrap;
use crate::wrap::PendingCheckbox;

verus! {

broadcast use crate::views::group_views;

// ---------------------------------------------------------------------------
// Marks stand on lines
// ---------------------------------------------------------------------------

/// Whether a link span covers columns of a line before `n` and leads somewhere.
pub open spec fn link_ok(l: links::LinkSpanView, targets: Seq<links::TargetView>, n: nat) -> bool {
    l.line < n && l.col_start < l.col_end && targets.contains(l.target)
}

/// Whether a task marker covers columns of a line before `n` and stands for one
/// of the source.
pub open spec fn box_ok(c: links::CheckboxSpan, boxes: Seq<PendingCheckbox>, n: nat) -> bool {
    &&& c.line < n
    &&& c.col_start < c.col_end
    &&& boxes.contains(PendingCheckbox { source_offset: c.source_offset, checked: c.checked })
}

/// Whether all marks of a pen stand on lines before `n`.
pub open spec fn marks_ok(
    p: wrap::PenView,
    targets: Seq<links::TargetView>,
    boxes: Seq<PendingCheckbox>,
    n: nat,
) -> bool {
    &&& forall|i: int| 0 <= i < p.links.len() ==> link_ok(#[trigger] p.links[i], targets, n)
    &&& forall|i: int| 0 <= i < p.boxes.len() ==> box_ok(#[trigger] p.boxes[i], boxes, n)
    &&& forall|i: int|
        0 <= i < p.image_lines.len() ==> ((#[trigger] p.image_lines[i]) matches Some(l) ==> l < n)
}

/// A step within a block: the marks may stand on the line in progress.
spec fn step_ok(p: wrap::PenView, q: wrap::PenView, f: wrap::FrameView) -> bool {
    &&& marks_ok(p, f.targets, f.checkboxes, p.lines.len() + 1)
    &&& p.lines.len() <= q.lines.len()
    &&& marks_ok(q, f.targets, f.checkboxes, q.lines.len() + 1)
}

spec fn in_block(p: wrap::PenView, f: wrap::FrameView) -> bool {
    marks_ok(p, f.targets, f.checkboxes, p.lines.len() + 1)
}

proof fn lemma_link_closed(p: wrap::PenView, f: wrap::FrameView)
    requires
        in_block(p, f),
    ensures
        step_ok(p, p.link_closed(f), f),
        p.link_closed(f).lines == p.lines,
{
    let q = p.link_closed(f);
    assert forall|i: int| 0 <= i < q.links.len() implies link_ok(
        #[trigger] q.links[i],
        f.targets,
        q.lines.len() + 1,
    ) by {
        if i < p.links.len() {
            assert(q.links[i] == p.links[i]);
        }
    }
}

proof fn lemma_broken(p: wrap::PenView, f: wrap::FrameView)
    requires
        in_block(p, f),
    ensures
        step_ok(p, p.broken(f), f),
{
    lemma_link_closed(p, f);
}

proof fn lemma_split(p: wrap::PenView, f: wrap::FrameView, s: Style, word: Seq<char>, i: int)
    requires
        in_block(p, f),
    ensures
        step_ok(p, p.split(f, s, word, i), f),
    decreases word.len() - i,
{
    if i < word.len() {
        let b = if p.avail() == 0 && !p.at_line_start {
            p.broken(f)
        } else {
            p
        };
        lemma_broken(p, f);
        let limit = if b.avail() == 0 {
            1
        } else {
            b.avail() as int
        };
        let fit = wrap::fit_end(word, i, 0, limit);
        let e = if fit <= i {
            i + 1
        } else {
            fit
        };
        let q = b.put(s, word.subrange(i, e));
        if e < word.len() {
            lemma_broken(q, f);
            lemma_split(q.broken(f), f, s, word, e);
        }
    }
}

proof fn lemma_placed(p: wrap::PenView, f: wrap::FrameView, s: Style, word: Seq<char>)
    requires
        in_block(p, f),
    ensures
        step_ok(p, p.placed(f, s, word), f),
{
    lemma_broken(p, f);
    lemma_split(p, f, s, word, 0);
}

proof fn lemma_segment(p: wrap::PenView, f: wrap::FrameView, s: Style, t: Seq<char>, i: int)
    requires
        in_block(p, f),
    ensures
        step_ok(p, p.segment(f, s, t, i), f),
    decreases t.len() - i,
{
    if 0 <= i < t.len() {
        wrap::lemma_chunk_end(t, i, i + 1);
        let e = wrap::chunk_end(t, i, i + 1);
        lemma_placed(p, f, s, t.subrange(i, e));
        lemma_segment(p.placed(f, s, t.subrange(i, e)), f, s, t, e);
    }
}

proof fn lemma_flowed(p: wrap::PenView, f: wrap::FrameView, s: Style, t: Seq<char>, i: int)
    requires
        in_block(p, f),
    ensures
        step_ok(p, p.flowed(f, s, t, i), f),
    decreases t.len() - i,
{
    if 0 <= i < t.len() {
        text::lemma_first_char(t, '\n', i);
        match text::first_char(t, '\n', i) {
            Some(k) => {
                let q = p.segment(f, s, t.subrange(i, k), 0);
                lemma_segment(p, f, s, t.subrange(i, k), 0);
                lemma_broken(q, f);
                lemma_flowed(q.broken(f), f, s, t, k + 1);
            },
            None => {
                lemma_segment(p, f, s, t.subrange(i, t.len() as int), 0);
            },
        }
    }
}

proof fn lemma_run(p: wrap::PenView, f: wrap::FrameView, r: wrap::RunView)
    requires
        in_block(p, f),
    ensures
        step_ok(p, p.run(f, r), f),
{
    let a = p.pinned(r.image);
    assert forall|i: int| 0 <= i < a.image_lines.len() implies ((
    #[trigger] a.image_lines[i]) matches Some(l) ==> l < a.lines.len() + 1) by {
        if p.image_lines[i] is Some {
            assert(a.image_lines[i] == p.image_lines[i]);
        }
    }
    assert(in_block(a, f));
    lemma_link_closed(a, f);
    let b = a.linked(f, r.link);
    assert(step_ok(a, b, f));
    lemma_flowed(b, f, r.style, r.text, 0);
    let c = b.flowed(f, r.style, r.text, 0);
    let d = c.boxed(f, p, r);
    assert forall|i: int| 0 <= i < d.boxes.len() implies box_ok(
        #[trigger] d.boxes[i],
        f.checkboxes,
        d.lines.len() + 1,
    ) by {
        if i < c.boxes.len() {
            assert(d.boxes[i] == c.boxes[i]);
        } else {
            let ci = r.checkbox->0;
            assert(f.checkboxes[ci as int] == PendingCheckbox {
                source_offset: d.boxes[i].source_offset,
                checked: d.boxes[i].checked,
            });
        }
    }
}

proof fn lemma_runs(p: wrap::PenView, f: wrap::FrameView, rs: Seq<wrap::RunView>)
    requires
        in_block(p, f),
    ensures
        step_ok(p, p.runs(f, rs), f),
    decreases rs.len(),
{
    if rs.len() > 0 {
        lemma_runs(p, f, rs.drop_last());
        lemma_run(p.runs(f, rs.drop_last()), f, rs.last());
    }
}

proof fn lemma_wrapped(
    p: wrap::PenView,
    runs: Seq<wrap::RunView>,
    prefix: Seq<wrap::RunView>,
    hanging: Seq<wrap::RunView>,
    width: usize,
    targets: Seq<links::TargetView>,
    boxes: Seq<PendingCheckbox>,
)
    requires
        marks_ok(p, targets, boxes, p.lines.len()),
    ensures
        ({
            let q = p.wrapped(runs, prefix, hanging, width, targets, boxes);
            &&& p.lines.len() < q.lines.len()
            &&& marks_ok(q, targets, boxes, q.lines.len())
        }),
{
    let f = wrap::frame_view(hanging, width, targets, boxes);
    let a = p.started(prefix, width);
    assert(in_block(a, f)) by {
        assert forall|i: int| 0 <= i < a.image_lines.len() implies ((
        #[trigger] a.image_lines[i]) matches Some(l) ==> l < a.lines.len() + 1) by {
            assert(p.image_lines[i] == a.image_lines[i]);
        }
    }
    lemma_runs(a, f, runs);
    let b = a.runs(f, runs);
    lemma_link_closed(b, f);
}

spec fn links_ok(
    all: Seq<links::LinkSpanView>,
    targets: Seq<links::TargetView>,
    n: nat,
) -> bool {
    forall|i: int| 0 <= i < all.len() ==> link_ok(#[trigger] all[i], targets, n)
}

proof fn lemma_row_link_closed(
    p: table::RowPen,
    line: usize,
    targets: Seq<links::TargetView>,
    n: nat,
)
    requires
        links_ok(p.links, targets, n),
        line < n,
    ensures
        links_ok(p.link_closed(line, targets).links, targets, n),
{
    let q = p.link_closed(line, targets);
    assert forall|i: int| 0 <= i < q.links.len() implies link_ok(
        #[trigger] q.links[i],
        targets,
        n,
    ) by {
        if i < p.links.len() {
            assert(q.links[i] == p.links[i]);
        }
    }
}

proof fn lemma_row_runs(
    p: table::RowPen,
    rs: Seq<wrap::RunView>,
    head: Option<style::Color>,
    line: usize,
    targets: Seq<links::TargetView>,
    n: nat,
)
    requires
        links_ok(p.links, targets, n),
        line < n,
    ensures
        links_ok(p.runs(rs, head, line, targets).links, targets, n),
    decreases rs.len(),
{
    if rs.len() > 0 {
        lemma_row_runs(p, rs.drop_last(), head, line, targets, n);
        lemma_row_link_closed(p.runs(rs.drop_last(), head, line, targets), line, targets, n);
    }
}

proof fn lemma_row_cells(
    p: table::RowPen,
    row: Seq<Seq<wrap::RunView>>,
    ws: Seq<usize>,
    aligns: Seq<table::Align>,
    head: Option<style::Color>,
    border: Style,
    line: usize,
    targets: Seq<links::TargetView>,
    k: int,
    n: nat,
)
    requires
        links_ok(p.links, targets, n),
        line < n,
    ensures
        links_ok(p.cells(row, ws, aligns, head, border, line, targets, k).links, targets, n),
    decreases k,
{
    if k > 0 {
        lemma_row_cells(p, row, ws, aligns, head, border, line, targets, k - 1, n);
        let q = p.cells(row, ws, aligns, head, border, line, targets, k - 1);
        let shown = table::truncated(table::cell_at(row, k - 1), ws[k - 1]);
        let (l, _) = table::pads(
            ws[k - 1],
            wrap::runs_width(shown),
            table::align_at(aligns, k - 1),
        );
        let padded = q.put(Style::plain(), " "@, 1).pad(l);
        let a = table::RowPen { link: None, link_start: padded.col, ..padded };
        lemma_row_runs(a, shown, head, line, targets, n);
        lemma_row_link_closed(a.runs(shown, head, line, targets), line, targets, n);
    }
}

proof fn lemma_more_lines(
    all: Seq<links::LinkSpanView>,
    targets: Seq<links::TargetView>,
    n: nat,
    m: nat,
)
    requires
        links_ok(all, targets, n),
        n <= m,
    ensures
        links_ok(all, targets, m),
{
}

proof fn lemma_table_rows(
    lines: Seq<Seq<style::SpanView>>,
    out: Seq<links::LinkSpanView>,
    rows: Seq<Seq<Seq<wrap::RunView>>>,
    k: int,
    ws: Seq<usize>,
    aligns: Seq<table::Align>,
    border: Style,
    targets: Seq<links::TargetView>,
)
    requires
        links_ok(out, targets, lines.len()),
    ensures
        ({
            let (ls, os) = table::rows_put(lines, out, rows, k, ws, aligns, border, targets);
            lines.len() <= ls.len() && links_ok(os, targets, ls.len())
        }),
    decreases k,
{
    if k > 0 {
        lemma_table_rows(lines, out, rows, k - 1, ws, aligns, border, targets);
        let (ls, os) = table::rows_put(lines, out, rows, k - 1, ws, aligns, border, targets);
        lemma_more_lines(os, targets, ls.len(), ls.len() + 1);
        lemma_row_cells(
            table::RowPen {
                spans: seq![style::span("│"@, border)],
                col: 1,
                links: os,
                link: None,
                link_start: 0,
            },
            rows[k - 1],
            ws,
            aligns,
            None,
            border,
            ls.len() as usize,
            targets,
            ws.len() as int,
            ls.len() + 1,
        );
    }
}

proof fn lemma_table(
    lines: Seq<Seq<style::SpanView>>,
    out: Seq<links::LinkSpanView>,
    header: Seq<Seq<wrap::RunView>>,
    rows: Seq<Seq<Seq<wrap::RunView>>>,
    aligns: Seq<table::Align>,
    max_width: usize,
    muted: style::Color,
    head: style::Color,
    targets: Seq<links::TargetView>,
)
    requires
        links_ok(out, targets, lines.len()),
    ensures
        ({
            let (ls, os) = table::table_put(
                lines,
                out,
                header,
                rows,
                aligns,
                max_width,
                muted,
                head,
                targets,
            );
            lines.len() <= ls.len() && links_ok(os, targets, ls.len())
        }),
{
    let ws = table::column_widths(header, rows, max_width);
    if ws.len() > 0 {
        let border = Style::plain().fg(muted);
        let top = lines.push(table::border_view(ws, '┌', '┬', '┐', border));
        lemma_more_lines(out, targets, lines.len(), top.len() + 2);
        lemma_row_cells(
            table::RowPen {
                spans: seq![style::span("│"@, border)],
                col: 1,
                links: out,
                link: None,
                link_start: 0,
            },
            header,
            ws,
            aligns,
            Some(head),
            border,
            top.len() as usize,
            targets,
            ws.len() as int,
            top.len() + 2,
        );
        let h = table::row_view(
            header,
            ws,
            aligns,
            Some(head),
            border,
            top.len() as usize,
            targets,
            out,
        );
        let all = top.push(h.spans).push(table::border_view(ws, '├', '┼', '┤', border));
        lemma_table_rows(all, h.links, rows, rows.len() as int, ws, aligns, border, targets);
        let (ls, os) = table::rows_put(
            all,
            h.links,
            rows,
            rows.len() as int,
            ws,
            aligns,
            border,
            targets,
        );
        lemma_more_lines(os, targets, ls.len(), ls.len() + 1);
    }
}

/// A layout after whole blocks: its marks and its anchors stand on its lines, and it
/// knows of no more rows of source than it has lines.
pub open spec fn layout_ok(
    l: markdown::LayoutView,
    targets: Seq<links::TargetView>,
    boxes: Seq<PendingCheckbox>,
) -> bool {
    let n = l.pen.lines.len();
    &&& marks_ok(l.pen, targets, boxes, n)
    &&& forall|a: Seq<char>| #[trigger] l.anchors.contains_key(a) ==> l.anchors[a] < n
    &&& l.row_source.len() <= n
}

proof fn lemma_code_lines(
    out: Seq<Seq<style::SpanView>>,
    prefix: Seq<wrap::RunView>,
    lines: Seq<Seq<style::SpanView>>,
    bg: Option<style::Color>,
    width: usize,
    n: int,
)
    ensures
        markdown::code_lines(out, prefix, lines, bg, width, n).len() >= out.len(),
    decreases n,
{
    if n > 0 {
        lemma_code_lines(out, prefix, lines, bg, width, n - 1);
    }
}

proof fn lemma_more_marks(
    p: wrap::PenView,
    q: wrap::PenView,
    targets: Seq<links::TargetView>,
    boxes: Seq<PendingCheckbox>,
)
    requires
        marks_ok(p, targets, boxes, p.lines.len()),
        q.links == p.links,
        q.boxes == p.boxes,
        q.image_lines == p.image_lines,
        p.lines.len() <= q.lines.len(),
    ensures
        marks_ok(q, targets, boxes, q.lines.len()),
{
    assert forall|i: int| 0 <= i < q.image_lines.len() implies ((
    #[trigger] q.image_lines[i]) matches Some(l) ==> l < q.lines.len()) by {
        assert(p.image_lines[i] == q.image_lines[i]);
    }
}

proof fn lemma_block(
    l: markdown::LayoutView,
    b: markdown::BlockView,
    theme: Theme,
    width: usize,
    targets: Seq<links::TargetView>,
    boxes: Seq<PendingCheckbox>,
    cursor: Option<usize>,
)
    requires
        layout_ok(l, targets, boxes),
    ensures
        l.pen.lines.len() <= l.block(b, theme, width, targets, boxes, cursor).pen.lines.len(),
        layout_ok(l.block(b, theme, width, targets, boxes, cursor), targets, boxes),
{
    let p = l.pen;
    let out = l.block(b, theme, width, targets, boxes, cursor);
    match b {
        markdown::BlockView::Heading { runs, anchor } => {
            lemma_wrapped(p, runs, Seq::empty(), Seq::empty(), width, targets, boxes);
        },
        markdown::BlockView::Paragraph { runs, prefix, hanging } => {
            lemma_wrapped(p, runs, prefix, hanging, width, targets, boxes);
        },
        markdown::BlockView::Table { aligns, header, rows } => {
            lemma_table(
                p.lines,
                p.links,
                header,
                rows,
                aligns,
                width,
                theme.muted,
                theme.heading@[1],
                targets,
            );
            assert(links_ok(out.pen.links, targets, out.pen.lines.len()));
            assert forall|i: int| 0 <= i < out.pen.image_lines.len() implies ((
            #[trigger] out.pen.image_lines[i]) matches Some(l) ==> l < out.pen.lines.len()) by {
                assert(p.image_lines[i] == out.pen.image_lines[i]);
            }
        },
        markdown::BlockView::Pre { lines, prefix } => {
            lemma_code_lines(p.lines, prefix, lines, theme.code_bg, width, lines.len() as int);
            lemma_more_marks(p, out.pen, targets, boxes);
        },
        _ => {
            lemma_more_marks(p, out.pen, targets, boxes);
        },
    }
}

proof fn lemma_blocks(
    l: markdown::LayoutView,
    bs: Seq<(markdown::BlockView, usize)>,
    theme: Theme,
    width: usize,
    targets: Seq<links::TargetView>,
    boxes: Seq<PendingCheckbox>,
    cursor: Option<usize>,
    n: int,
)
    requires
        layout_ok(l, targets, boxes),
    ensures
        layout_ok(l.blocks(bs, theme, width, targets, boxes, cursor, n), targets, boxes),
    decreases n,
{
    if n > 0 {
        lemma_blocks(l, bs, theme, width, targets, boxes, cursor, n - 1);
        let m = l.blocks(bs, theme, width, targets, boxes, cursor, n - 1);
        lemma_block(m, bs[n - 1].0, theme, width, targets, boxes, cursor);
    }
}

/// Everything that a layout points to is there: each link span and each task
/// marker covers at least one column of an existing line, each link leads to one
/// of the targets and each marker to one of the source's, each anchor and each
/// image has an existing line, and the rows of source are no more than the lines.
pub proof fn law_layout_points_at_its_lines(
    theme: Theme,
    width: usize,
    blocks: Seq<(markdown::BlockView, usize)>,
    targets: Seq<links::TargetView>,
    boxes: Seq<PendingCheckbox>,
    images: Seq<Seq<char>>,
    cursor: Option<usize>,
)
    ensures
        ({
            let rd = markdown::laid_out(theme, width, blocks, targets, boxes, images, cursor);
            let n = rd.lines.len();
            &&& forall|i: int| 0 <= i < rd.links.len() ==> link_ok(#[trigger] rd.links[i], targets, n)
            &&& forall|i: int| 0 <= i < rd.boxes.len() ==> box_ok(#[trigger] rd.boxes[i], boxes, n)
            &&& forall|a: Seq<char>| #[trigger] rd.anchors.contains_key(a) ==> rd.anchors[a] < n
            &&& forall|i: int| 0 <= i < rd.images.len() ==> (#[trigger] rd.images[i]).line < n
            &&& rd.row_source.len() <= n
        }),
{
    let start = markdown::layout_start(images.len());
    assert(layout_ok(start, targets, boxes));
    lemma_blocks(start, blocks, theme, width, targets, boxes, cursor, blocks.len() as int);
    let l = start.blocks(blocks, theme, width, targets, boxes, cursor, blocks.len() as int);
    lemma_placed_images(images, l.pen.image_lines, images.len() as int, l.pen.lines.len());
}

proof fn lemma_placed_images(
    images: Seq<Seq<char>>,
    lines: Seq<Option<usize>>,
    k: int,
    n: nat,
)
    requires
        forall|i: int|
            0 <= i < lines.len() ==> ((#[trigger] lines[i]) matches Some(l) ==> l < n),
    ensures
        forall|i: int|
            0 <= i < markdown::placed_images(images, lines, k).len() ==> (
            #[trigger] markdown::placed_images(images, lines, k)[i]).line < n,
    decreases k,
{
    if k > 0 {
        lemma_placed_images(images, lines, k - 1, n);
        let before = markdown::placed_images(images, lines, k - 1);
        let all = markdown::placed_images(images, lines, k);
        assert forall|i: int| 0 <= i < all.len() implies (#[trigger] all[i]).line < n by {
            if i < before.len() {
                assert(all[i] == before[i]);
            } else {
                assert(lines[k - 1] is Some);
            }
        }
    }
}

// ---------------------------------------------------------------------------
// Blocks follow one another
// ---------------------------------------------------------------------------

/// Whether block spans cover rows, lie one after the other and end by row `n`.
pub open spec fn spans_ok(spans: Seq<markdown::BlockSpan>, n: nat) -> bool {
    &&& forall|i: int|
        0 <= i < spans.len() ==> (#[trigger] spans[i]).display_start < spans[i].display_end <= n
    &&& forall|i: int, j: int|
        0 <= i < j < spans.len() ==> (#[trigger] spans[i]).display_end <= (
        #[trigger] spans[j]).display_start
}

proof fn lemma_block_spans(
    l: markdown::LayoutView,
    bs: Seq<(markdown::BlockView, usize)>,
    theme: Theme,
    width: usize,
    targets: Seq<links::TargetView>,
    boxes: Seq<PendingCheckbox>,
    cursor: Option<usize>,
    n: int,
)
    requires
        layout_ok(l, targets, boxes),
        l.spans.len() == 0,
        l.blocks(bs, theme, width, targets, boxes, cursor, n).pen.lines.len() <= usize::MAX,
    ensures
        spans_ok(
            l.blocks(bs, theme, width, targets, boxes, cursor, n).spans,
            l.blocks(bs, theme, width, targets, boxes, cursor, n).pen.lines.len(),
        ),
    decreases n,
{
    if n > 0 {
        lemma_blocks(l, bs, theme, width, targets, boxes, cursor, n - 1);
        let m = l.blocks(bs, theme, width, targets, boxes, cursor, n - 1);
        lemma_block(m, bs[n - 1].0, theme, width, targets, boxes, cursor);
        lemma_block_spans(l, bs, theme, width, targets, boxes, cursor, n - 1);
        let b = m.block(bs[n - 1].0, theme, width, targets, boxes, cursor);
        assert(b.spans == m.spans);
        let out = l.blocks(bs, theme, width, targets, boxes, cursor, n);
        assert forall|i: int| 0 <= i < out.spans.len() implies (
        #[trigger] out.spans[i]).display_start < out.spans[i].display_end
            <= out.pen.lines.len() by {
            if i < m.spans.len() {
                assert(out.spans[i] == m.spans[i]);
            }
        }
        assert forall|i: int, j: int| 0 <= i < j < out.spans.len() implies (
        #[trigger] out.spans[i]).display_end <= (#[trigger] out.spans[j]).display_start by {
            assert(out.spans[i] == m.spans[i]);
            if j < m.spans.len() {
                assert(out.spans[j] == m.spans[j]);
            }
        }
    }
}

/// The blocks of a layout take rows one after the other, without overlap.
pub proof fn law_blocks_lie_in_order(
    theme: Theme,
    width: usize,
    blocks: Seq<(markdown::BlockView, usize)>,
    targets: Seq<links::TargetView>,
    boxes: Seq<PendingCheckbox>,
    images: Seq<Seq<char>>,
    cursor: Option<usize>,
)
    requires
        markdown::laid_out(theme, width, blocks, targets, boxes, images, cursor).lines.len()
            <= usize::MAX,
    ensures
        ({
            let rd = markdown::laid_out(theme, width, blocks, targets, boxes, images, cursor);
            spans_ok(rd.blocks, rd.lines.len())
        }),
{
    let start = markdown::layout_start(images.len());
    assert(layout_ok(start, targets, boxes));
    lemma_block_spans(start, blocks, theme, width, targets, boxes, cursor, blocks.len() as int);
}

} // verus!
