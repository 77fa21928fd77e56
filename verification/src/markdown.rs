//! Markdown to styled display lines.
//!
//! A [`Builder`] turns parser events into blocks; the layout pass turns blocks
//! into wrapped lines and records the places of links, task markers, images and
//! heading anchors.

use vstd::prelude::*;
use vstd::utf8::*;
use crate::bytes;
use crate::bytes::{chars_of, locate};
use crate::editor;
use crate::laws_source;
use crate::links;
use crate::links::{CheckboxMap, ImageRef, LinkMap, LinkTarget};
use crate::palette;
use crate::parse;
use crate::parse::{read_events, EventAt, Level, MdEvent, MdTag, MdTagEnd};
use crate::paths;
use crate::raw;
use crate::raw::{column_of, render_raw_pane};
use crate::style;
use crate::style::{Line, Modifier, Span, Style};
use crate::syntax::{CodeLine, Highlighter};
use crate::table;
use crate::table::{layout_table, Align, Cell, Row};
use crate::text;
use crate::text::{decimal_text, from_chars, repeat_char, repeat_text, str_width};
use crate::textmap::TextMap;
use crate::theme::Theme;
use crate::views;
use crate::wrap;
use crate::wrap::{measure, to_spans, Pen, PendingCheckbox, Run};

verus! {

broadcast use crate::views::group_views;

/// A document laid out for display.
#[derive(Debug)]
pub struct Rendered {
    pub lines: Vec<Line>,
    pub link_map: LinkMap,
    pub checkbox_map: CheckboxMap,
    pub images: Vec<ImageRef>,
    pub width: u16,
    /// For each display row up to the last row of source text, the source bytes
    /// it shows; `None` for a formatted row.
    pub row_source: Vec<Option<(usize, usize)>>,
    /// Display column and row of the edit cursor.
    pub cursor_xy: Option<(u16, u16)>,
    /// Where each block came to stand.
    pub blocks: Vec<BlockSpan>,
}

/// The display rows of a block, half-open, and where its construct begins in the
/// source.
#[derive(Clone, Copy, Debug, PartialEq, Eq, Structural)]
pub struct BlockSpan {
    pub display_start: usize,
    pub display_end: usize,
    pub source_start: usize,
}

/// What a [`Rendered`] document shows.
#[verifier::ext_equal]
pub struct RenderedView {
    pub lines: Seq<Seq<style::SpanView>>,
    pub links: Seq<links::LinkSpanView>,
    pub anchors: Map<Seq<char>, usize>,
    pub boxes: Seq<links::CheckboxSpan>,
    pub images: Seq<links::ImageView>,
    pub width: u16,
    pub row_source: Seq<Option<(usize, usize)>>,
    pub cursor_xy: Option<(u16, u16)>,
    pub blocks: Seq<BlockSpan>,
}

impl View for Rendered {
    type V = RenderedView;

    open spec fn view(&self) -> RenderedView {
        RenderedView {
            lines: views::views(self.lines@),
            links: views::views(self.link_map.links@),
            anchors: self.link_map.anchors@,
            boxes: self.checkbox_map.items@,
            images: views::views(self.images@),
            width: self.width,
            row_source: self.row_source@,
            cursor_xy: self.cursor_xy,
            blocks: self.blocks@,
        }
    }
}

impl Clone for Rendered {
    fn clone(&self) -> (r: Rendered)
        ensures
            r@ == self@,
    {
        Rendered {
            lines: views::copy_all(&self.lines),
            link_map: self.link_map.clone(),
            checkbox_map: self.checkbox_map.clone(),
            images: views::copy_all(&self.images),
            width: self.width,
            row_source: views::copy_plain(&self.row_source),
            cursor_xy: self.cursor_xy,
            blocks: views::copy_plain(&self.blocks),
        }
    }
}

/// A block of a document before layout.
#[derive(Debug)]
pub enum Block {
    /// Flowing text, word-wrapped.
    Paragraph { runs: Vec<Run>, prefix: Vec<Run>, hanging: Vec<Run> },
    /// Heading, word-wrapped, its anchor recorded.
    Heading { runs: Vec<Run>, anchor: String },
    /// Code, put out line by line.
    Pre { lines: Vec<CodeLine>, prefix: Vec<Run> },
    /// Table.
    Table { aligns: Vec<Align>, header: Row, rows: Vec<Row> },
    /// Horizontal rule.
    Rule,
    /// Source text shown as it is, from a byte offset on.
    Raw { text: String, offset: usize },
    /// Empty line.
    Blank,
}

/// What a [`Block`] holds.
pub enum BlockView {
    Paragraph { runs: Seq<wrap::RunView>, prefix: Seq<wrap::RunView>, hanging: Seq<wrap::RunView> },
    Heading { runs: Seq<wrap::RunView>, anchor: Seq<char> },
    Pre { lines: Seq<Seq<style::SpanView>>, prefix: Seq<wrap::RunView> },
    Table {
        aligns: Seq<Align>,
        header: Seq<Seq<wrap::RunView>>,
        rows: Seq<Seq<Seq<wrap::RunView>>>,
    },
    Rule,
    Raw { text: Seq<char>, offset: usize },
    Blank,
}

impl View for Block {
    type V = BlockView;

    open spec fn view(&self) -> BlockView {
        match self {
            Block::Paragraph { runs, prefix, hanging } => BlockView::Paragraph {
                runs: views::views(runs@),
                prefix: views::views(prefix@),
                hanging: views::views(hanging@),
            },
            Block::Heading { runs, anchor } => BlockView::Heading {
                runs: views::views(runs@),
                anchor: anchor@,
            },
            Block::Pre { lines, prefix } => BlockView::Pre {
                lines: views::views(lines@),
                prefix: views::views(prefix@),
            },
            Block::Table { aligns, header, rows } => BlockView::Table {
                aligns: aligns@,
                header: header@,
                rows: views::views(rows@),
            },
            Block::Rule => BlockView::Rule,
            Block::Raw { text, offset } => BlockView::Raw { text: text@, offset: *offset },
            Block::Blank => BlockView::Blank,
        }
    }
}

/// A block and the source offset where its top-level construct begins.
#[derive(Debug)]
pub struct Placed {
    pub block: Block,
    pub source: usize,
}

impl View for Placed {
    type V = (BlockView, usize);

    open spec fn view(&self) -> (BlockView, usize) {
        (self.block@, self.source)
    }
}

// ---------------------------------------------------------------------------
// Layout pass
// ---------------------------------------------------------------------------

/// Appends the spans of a code line, each on the code background.
pub open spec fn code_line_spans(
    prefix: Seq<wrap::RunView>,
    line: Seq<style::SpanView>,
    bg: Option<style::Color>,
    n: int,
) -> Seq<style::SpanView>
    decreases n,
{
    if n <= 0 {
        wrap::spans_of(prefix).push(style::span("  "@, Style::plain().bg_opt(bg)))
    } else {
        code_line_spans(prefix, line, bg, n - 1).push(
            style::span(line[n - 1].content, line[n - 1].style.bg_opt(bg)),
        )
    }
}

/// Columns of the first `n` spans of a code line.
pub open spec fn content_width(line: Seq<style::SpanView>, n: int) -> usize
    decreases n,
{
    if n <= 0 {
        0
    } else {
        text::sat(content_width(line, n - 1) + text::display_width(line[n - 1].content))
    }
}

/// A code line: prefix, padding of two, the code, and padding up to `width`.
pub open spec fn code_line(
    prefix: Seq<wrap::RunView>,
    line: Seq<style::SpanView>,
    bg: Option<style::Color>,
    width: usize,
) -> Seq<style::SpanView> {
    let n = line.len() as int;
    let used = text::sat(
        text::sat(wrap::runs_width(prefix) + text::display_width("  "@)) + content_width(line, n),
    );
    let spans = code_line_spans(prefix, line, bg, n);
    if width > used {
        spans.push(
            style::span(text::repeated(' ', (width - used) as nat), Style::plain().bg_opt(bg)),
        )
    } else {
        spans
    }
}

/// The output lines after the first `n` lines of a code block.
pub open spec fn code_lines(
    out: Seq<Seq<style::SpanView>>,
    prefix: Seq<wrap::RunView>,
    lines: Seq<Seq<style::SpanView>>,
    bg: Option<style::Color>,
    width: usize,
    n: int,
) -> Seq<Seq<style::SpanView>>
    decreases n,
{
    if n <= 0 {
        out
    } else {
        code_lines(out, prefix, lines, bg, width, n - 1).push(
            code_line(prefix, lines[n - 1], bg, width),
        )
    }
}

/// `rows` filled up to length `n` with rows that show no source.
pub open spec fn filled(rows: Seq<Option<(usize, usize)>>, n: int) -> Seq<Option<(usize, usize)>> {
    if n > rows.len() {
        rows + Seq::new((n - rows.len()) as nat, |i: int| None::<(usize, usize)>)
    } else {
        rows
    }
}

/// `n` capped at the largest `u16`.
pub open spec fn short(n: int) -> u16 {
    if n > u16::MAX {
        u16::MAX
    } else {
        n as u16
    }
}

/// The rows of raw text at or before byte `src`.
pub open spec fn shows_by(src: int) -> spec_fn(raw::RawRowView) -> bool {
    |r: raw::RawRowView| r.start <= src
}

/// Index of the row of raw text that shows byte `src`.
pub open spec fn showing_row(rows: Seq<raw::RawRowView>, src: int) -> int {
    match views::last_where(rows, shows_by(src), rows.len() as int) {
        Some(i) => i,
        None => 0,
    }
}

/// A layout in progress: the output, the heading anchors, and what editing needs
/// to know of it.
#[verifier::ext_equal]
pub struct LayoutView {
    pub pen: wrap::PenView,
    pub anchors: Map<Seq<char>, usize>,
    pub row_source: Seq<Option<(usize, usize)>>,
    pub cursor_xy: Option<(u16, u16)>,
    pub spans: Seq<BlockSpan>,
}

impl LayoutView {
    /// Puts out source text as it is, and notes where the cursor stands in it.
    pub open spec fn raw(self, t: Seq<char>, offset: usize, width: usize, cursor: Option<usize>) -> LayoutView {
        let rows = raw::raw_rows(t, table::max(width, 1) as int);
        let p = self.pen;
        LayoutView {
            pen: wrap::PenView {
                lines: p.lines + rows.map_values(
                    |r: raw::RawRowView| seq![style::span(r.text, Style::plain())],
                ),
                ..p
            },
            row_source: filled(self.row_source, p.lines.len() as int) + rows.map_values(
                |r: raw::RawRowView|
                    Some((text::sat(offset + r.start), text::sat(offset + r.end))),
            ),
            cursor_xy: match cursor {
                Some(c) if offset <= c => {
                    let i = showing_row(rows, c - offset);
                    Some(
                        (short(raw::cursor_col(rows[i], c - offset) as int), short(p.lines.len() + i)),
                    )
                },
                _ => self.cursor_xy,
            },
            ..self
        }
    }

    /// Notes the rows that a block took, if any.
    pub open spec fn noted(self, from: nat, source: usize) -> LayoutView {
        if self.pen.lines.len() > from {
            LayoutView {
                spans: self.spans.push(
                    BlockSpan {
                        display_start: from as usize,
                        display_end: self.pen.lines.len() as usize,
                        source_start: source,
                    },
                ),
                ..self
            }
        } else {
            self
        }
    }

    /// Puts out one block. A blank line is left out after another.
    pub open spec fn block(
        self,
        b: BlockView,
        theme: Theme,
        width: usize,
        targets: Seq<links::TargetView>,
        boxes: Seq<PendingCheckbox>,
        cursor: Option<usize>,
    ) -> LayoutView {
        let p = self.pen;
        match b {
            BlockView::Raw { text, offset } => self.raw(text, offset, width, cursor),
            BlockView::Blank => if p.lines.len() > 0 && p.lines.last().len() == 0 {
                self
            } else {
                LayoutView {
                    pen: wrap::PenView { lines: p.lines.push(Seq::empty()), ..p },
                    ..self
                }
            },
            BlockView::Rule => {
                let bar = text::repeated('─', table::max(width, 1) as nat);
                LayoutView {
                    pen: wrap::PenView {
                        lines: p.lines.push(seq![style::span(bar, Style::plain().fg(theme.rule))]),
                        ..p
                    },
                    ..self
                }
            },
            BlockView::Heading { runs, anchor } => LayoutView {
                pen: p.wrapped(runs, Seq::empty(), Seq::empty(), width, targets, boxes),
                anchors: self.anchors.insert(anchor, p.lines.len() as usize),
                ..self
            },
            BlockView::Paragraph { runs, prefix, hanging } => LayoutView {
                pen: p.wrapped(runs, prefix, hanging, width, targets, boxes),
                ..self
            },
            BlockView::Table { aligns, header, rows } => {
                let (lines, out) = table::table_put(
                    p.lines,
                    p.links,
                    header,
                    rows,
                    aligns,
                    width,
                    theme.muted,
                    theme.heading@[1],
                    targets,
                );
                LayoutView { pen: wrap::PenView { lines, links: out, ..p }, ..self }
            },
            BlockView::Pre { lines, prefix } => LayoutView {
                pen: wrap::PenView {
                    lines: code_lines(
                        p.lines,
                        prefix,
                        lines,
                        theme.code_bg,
                        width,
                        lines.len() as int,
                    ),
                    ..p
                },
                ..self
            },
        }
    }

    /// Puts out the first `n` blocks.
    pub open spec fn blocks(
        self,
        bs: Seq<(BlockView, usize)>,
        theme: Theme,
        width: usize,
        targets: Seq<links::TargetView>,
        boxes: Seq<PendingCheckbox>,
        cursor: Option<usize>,
        n: int,
    ) -> LayoutView
        decreases n,
    {
        if n <= 0 {
            self
        } else {
            let l = self.blocks(bs, theme, width, targets, boxes, cursor, n - 1);
            l.block(bs[n - 1].0, theme, width, targets, boxes, cursor).noted(
                l.pen.lines.len(),
                bs[n - 1].1,
            )
        }
    }
}

/// The layout of an empty document with `images` embeds.
pub open spec fn layout_start(images: nat) -> LayoutView {
    LayoutView {
        pen: wrap::PenView {
            lines: Seq::empty(),
            links: Seq::empty(),
            boxes: Seq::empty(),
            image_lines: Seq::new(images, |i: int| None::<usize>),
            spans: Seq::empty(),
            col: 0,
            inner: 0,
            at_line_start: true,
            room: 0,
            link: None,
            link_start: 0,
        },
        anchors: Map::empty(),
        row_source: Seq::empty(),
        cursor_xy: None,
        spans: Seq::empty(),
    }
}

/// The images among the first `n` whose placeholder got a line.
pub open spec fn placed_images(
    images: Seq<Seq<char>>,
    lines: Seq<Option<usize>>,
    n: int,
) -> Seq<links::ImageView>
    decreases n,
{
    if n <= 0 {
        Seq::empty()
    } else {
        let before = placed_images(images, lines, n - 1);
        if n - 1 < lines.len() {
            match lines[n - 1] {
                Some(line) => before.push(links::ImageView { line, source: images[n - 1] }),
                None => before,
            }
        } else {
            before
        }
    }
}

/// The document that a list of blocks lays out to.
pub open spec fn laid_out(
    theme: Theme,
    width: usize,
    blocks: Seq<(BlockView, usize)>,
    targets: Seq<links::TargetView>,
    boxes: Seq<PendingCheckbox>,
    images: Seq<Seq<char>>,
    cursor: Option<usize>,
) -> RenderedView {
    let l = layout_start(images.len()).blocks(
        blocks,
        theme,
        width,
        targets,
        boxes,
        cursor,
        blocks.len() as int,
    );
    RenderedView {
        lines: l.pen.lines,
        links: l.pen.links,
        anchors: l.anchors,
        boxes: l.pen.boxes,
        images: placed_images(images, l.pen.image_lines, images.len() as int),
        width: width as u16,
        row_source: l.row_source,
        cursor_xy: l.cursor_xy,
        blocks: l.spans,
    }
}

/// Puts out one code line.
fn layout_code_line(prefix: &[Run], line: &CodeLine, bg: Option<style::Color>, width: usize) -> (r: Line)
    ensures
        r@ == code_line(views::views(prefix@), line@, bg, width),
{
    let ghost pv = views::views(prefix@);
    let prefix_width = measure(prefix).saturating_add(str_width("  "));
    let mut spans = to_spans(prefix);
    spans.push(Span::styled("  ".to_string(), Style::plain().bg_opt(bg)));
    let mut content_w: usize = 0;
    let mut i: usize = 0;
    while i < line.spans.len()
        invariant
            i <= line.spans@.len(),
            views::views(spans@) == code_line_spans(pv, line@, bg, i as int),
            content_w == content_width(line@, i as int),
        decreases line.spans@.len() - i,
    {
        let sp = &line.spans[i];
        content_w = content_w.saturating_add(str_width(&sp.content));
        spans.push(Span::styled(sp.content.clone(), sp.style.bg_opt(bg)));
        i = i + 1;
    }
    let used = prefix_width.saturating_add(content_w);
    if width > used {
        spans.push(Span::styled(repeat_char(' ', width - used), Style::plain().bg_opt(bg)));
    }
    Line { spans }
}

/// A layout in progress.
pub struct Layout {
    pub pen: Pen,
    pub anchors: TextMap<usize>,
    pub row_source: Vec<Option<(usize, usize)>>,
    pub cursor_xy: Option<(u16, u16)>,
    pub spans: Vec<BlockSpan>,
}

impl View for Layout {
    type V = LayoutView;

    open spec fn view(&self) -> LayoutView {
        LayoutView {
            pen: self.pen@,
            anchors: self.anchors@,
            row_source: self.row_source@,
            cursor_xy: self.cursor_xy,
            spans: self.spans@,
        }
    }
}

fn to_short(n: usize) -> (r: u16)
    ensures
        r == short(n as int),
{
    if n > 65535 {
        65535
    } else {
        n as u16
    }
}

impl Layout {
    fn put_raw(&mut self, t: &str, offset: usize, width: usize, cursor: Option<usize>)
        ensures
            final(self)@ == old(self)@.raw(t@, offset, width, cursor),
    {
        let w: usize = if width >= 1 {
            width
        } else {
            1
        };
        let rows = render_raw_pane(t, w);
        let ghost rv = views::views(rows@);
        let ghost start = self@;
        let first = self.pen.lines.len();
        while self.row_source.len() < first
            invariant
                first == start.pen.lines.len(),
                self@ == (LayoutView { row_source: self.row_source@, ..start }),
                start.row_source.len() <= self.row_source@.len(),
                self.row_source@ == filled(start.row_source, self.row_source@.len() as int),
                self.row_source@.len() <= first || self.row_source@ == start.row_source,
            decreases first - self.row_source@.len(),
        {
            self.row_source.push(None);
            assert(self.row_source@ =~= filled(start.row_source, self.row_source@.len() as int));
        }
        let ghost base = filled(start.row_source, first as int);
        assert(self.row_source@ =~= base);
        match cursor {
            Some(c) => {
                if offset <= c {
                    let mut i: usize = rows.len();
                    let ghost src = c - offset;
                    while i > 0 && rows[i - 1].start > c - offset
                        invariant
                            i <= rows@.len(),
                            offset <= c,
                            src == c - offset,
                            rv == views::views(rows@),
                            views::last_where(rv, shows_by(src), rv.len() as int)
                                == views::last_where(rv, shows_by(src), i as int),
                        decreases i,
                    {
                        i = i - 1;
                    }
                    let at: usize = if i > 0 {
                        i - 1
                    } else {
                        0
                    };
                    let col = column_of(&rows[at], c - offset);
                    self.cursor_xy = Some((to_short(col), to_short(first.saturating_add(at))));
                }
            },
            None => {},
        }
        let ghost xy = self.cursor_xy;
        let ghost shown = rv.map_values(
            |r: raw::RawRowView| seq![style::span(r.text, Style::plain())],
        );
        let ghost srcs = rv.map_values(
            |r: raw::RawRowView| Some((text::sat(offset + r.start), text::sat(offset + r.end))),
        );
        let mut k: usize = 0;
        while k < rows.len()
            invariant
                rv == views::views(rows@),
                shown == rv.map_values(
                    |r: raw::RawRowView| seq![style::span(r.text, Style::plain())],
                ),
                srcs == rv.map_values(
                    |r: raw::RawRowView|
                        Some((text::sat(offset + r.start), text::sat(offset + r.end))),
                ),
                k <= rows@.len(),
                self@ == (LayoutView {
                    pen: wrap::PenView {
                        lines: start.pen.lines + shown.take(k as int),
                        ..start.pen
                    },
                    row_source: base + srcs.take(k as int),
                    cursor_xy: xy,
                    ..start
                }),
            decreases rows@.len() - k,
        {
            let mut spans: Vec<Span> = Vec::new();
            spans.push(Span::raw(rows[k].text.clone()));
            assert(views::views(spans@) =~= seq![style::span(rv[k as int].text, Style::plain())]);
            self.pen.lines.push(Line { spans });
            self.row_source.push(
                Some((offset.saturating_add(rows[k].start), offset.saturating_add(rows[k].end))),
            );
            k = k + 1;
            assert(start.pen.lines + shown.take(k as int) =~= (start.pen.lines + shown.take(
                k - 1,
            )).push(shown[k - 1]));
            assert(base + srcs.take(k as int) =~= (base + srcs.take(k - 1)).push(srcs[k - 1]));
        }
        assert(shown.take(k as int) =~= shown);
        assert(srcs.take(k as int) =~= srcs);
    }

    fn put_block(
        &mut self,
        block: &Block,
        theme: &Theme,
        width: usize,
        targets: &[LinkTarget],
        boxes: &[PendingCheckbox],
        cursor: Option<usize>,
    )
        ensures
            final(self)@ == old(self)@.block(
                block@,
                *theme,
                width,
                views::views(targets@),
                boxes@,
                cursor,
            ),
    {
        match block {
            Block::Raw { text, offset } => {
                self.put_raw(text, *offset, width, cursor);
            },
            Block::Blank => {
                let n = self.pen.lines.len();
                if n > 0 && self.pen.lines[n - 1].spans.len() == 0 {
                    assert(self@.pen.lines.last().len() == 0);
                } else {
                    self.pen.lines.push(Line { spans: Vec::new() });
                }
            },
            Block::Rule => {
                let bar = repeat_char(
                    '─',
                    if width >= 1 {
                        width
                    } else {
                        1
                    },
                );
                let mut spans: Vec<Span> = Vec::new();
                let ghost sp = style::span(bar@, Style::plain().fg(theme.rule));
                spans.push(Span::styled(bar, Style::plain().fg(theme.rule)));
                assert(views::views(spans@) =~= seq![sp]);
                self.pen.lines.push(Line { spans });
            },
            Block::Heading { runs, anchor } => {
                let start = self.pen.lines.len();
                self.anchors.insert(anchor.clone(), start);
                let none: Vec<Run> = Vec::new();
                assert(views::views(none@) =~= Seq::<wrap::RunView>::empty());
                self.pen.wrap_runs(runs, &none, &none, width, targets, boxes);
            },
            Block::Paragraph { runs, prefix, hanging } => {
                self.pen.wrap_runs(runs, prefix, hanging, width, targets, boxes);
            },
            Block::Table { aligns, header, rows } => {
                layout_table(
                    header,
                    rows,
                    aligns,
                    width,
                    theme.muted,
                    theme.heading[1],
                    &mut self.pen.lines,
                    &mut self.pen.links,
                    targets,
                );
            },
            Block::Pre { lines, prefix } => {
                let ghost start = self@;
                let ghost lv = views::views(lines@);
                let ghost pv = views::views(prefix@);
                let mut i: usize = 0;
                while i < lines.len()
                    invariant
                        lv == views::views(lines@),
                        pv == views::views(prefix@),
                        i <= lines@.len(),
                        self@ == (LayoutView {
                            pen: wrap::PenView {
                                lines: code_lines(
                                    start.pen.lines,
                                    pv,
                                    lv,
                                    theme.code_bg,
                                    width,
                                    i as int,
                                ),
                                ..start.pen
                            },
                            ..start
                        }),
                    decreases lines@.len() - i,
                {
                    self.pen.lines.push(layout_code_line(prefix, &lines[i], theme.code_bg, width));
                    i = i + 1;
                }
            },
        }
    }
}

impl Layout {
    fn put_placed(
        &mut self,
        placed: &Placed,
        theme: &Theme,
        width: usize,
        targets: &[LinkTarget],
        boxes: &[PendingCheckbox],
        cursor: Option<usize>,
    )
        ensures
            final(self)@ == old(self)@.block(
                placed@.0,
                *theme,
                width,
                views::views(targets@),
                boxes@,
                cursor,
            ).noted(old(self)@.pen.lines.len(), placed@.1),
    {
        let from = self.pen.lines.len();
        self.put_block(&placed.block, theme, width, targets, boxes, cursor);
        let to = self.pen.lines.len();
        if to > from {
            self.spans.push(
                BlockSpan { display_start: from, display_end: to, source_start: placed.source },
            );
        }
    }
}

/// Lays out blocks into display lines.
pub fn layout(
    theme: &Theme,
    width: usize,
    blocks: &[Placed],
    targets: &[LinkTarget],
    boxes: &[PendingCheckbox],
    images: &[String],
    cursor: Option<usize>,
) -> (r: Rendered)
    ensures
        r@ == laid_out(
            *theme,
            width,
            views::views(blocks@),
            views::views(targets@),
            boxes@,
            views::views(images@),
            cursor,
        ),
{
    let mut image_lines: Vec<Option<usize>> = Vec::new();
    let mut k: usize = 0;
    while k < images.len()
        invariant
            k <= images@.len(),
            image_lines@ == Seq::new(k as nat, |i: int| None::<usize>),
        decreases images@.len() - k,
    {
        image_lines.push(None);
        k = k + 1;
        assert(image_lines@ =~= Seq::new(k as nat, |i: int| None::<usize>));
    }
    let mut lay = Layout {
        pen: Pen {
            lines: Vec::new(),
            links: Vec::new(),
            boxes: Vec::new(),
            image_lines,
            spans: Vec::new(),
            col: 0,
            inner: 0,
            at_line_start: true,
            room: 0,
            link: None,
            link_start: 0,
        },
        anchors: TextMap::new(),
        row_source: Vec::new(),
        cursor_xy: None,
        spans: Vec::new(),
    };
    let ghost start = lay@;
    assert(start =~= layout_start(views::views(images@).len()));
    let ghost bv = views::views(blocks@);
    let mut i: usize = 0;
    while i < blocks.len()
        invariant
            bv == views::views(blocks@),
            i <= blocks@.len(),
            lay@ == start.blocks(
                bv,
                *theme,
                width,
                views::views(targets@),
                boxes@,
                cursor,
                i as int,
            ),
        decreases blocks@.len() - i,
    {
        lay.put_placed(&blocks[i], theme, width, targets, boxes, cursor);
        i = i + 1;
    }
    let ghost iv = views::views(images@);
    let mut out: Vec<ImageRef> = Vec::new();
    let mut j: usize = 0;
    while j < images.len()
        invariant
            iv == views::views(images@),
            j <= images@.len(),
            views::views(out@) == placed_images(iv, lay.pen.image_lines@, j as int),
        decreases images@.len() - j,
    {
        if j < lay.pen.image_lines.len() {
            match lay.pen.image_lines[j] {
                Some(line) => {
                    out.push(ImageRef { line, source: images[j].clone() });
                },
                None => {},
            }
        }
        j = j + 1;
    }
    Rendered {
        lines: lay.pen.lines,
        link_map: LinkMap { links: lay.pen.links, anchors: lay.anchors },
        checkbox_map: CheckboxMap { items: lay.pen.boxes },
        images: out,
        width: width as u16,
        row_source: lay.row_source,
        cursor_xy: lay.cursor_xy,
        blocks: lay.spans,
    }
}

// ---------------------------------------------------------------------------
// Blocks from events
// ---------------------------------------------------------------------------

/// A table being read.
#[derive(Debug)]
pub struct TableState {
    pub aligns: Vec<Align>,
    pub header: Row,
    pub rows: Vec<Row>,
    pub current_row: Vec<Cell>,
    /// Index of the first run of the current cell.
    pub cell_start: usize,
}

/// What a [`TableState`] holds.
#[verifier::ext_equal]
pub struct TableStateView {
    pub aligns: Seq<Align>,
    pub header: Seq<Seq<wrap::RunView>>,
    pub rows: Seq<Seq<Seq<wrap::RunView>>>,
    pub current_row: Seq<Seq<wrap::RunView>>,
    pub cell_start: usize,
}

impl View for TableState {
    type V = TableStateView;

    open spec fn view(&self) -> TableStateView {
        TableStateView {
            aligns: self.aligns@,
            header: self.header@,
            rows: views::views(self.rows@),
            current_row: views::views(self.current_row@),
            cell_start: self.cell_start,
        }
    }
}

/// Collects blocks from parser events.
pub struct Builder<'a> {
    theme: &'a Theme,
    hl: &'a Highlighter,
    base_dir: Option<&'a str>,
    blocks: Vec<Placed>,
    /// Open constructs, and where the outermost begins in the source.
    depth: usize,
    source: usize,
    targets: Vec<LinkTarget>,
    boxes: Vec<PendingCheckbox>,
    images: Vec<String>,
    runs: Vec<Run>,
    prefix: Vec<Run>,
    hanging: Vec<Run>,
    styles: Vec<Style>,
    /// Open lists, each with the next number of an ordered one.
    lists: Vec<Option<u64>>,
    quote_depth: usize,
    in_heading: bool,
    heading_buf: String,
    code_lang: Option<String>,
    code: String,
    in_code_block: bool,
    open_link: Option<usize>,
    table: Option<TableState>,
}

/// The state of a [`Builder`].
#[verifier::ext_equal]
pub struct BuilderView {
    pub theme: Theme,
    pub hl: Highlighter,
    pub base_dir: Option<Seq<char>>,
    pub blocks: Seq<(BlockView, usize)>,
    pub depth: usize,
    pub source: usize,
    pub targets: Seq<links::TargetView>,
    pub boxes: Seq<PendingCheckbox>,
    pub images: Seq<Seq<char>>,
    pub runs: Seq<wrap::RunView>,
    pub prefix: Seq<wrap::RunView>,
    pub hanging: Seq<wrap::RunView>,
    pub styles: Seq<Style>,
    pub lists: Seq<Option<u64>>,
    pub quote_depth: usize,
    pub in_heading: bool,
    pub heading_buf: Seq<char>,
    pub code_lang: Option<Seq<char>>,
    pub code: Seq<char>,
    pub in_code_block: bool,
    pub open_link: Option<usize>,
    pub table: Option<TableStateView>,
}

impl<'a> View for Builder<'a> {
    type V = BuilderView;

    closed spec fn view(&self) -> BuilderView {
        BuilderView {
            theme: *self.theme,
            hl: *self.hl,
            base_dir: palette::opt_text(self.base_dir),
            blocks: views::views(self.blocks@),
            depth: self.depth,
            source: self.source,
            targets: views::views(self.targets@),
            boxes: self.boxes@,
            images: views::views(self.images@),
            runs: views::views(self.runs@),
            prefix: views::views(self.prefix@),
            hanging: views::views(self.hanging@),
            styles: self.styles@,
            lists: self.lists@,
            quote_depth: self.quote_depth,
            in_heading: self.in_heading,
            heading_buf: self.heading_buf@,
            code_lang: views::opt_view(self.code_lang),
            code: self.code@,
            in_code_block: self.in_code_block,
            open_link: self.open_link,
            table: views::opt_view(self.table),
        }
    }
}

/// Position of a level among the heading colors.
pub open spec fn level_index(l: Level) -> int {
    match l {
        Level::H1 => 0,
        Level::H2 => 1,
        Level::H3 => 2,
        Level::H4 => 3,
        Level::H5 => 4,
        Level::H6 => 5,
    }
}

fn heading_idx(l: Level) -> (i: usize)
    ensures
        i == level_index(l),
        i < 6,
{
    match l {
        Level::H1 => 0,
        Level::H2 => 1,
        Level::H3 => 2,
        Level::H4 => 3,
        Level::H5 => 4,
        Level::H6 => 5,
    }
}

/// The marker of a list item.
pub open spec fn list_marker(ordered: Option<u64>) -> Seq<char> {
    match ordered {
        Some(n) => text::decimal(n as nat) + ". "@,
        None => "• "@,
    }
}

/// The number after `n`.
pub open spec fn next_number(n: u64) -> u64 {
    if n == u64::MAX {
        n
    } else {
        (n + 1) as u64
    }
}

impl BuilderView {
    /// The style of text at this point.
    pub open spec fn cur_style(self) -> Style {
        if self.styles.len() == 0 {
            Style::plain()
        } else {
            self.styles.last()
        }
    }

    pub open spec fn push_style(self, s: Style) -> BuilderView {
        BuilderView { styles: self.styles.push(s), ..self }
    }

    /// Drops the innermost style; the base style stays.
    pub open spec fn pop_style(self) -> BuilderView {
        if self.styles.len() > 1 {
            BuilderView { styles: self.styles.drop_last(), ..self }
        } else {
            self
        }
    }

    pub open spec fn push_block(self, b: BlockView) -> BuilderView {
        BuilderView { blocks: self.blocks.push((b, self.source)), ..self }
    }

    pub open spec fn push_run(self, r: wrap::RunView) -> BuilderView {
        BuilderView { runs: self.runs.push(r), ..self }
    }

    /// Appends text that belongs to the open link.
    pub open spec fn push_linked(self, t: Seq<char>, s: Style) -> BuilderView {
        self.push_run(
            wrap::RunView { text: t, style: s, link: self.open_link, checkbox: None, image: None },
        )
    }

    /// The bars before quoted text.
    pub open spec fn quote_prefix(self) -> Seq<wrap::RunView> {
        if self.quote_depth == 0 {
            Seq::empty()
        } else {
            seq![
                wrap::plain_run(
                    text::times("│ "@, self.quote_depth as nat),
                    Style::plain().fg(self.theme.quote),
                ),
            ]
        }
    }

    /// Ends a paragraph, if there is one.
    pub open spec fn finish_paragraph(self) -> BuilderView {
        if self.runs.len() == 0 && self.prefix.len() == 0 {
            self
        } else {
            BuilderView {
                runs: Seq::empty(),
                prefix: Seq::empty(),
                hanging: Seq::empty(),
                ..self
            }.push_block(
                BlockView::Paragraph {
                    runs: self.runs,
                    prefix: self.quote_prefix() + self.prefix,
                    hanging: self.quote_prefix() + self.hanging,
                },
            )
        }
    }

    /// Text: into a code block, or as a run and into the heading's anchor.
    pub open spec fn push_text(self, t: Seq<char>) -> BuilderView {
        if self.in_code_block {
            BuilderView { code: self.code + t, ..self }
        } else {
            let b = if self.in_heading {
                BuilderView { heading_buf: self.heading_buf + t, ..self }
            } else {
                self
            };
            b.push_linked(t, self.cur_style())
        }
    }

    /// Begins a list item: its marker, indented by depth, and the hanging indent
    /// of its continuation lines. An ordered list counts on.
    pub open spec fn start_item(self) -> BuilderView {
        if self.lists.len() == 0 {
            BuilderView { prefix: Seq::empty(), hanging: Seq::empty(), ..self }
        } else {
            let top = self.lists.last();
            let indent = text::times("  "@, (self.lists.len() - 1) as nat);
            let marker = list_marker(top);
            BuilderView {
                prefix: seq![
                    wrap::plain_run(indent, Style::plain()),
                    wrap::plain_run(marker, Style::plain().fg(self.theme.list_marker)),
                ],
                hanging: seq![
                    wrap::plain_run(indent + text::repeated(' ', marker.len()), Style::plain()),
                ],
                lists: match top {
                    Some(n) => self.lists.update(self.lists.len() - 1, Some(next_number(n))),
                    None => self.lists,
                },
                ..self
            }
        }
    }

    /// What a construct's beginning does.
    pub open spec fn start_tag(self, tag: parse::TagView) -> BuilderView {
        match tag {
            parse::TagView::Heading(level) => BuilderView {
                in_heading: true,
                heading_buf: Seq::empty(),
                ..self
            }.push_style(
                Style::plain().fg(self.theme.heading@[level_index(level)]).add_modifier(
                    self.theme.heading_modifier,
                ),
            ),
            parse::TagView::BlockQuote => BuilderView {
                quote_depth: text::sat(self.quote_depth + 1),
                ..self
            },
            parse::TagView::CodeBlock(info) => BuilderView {
                in_code_block: true,
                code: Seq::empty(),
                code_lang: match info {
                    Some(s) if s.len() > 0 => Some(s),
                    _ => None,
                },
                ..self
            },
            parse::TagView::List(start) => BuilderView { lists: self.lists.push(start), ..self },
            parse::TagView::Item => self.start_item(),
            parse::TagView::Emphasis => self.push_style(
                self.cur_style().add_modifier(self.theme.emphasis),
            ),
            parse::TagView::Strong => self.push_style(
                self.cur_style().add_modifier(self.theme.strong),
            ),
            parse::TagView::Strikethrough => self.push_style(
                self.cur_style().add_modifier(self.theme.strikethrough),
            ),
            parse::TagView::Link(dest) => BuilderView {
                targets: self.targets.push(links::resolved(dest, self.base_dir)),
                open_link: Some(self.targets.len() as usize),
                ..self
            }.push_style(
                Style::plain().fg(self.theme.link).add_modifier(self.theme.link_modifier),
            ),
            parse::TagView::Image(dest, title) => BuilderView {
                images: self.images.push(
                    match self.base_dir {
                        Some(b) => paths::joined(b, dest),
                        None => dest,
                    },
                ),
                ..self
            }.push_run(
                wrap::RunView {
                    text: image_label(dest, title),
                    style: Style::plain().fg(self.theme.muted),
                    link: None,
                    checkbox: None,
                    image: Some(self.images.len() as usize),
                },
            ),
            parse::TagView::Table(aligns) => BuilderView {
                table: Some(
                    TableStateView {
                        aligns,
                        header: Seq::empty(),
                        rows: Seq::empty(),
                        current_row: Seq::empty(),
                        cell_start: 0,
                    },
                ),
                ..self
            },
            parse::TagView::TableCell => match self.table {
                Some(t) => BuilderView {
                    table: Some(TableStateView { cell_start: self.runs.len() as usize, ..t }),
                    ..self
                },
                None => self,
            },
            parse::TagView::FootnoteDefinition(name) => self.push_run(
                wrap::plain_run(
                    "[^"@ + name + "]: "@,
                    Style::plain().fg(self.theme.muted).add_modifier(Modifier::bold()),
                ),
            ),
            parse::TagView::Other => self,
        }
    }

    /// What a construct's end does.
    pub open spec fn end_tag(self, tag: MdTagEnd) -> BuilderView {
        match tag {
            MdTagEnd::Paragraph => self.finish_paragraph().push_block(BlockView::Blank),
            MdTagEnd::Heading => {
                let b = self.pop_style();
                BuilderView {
                    in_heading: false,
                    runs: Seq::empty(),
                    prefix: Seq::empty(),
                    hanging: Seq::empty(),
                    ..b
                }.push_block(BlockView::Blank).push_block(
                    BlockView::Heading { runs: b.runs, anchor: links::slug(b.heading_buf) },
                ).push_block(BlockView::Blank)
            },
            MdTagEnd::BlockQuote => {
                let depth: usize = if self.quote_depth > 0 {
                    (self.quote_depth - 1) as usize
                } else {
                    0
                };
                let b = BuilderView { quote_depth: depth, ..self };
                if depth == 0 {
                    b.push_block(BlockView::Blank)
                } else {
                    b
                }
            },
            MdTagEnd::CodeBlock => BuilderView {
                in_code_block: false,
                code_lang: None,
                code: Seq::empty(),
                ..self
            }.push_block(
                BlockView::Pre {
                    lines: self.hl.highlighted(
                        self.code,
                        self.code_lang,
                        self.theme.syntect_theme@,
                    ),
                    prefix: self.quote_prefix(),
                },
            ).push_block(BlockView::Blank),
            MdTagEnd::List => {
                let b = if self.lists.len() > 0 {
                    BuilderView { lists: self.lists.drop_last(), ..self }
                } else {
                    self
                };
                if b.lists.len() == 0 {
                    b.push_block(BlockView::Blank)
                } else {
                    b
                }
            },
            MdTagEnd::Item => self.finish_paragraph(),
            MdTagEnd::Emphasis | MdTagEnd::Strong | MdTagEnd::Strikethrough => self.pop_style(),
            MdTagEnd::Link => BuilderView { open_link: None, ..self.pop_style() },
            MdTagEnd::Table => match self.table {
                Some(t) => BuilderView { table: None, ..self }.push_block(
                    BlockView::Table { aligns: t.aligns, header: t.header, rows: t.rows },
                ).push_block(BlockView::Blank),
                None => self,
            },
            MdTagEnd::TableHead => match self.table {
                Some(t) => BuilderView {
                    table: Some(
                        TableStateView { header: t.current_row, current_row: Seq::empty(), ..t },
                    ),
                    ..self
                },
                None => self,
            },
            MdTagEnd::TableRow => match self.table {
                Some(t) => BuilderView {
                    table: Some(
                        TableStateView {
                            rows: t.rows.push(t.current_row),
                            current_row: Seq::empty(),
                            ..t
                        },
                    ),
                    ..self
                },
                None => self,
            },
            MdTagEnd::TableCell => match self.table {
                Some(t) => {
                    let at = if t.cell_start <= self.runs.len() {
                        t.cell_start as int
                    } else {
                        self.runs.len() as int
                    };
                    BuilderView {
                        runs: self.runs.take(at),
                        table: Some(
                            TableStateView {
                                current_row: t.current_row.push(self.runs.skip(at)),
                                ..t
                            },
                        ),
                        ..self
                    }
                },
                None => self,
            },
            MdTagEnd::Other => self,
        }
    }

    /// Notes where a top-level construct begins.
    pub open spec fn located(self, ev: parse::EventView, offset: usize) -> BuilderView {
        let begins = ev is Start || ev is Rule || ev is Source;
        BuilderView {
            source: if self.depth == 0 && begins {
                offset
            } else {
                self.source
            },
            depth: if ev is Start {
                text::sat(self.depth + 1)
            } else if ev is End && self.depth > 0 {
                (self.depth - 1) as usize
            } else {
                self.depth
            },
            ..self
        }
    }

    /// What one event does.
    pub open spec fn event(self, ev: parse::EventView, offset: usize) -> BuilderView {
        self.located(ev, offset).handled(ev, offset)
    }

    /// What one event does once its place is noted.
    pub open spec fn handled(self, ev: parse::EventView, offset: usize) -> BuilderView {
        match ev {
            parse::EventView::Source(t) => self.push_block(BlockView::Raw { text: t, offset }),
            parse::EventView::Start(tag) => self.start_tag(tag),
            parse::EventView::End(tag) => self.end_tag(tag),
            parse::EventView::Text(s) => self.push_text(s),
            parse::EventView::Code(s) => {
                let b = self.push_linked(
                    " "@ + s + " "@,
                    self.cur_style().fg(self.theme.code_fg).bg_opt(self.theme.code_bg),
                );
                if b.in_heading {
                    BuilderView { heading_buf: b.heading_buf + s, ..b }
                } else {
                    b
                }
            },
            parse::EventView::FootnoteReference(name) => self.push_linked(
                "[^"@ + name + "]"@,
                self.cur_style().fg(self.theme.muted),
            ),
            parse::EventView::SoftBreak => self.push_linked(" "@, self.cur_style()),
            parse::EventView::HardBreak => self.push_linked("\n"@, self.cur_style()),
            parse::EventView::Rule => self.push_block(BlockView::Rule),
            parse::EventView::TaskListMarker(checked) => BuilderView {
                boxes: self.boxes.push(PendingCheckbox { source_offset: offset, checked }),
                ..self
            }.push_run(
                wrap::RunView {
                    text: if checked {
                        "[x]"@
                    } else {
                        "[ ]"@
                    },
                    style: Style::plain().fg(self.theme.list_marker).add_modifier(Modifier::bold()),
                    link: None,
                    checkbox: Some(self.boxes.len() as usize),
                    image: None,
                },
            ).push_run(wrap::plain_run(" "@, Style::plain())),
            parse::EventView::Hidden => self,
        }
    }

    /// What the first `n` events do.
    pub open spec fn events(self, evs: Seq<(parse::EventView, usize)>, n: int) -> BuilderView
        decreases n,
    {
        if n <= 0 {
            self
        } else {
            self.events(evs, n - 1).event(evs[n - 1].0, evs[n - 1].1)
        }
    }
}

/// The placeholder of an image.
pub open spec fn image_label(dest: Seq<char>, title: Seq<char>) -> Seq<char> {
    if title.len() == 0 {
        "[image: "@ + dest + "]"@
    } else {
        "[image: "@ + title + " ("@ + dest + ")]"@
    }
}

/// A builder that has seen nothing.
pub open spec fn builder_start(theme: Theme, hl: Highlighter, base: Option<Seq<char>>) -> BuilderView {
    BuilderView {
        theme,
        hl,
        base_dir: base,
        blocks: Seq::empty(),
        depth: 0,
        source: 0,
        targets: Seq::empty(),
        boxes: Seq::empty(),
        images: Seq::empty(),
        runs: Seq::empty(),
        prefix: Seq::empty(),
        hanging: Seq::empty(),
        styles: seq![Style::plain()],
        lists: Seq::empty(),
        quote_depth: 0,
        in_heading: false,
        heading_buf: Seq::empty(),
        code_lang: None,
        code: Seq::empty(),
        in_code_block: false,
        open_link: None,
        table: None,
    }
}

/// The document that a list of events stands for.
pub open spec fn rendered(
    evs: Seq<(parse::EventView, usize)>,
    base: Option<Seq<char>>,
    width: u16,
    theme: Theme,
    hl: Highlighter,
    cursor: Option<usize>,
) -> RenderedView {
    let b = builder_start(theme, hl, base).events(evs, evs.len() as int).finish_paragraph();
    let w: usize = if width == 0 {
        80
    } else {
        width as usize
    };
    laid_out(theme, w, b.blocks, b.targets, b.boxes, b.images, cursor)
}

fn joined3(a: &str, b: &str, c: &str) -> (r: String)
    ensures
        r@ == a@ + b@ + c@,
{
    let mut out = a.to_string();
    out.push_str(b);
    out.push_str(c);
    out
}

impl<'a> Builder<'a> {
    fn new(theme: &'a Theme, hl: &'a Highlighter, base_dir: Option<&'a str>) -> (r: Builder<'a>)
        ensures
            r@ == builder_start(*theme, *hl, palette::opt_text(base_dir)),
    {
        let mut styles: Vec<Style> = Vec::new();
        styles.push(Style::plain());
        let r = Builder {
            theme,
            hl,
            base_dir,
            blocks: Vec::new(),
            depth: 0,
            source: 0,
            targets: Vec::new(),
            boxes: Vec::new(),
            images: Vec::new(),
            runs: Vec::new(),
            prefix: Vec::new(),
            hanging: Vec::new(),
            styles,
            lists: Vec::new(),
            quote_depth: 0,
            in_heading: false,
            heading_buf: String::new(),
            code_lang: None,
            code: String::new(),
            in_code_block: false,
            open_link: None,
            table: None,
        };
        assert(r@ =~= builder_start(*theme, *hl, palette::opt_text(base_dir)));
        r
    }

    fn cur_style(&self) -> (s: Style)
        ensures
            s == self@.cur_style(),
    {
        let n = self.styles.len();
        if n == 0 {
            Style::plain()
        } else {
            self.styles[n - 1]
        }
    }

    fn push_style(&mut self, s: Style)
        ensures
            final(self)@ == old(self)@.push_style(s),
    {
        self.styles.push(s);
    }

    fn pop_style(&mut self)
        ensures
            final(self)@ == old(self)@.pop_style(),
    {
        if self.styles.len() > 1 {
            self.styles.pop();
        }
    }

    fn push_block(&mut self, block: Block)
        ensures
            final(self)@ == old(self)@.push_block(block@),
    {
        self.blocks.push(Placed { block, source: self.source });
    }

    fn push_linked(&mut self, t: String, style: Style)
        ensures
            final(self)@ == old(self)@.push_linked(t@, style),
    {
        self.runs.push(
            Run { text: t, style, link: self.open_link, checkbox: None, image: None },
        );
    }

    fn quote_prefix(&self) -> (r: Vec<Run>)
        ensures
            views::views(r@) == self@.quote_prefix(),
    {
        let mut out: Vec<Run> = Vec::new();
        if self.quote_depth > 0 {
            let bar = repeat_text("│ ", self.quote_depth);
            out.push(Run::plain(bar, Style::plain().fg(self.theme.quote)));
        }
        assert(views::views(out@) =~= self@.quote_prefix());
        out
    }

    fn finish_paragraph(&mut self)
        ensures
            final(self)@ == old(self)@.finish_paragraph(),
    {
        if self.runs.len() == 0 && self.prefix.len() == 0 {
            return ;
        }
        let mut prefix = self.quote_prefix();
        prefix.append(&mut self.prefix);
        let mut hanging = self.quote_prefix();
        hanging.append(&mut self.hanging);
        let mut runs: Vec<Run> = Vec::new();
        std::mem::swap(&mut runs, &mut self.runs);
        self.push_block(Block::Paragraph { runs, prefix, hanging });
        assert(self@ =~= old(self)@.finish_paragraph());
    }

    fn push_text(&mut self, t: &str)
        ensures
            final(self)@ == old(self)@.push_text(t@),
    {
        if self.in_code_block {
            self.code.push_str(t);
            return ;
        }
        if self.in_heading {
            self.heading_buf.push_str(t);
        }
        let style = self.cur_style();
        self.push_linked(t.to_string(), style);
    }

    fn start_item(&mut self)
        ensures
            final(self)@ == old(self)@.start_item(),
    {
        let depth = self.lists.len();
        let mut prefix: Vec<Run> = Vec::new();
        let mut hanging: Vec<Run> = Vec::new();
        if depth > 0 {
            let indent = repeat_text("  ", depth - 1);
            let marker = match self.lists[depth - 1] {
                Some(n) => {
                    self.lists.set(depth - 1, Some(n.saturating_add(1)));
                    let mut m = decimal_text(n);
                    m.push_str(". ");
                    m
                },
                None => "• ".to_string(),
            };
            let pad = repeat_char(' ', marker.as_str().unicode_len());
            let mut hang = indent.clone();
            hang.push_str(&pad);
            let style = Style::plain().fg(self.theme.list_marker);
            prefix.push(Run::plain(indent, Style::plain()));
            prefix.push(Run::plain(marker, style));
            hanging.push(Run::plain(hang, Style::plain()));
        }
        self.prefix = prefix;
        self.hanging = hanging;
        assert(self@ =~= old(self)@.start_item());
    }

    fn start_tag(&mut self, tag: MdTag)
        ensures
            final(self)@ == old(self)@.start_tag(tag@),
    {
        match tag {
            MdTag::Heading(level) => {
                self.in_heading = true;
                self.heading_buf.clear();
                let style = Style::plain().fg(
                    self.theme.heading[heading_idx(level)],
                ).add_modifier(self.theme.heading_modifier);
                self.push_style(style);
            },
            MdTag::BlockQuote => {
                self.quote_depth = self.quote_depth.saturating_add(1);
            },
            MdTag::CodeBlock(info) => {
                self.in_code_block = true;
                self.code.clear();
                self.code_lang = match info {
                    Some(s) => if s.as_str().is_empty() {
                        None
                    } else {
                        Some(s)
                    },
                    None => None,
                };
            },
            MdTag::List(start) => {
                self.lists.push(start);
            },
            MdTag::Item => {
                self.start_item();
            },
            MdTag::Emphasis => {
                let s = self.cur_style().add_modifier(self.theme.emphasis);
                self.push_style(s);
            },
            MdTag::Strong => {
                let s = self.cur_style().add_modifier(self.theme.strong);
                self.push_style(s);
            },
            MdTag::Strikethrough => {
                let s = self.cur_style().add_modifier(self.theme.strikethrough);
                self.push_style(s);
            },
            MdTag::Link(dest) => {
                let target = links::resolve(&dest, self.base_dir);
                let idx = self.targets.len();
                self.targets.push(target);
                self.open_link = Some(idx);
                let style = Style::plain().fg(self.theme.link).add_modifier(
                    self.theme.link_modifier,
                );
                self.push_style(style);
            },
            MdTag::Image(dest, title) => {
                let label = if title.as_str().is_empty() {
                    joined3("[image: ", &dest, "]")
                } else {
                    let head = joined3("[image: ", &title, " (");
                    joined3(&head, &dest, ")]")
                };
                let style = Style::plain().fg(self.theme.muted);
                let resolved = match self.base_dir {
                    Some(b) => paths::join(b, &dest),
                    None => dest,
                };
                let idx = self.images.len();
                self.images.push(resolved);
                self.runs.push(
                    Run { text: label, style, link: None, checkbox: None, image: Some(idx) },
                );
            },
            MdTag::Table(aligns) => {
                self.table = Some(
                    TableState {
                        aligns,
                        header: Row { cells: Vec::new() },
                        rows: Vec::new(),
                        current_row: Vec::new(),
                        cell_start: 0,
                    },
                );
                assert(self@ =~= old(self)@.start_tag(tag@));
            },
            MdTag::TableCell => {
                let at = self.runs.len();
                match &mut self.table {
                    Some(t) => {
                        t.cell_start = at;
                    },
                    None => {},
                }
            },
            MdTag::FootnoteDefinition(name) => {
                let label = joined3("[^", &name, "]: ");
                let style = Style::plain().fg(self.theme.muted).add_modifier(Modifier::bold());
                self.runs.push(Run::plain(label, style));
            },
            MdTag::Other => {},
        }
    }

    fn end_code_block(&mut self)
        ensures
            final(self)@ == old(self)@.end_tag(MdTagEnd::CodeBlock),
    {
        self.in_code_block = false;
        let lines = match &self.code_lang {
            Some(l) => self.hl.highlight(&self.code, Some(l.as_str()), &self.theme.syntect_theme),
            None => self.hl.highlight(&self.code, None, &self.theme.syntect_theme),
        };
        self.code_lang = None;
        let prefix = self.quote_prefix();
        self.code.clear();
        self.push_block(Block::Pre { lines, prefix });
        self.push_block(Block::Blank);
        assert(self@ =~= old(self)@.end_tag(MdTagEnd::CodeBlock));
    }

    fn end_table_tag(&mut self, tag: MdTagEnd)
        requires
            tag is Table || tag is TableHead || tag is TableRow || tag is TableCell,
        ensures
            final(self)@ == old(self)@.end_tag(tag),
    {
        match self.table.take() {
            None => {},
            Some(t) => {
                let mut t = t;
                match tag {
                    MdTagEnd::Table => {
                        self.push_block(Block::Table { aligns: t.aligns, header: t.header, rows: t.rows });
                        self.push_block(Block::Blank);
                    },
                    MdTagEnd::TableHead => {
                        t.header = Row { cells: t.current_row };
                        t.current_row = Vec::new();
                        self.table = Some(t);
                    },
                    MdTagEnd::TableRow => {
                        t.rows.push(Row { cells: t.current_row });
                        t.current_row = Vec::new();
                        self.table = Some(t);
                    },
                    _ => {
                        let at: usize = if t.cell_start <= self.runs.len() {
                            t.cell_start
                        } else {
                            self.runs.len()
                        };
                        let runs = self.runs.split_off(at);
                        t.current_row.push(Cell { runs });
                        self.table = Some(t);
                    },
                }
            },
        }
        assert(self@ =~= old(self)@.end_tag(tag));
    }

    fn end_tag(&mut self, tag: MdTagEnd)
        ensures
            final(self)@ == old(self)@.end_tag(tag),
    {
        match tag {
            MdTagEnd::Paragraph => {
                self.finish_paragraph();
                self.push_block(Block::Blank);
            },
            MdTagEnd::Heading => {
                self.in_heading = false;
                let anchor = links::slugify(&self.heading_buf);
                self.pop_style();
                let mut runs: Vec<Run> = Vec::new();
                std::mem::swap(&mut runs, &mut self.runs);
                self.push_block(Block::Blank);
                self.push_block(Block::Heading { runs, anchor });
                self.push_block(Block::Blank);
                self.prefix.clear();
                self.hanging.clear();
                assert(self@ =~= old(self)@.end_tag(tag));
            },
            MdTagEnd::BlockQuote => {
                if self.quote_depth > 0 {
                    self.quote_depth = self.quote_depth - 1;
                }
                if self.quote_depth == 0 {
                    self.push_block(Block::Blank);
                }
            },
            MdTagEnd::CodeBlock => {
                self.end_code_block();
            },
            MdTagEnd::List => {
                if self.lists.len() > 0 {
                    self.lists.pop();
                }
                if self.lists.len() == 0 {
                    self.push_block(Block::Blank);
                }
            },
            MdTagEnd::Item => {
                self.finish_paragraph();
            },
            MdTagEnd::Emphasis | MdTagEnd::Strong | MdTagEnd::Strikethrough => {
                self.pop_style();
            },
            MdTagEnd::Link => {
                self.pop_style();
                self.open_link = None;
            },
            MdTagEnd::Table | MdTagEnd::TableHead | MdTagEnd::TableRow | MdTagEnd::TableCell => {
                self.end_table_tag(tag);
            },
            MdTagEnd::Other => {},
        }
    }

    fn event(&mut self, ev: MdEvent, offset: usize)
        ensures
            final(self)@ == old(self)@.event(ev@, offset),
    {
        let starts = matches!(ev, MdEvent::Start(_));
        let begins = starts || matches!(ev, MdEvent::Rule) || matches!(ev, MdEvent::Source(_));
        if self.depth == 0 && begins {
            self.source = offset;
        }
        if starts {
            self.depth = self.depth.saturating_add(1);
        } else if matches!(ev, MdEvent::End(_)) && self.depth > 0 {
            self.depth = self.depth - 1;
        }
        assert(self@ =~= old(self)@.located(ev@, offset));
        match ev {
            MdEvent::Source(t) => {
                self.push_block(Block::Raw { text: t, offset });
            },
            MdEvent::Start(tag) => {
                self.start_tag(tag);
            },
            MdEvent::End(tag) => {
                self.end_tag(tag);
            },
            MdEvent::Text(s) => {
                self.push_text(&s);
            },
            MdEvent::Code(s) => {
                let style = self.cur_style().fg(self.theme.code_fg).bg_opt(self.theme.code_bg);
                self.push_linked(joined3(" ", &s, " "), style);
                if self.in_heading {
                    self.heading_buf.push_str(&s);
                }
            },
            MdEvent::FootnoteReference(name) => {
                let style = self.cur_style().fg(self.theme.muted);
                self.push_linked(joined3("[^", &name, "]"), style);
            },
            MdEvent::SoftBreak => {
                let style = self.cur_style();
                self.push_linked(" ".to_string(), style);
            },
            MdEvent::HardBreak => {
                let style = self.cur_style();
                self.push_linked("\n".to_string(), style);
            },
            MdEvent::Rule => {
                self.push_block(Block::Rule);
            },
            MdEvent::TaskListMarker(checked) => {
                let glyph = if checked {
                    "[x]"
                } else {
                    "[ ]"
                };
                let style = Style::plain().fg(self.theme.list_marker).add_modifier(
                    Modifier::bold(),
                );
                let idx = self.boxes.len();
                self.boxes.push(PendingCheckbox { source_offset: offset, checked });
                self.runs.push(
                    Run {
                        text: glyph.to_string(),
                        style,
                        link: None,
                        checkbox: Some(idx),
                        image: None,
                    },
                );
                self.runs.push(Run::plain(" ".to_string(), Style::plain()));
            },
            MdEvent::Hidden => {},
        }
    }
}

/// Whether each task marker of a rendered document stands in a source.
pub open spec fn boxes_stand(boxes: Seq<links::CheckboxSpan>, source: Seq<char>) -> bool {
    forall|i: int|
        0 <= i < boxes.len() ==> parse::marker_at(
            encode_utf8(source),
            (#[trigger] boxes[i]).source_offset as int,
            boxes[i].checked,
        )
}

/// Whether each task marker of a rendered document stands where a source has one, be it
/// checked or not.
pub open spec fn boxes_marked(boxes: Seq<links::CheckboxSpan>, source: Seq<char>) -> bool {
    forall|i: int|
        0 <= i < boxes.len() ==> parse::marked_at(
            encode_utf8(source),
            (#[trigger] boxes[i]).source_offset as int,
        )
}

pub proof fn lemma_boxes_marked(boxes: Seq<links::CheckboxSpan>, source: Seq<char>)
    requires
        boxes_stand(boxes, source),
    ensures
        boxes_marked(boxes, source),
{
    reveal(parse::marked_at);
    assert forall|i: int| 0 <= i < boxes.len() implies parse::marked_at(
        encode_utf8(source),
        (#[trigger] boxes[i]).source_offset as int,
    ) by {
        assert(parse::marker_at(
            encode_utf8(source),
            boxes[i].source_offset as int,
            boxes[i].checked,
        ));
    }
}

/// Whether each row of source text that a rendered document shows is a stretch of a
/// source.
pub open spec fn rows_stand(rows: Seq<Option<(usize, usize)>>, source: Seq<char>) -> bool {
    forall|i: int|
        0 <= i < rows.len() ==> ((#[trigger] rows[i]) matches Some((from, to))
            ==> editor::is_stretch(source, from, to))
}

/// Lays out the document that a list of events stands for. A width of zero
/// stands for 80 columns. `cursor` is the edit cursor's byte offset.
pub fn render_events(
    events: Vec<EventAt>,
    base_dir: Option<&str>,
    width: u16,
    theme: &Theme,
    hl: &Highlighter,
    cursor: Option<usize>,
) -> (r: Rendered)
    ensures
        r@ == rendered(
            views::views(events@),
            palette::opt_text(base_dir),
            width,
            *theme,
            *hl,
            cursor,
        ),
{
    let ghost ev = views::views(events@);
    let mut b = Builder::new(theme, hl, base_dir);
    let ghost start = b@;
    let ghost all = events@;
    for at in it: events
        invariant
            ev == views::views(all),
            it.seq() == all,
            b@ == start.events(ev, it.index() as int),
    {
        b.event(at.event, at.offset);
    }
    b.finish_paragraph();
    let w: usize = if width == 0 {
        80
    } else {
        width as usize
    };
    layout(theme, w, &b.blocks, &b.targets, &b.boxes, &b.images, cursor)
}

/// Renders markdown `source` at `width` columns. Local links and images are
/// taken relative to `base_dir`.
pub fn render(
    source: &str,
    base_dir: Option<&str>,
    width: u16,
    theme: &Theme,
    hl: &Highlighter,
) -> (r: Rendered)
    ensures
        r@ == rendered(
            parse::document_events(source@),
            palette::opt_text(base_dir),
            width,
            *theme,
            *hl,
            None,
        ),
        boxes_stand(r@.boxes, source@),
        rows_stand(r@.row_source, source@),
{
    let events = read_events(source);
    let bytes = text::byte_len(source);
    proof {
        let evs = views::views(events@);
        let base = palette::opt_text(base_dir);
        laws_source::law_marks_come_from_events(evs, base, width, *theme, *hl, None);
        laws_source::law_rows_show_the_source(evs, base, width, *theme, *hl, None, source@);
    }
    render_events(events, base_dir, width, theme, hl, None)
}

// ---------------------------------------------------------------------------
// Rendering for editing
// ---------------------------------------------------------------------------

/// What a walk over the events has found out about the top-level constructs: how
/// many are open, the first, the one that holds the cursor, and the one after
/// it.
#[derive(Clone, Copy, Debug, PartialEq, Eq, Structural)]
pub struct Scan {
    pub depth: usize,
    pub first: Option<usize>,
    pub at: Option<usize>,
    pub next: Option<usize>,
}

impl Scan {
    /// Takes in event `n`.
    pub open spec fn step(self, ev: parse::EventView, offset: usize, cursor: usize, n: usize) -> Scan {
        let top = self.depth == 0 && (ev is Start || ev is Rule);
        let holds = top && (self.first is None || offset <= cursor);
        Scan {
            depth: if ev is Start {
                text::sat(self.depth + 1)
            } else if ev is End && self.depth > 0 {
                (self.depth - 1) as usize
            } else {
                self.depth
            },
            first: if top && self.first is None {
                Some(n)
            } else {
                self.first
            },
            at: if holds {
                Some(n)
            } else {
                self.at
            },
            next: if holds {
                None
            } else if top && self.next is None {
                Some(n)
            } else {
                self.next
            },
        }
    }

    /// Takes in the first `n` events.
    pub open spec fn steps(self, evs: Seq<(parse::EventView, usize)>, cursor: usize, n: int) -> Scan
        decreases n,
    {
        if n <= 0 {
            self
        } else {
            self.steps(evs, cursor, n - 1).step(
                evs[n - 1].0,
                evs[n - 1].1,
                cursor,
                (n - 1) as usize,
            )
        }
    }
}

/// The text between two byte offsets.
pub open spec fn text_between(t: Seq<char>, from: int, to: int) -> Seq<char> {
    let a = bytes::floor_index(t, from);
    let b = bytes::floor_index(t, to);
    if a <= b {
        t.subrange(a, b)
    } else {
        Seq::empty()
    }
}

/// The events with those of the top-level construct that holds the cursor
/// replaced by its source text, from where it begins up to the next one. The
/// first construct's text begins at the start of the source; a source without
/// constructs is replaced whole.
pub open spec fn with_source(
    evs: Seq<(parse::EventView, usize)>,
    src: Seq<char>,
    cursor: usize,
) -> Seq<(parse::EventView, usize)> {
    let scan = Scan { depth: 0, first: None, at: None, next: None }.steps(
        evs,
        cursor,
        evs.len() as int,
    );
    let whole = bytes::byte_count(src);
    match scan.at {
        Some(a) if a < evs.len() => {
            let from = bytes::byte_pos(
                src,
                bytes::floor_index(
                    src,
                    if scan.first == Some(a) {
                        0
                    } else {
                        evs[a as int].1 as int
                    },
                ),
            );
            let (to, rest) = match scan.next {
                Some(b) if b < evs.len() => (evs[b as int].1 as int, evs.skip(b as int)),
                _ => (whole, Seq::empty()),
            };
            evs.take(
                if scan.first == Some(a) {
                    0
                } else {
                    a as int
                },
            ).push((parse::EventView::Source(text_between(src, from, to)), from as usize)) + rest
        },
        _ => seq![(parse::EventView::Source(src), 0usize)],
    }
}

/// Replaces the construct that holds the cursor by its source text.
pub fn substitute_source(events: Vec<EventAt>, source: &str, cursor: usize) -> (r: Vec<EventAt>)
    ensures
        views::views(r@) == with_source(views::views(events@), source@, cursor),
{
    let ghost ev = views::views(events@);
    let mut events = events;
    let n = events.len();
    let mut scan = Scan { depth: 0, first: None, at: None, next: None };
    let ghost start = scan;
    let mut i: usize = 0;
    while i < n
        invariant
            n == events@.len(),
            ev == views::views(events@),
            i <= n,
            scan == start.steps(ev, cursor, i as int),
            scan.at matches Some(a) ==> a < i,
            scan.next matches Some(b) ==> b < i && (scan.at matches Some(a) && a < b),
            scan.first is None ==> scan.at is None && scan.next is None,
            scan.first is Some ==> scan.at is Some,
        decreases n - i,
    {
        let e = &events[i];
        let starts = matches!(e.event, MdEvent::Start(_));
        let top = scan.depth == 0 && (starts || matches!(e.event, MdEvent::Rule));
        if top {
            if scan.first.is_none() || e.offset <= cursor {
                scan.at = Some(i);
                scan.next = None;
            } else if scan.next.is_none() {
                scan.next = Some(i);
            }
            if scan.first.is_none() {
                scan.first = Some(i);
            }
        }
        if starts {
            scan.depth = scan.depth.saturating_add(1);
        } else if matches!(e.event, MdEvent::End(_)) && scan.depth > 0 {
            scan.depth = scan.depth - 1;
        }
        i = i + 1;
    }
    let cs = chars_of(source);
    let whole = text::byte_len(source);
    match scan.at {
        Some(a) => {
            if a < n {
                let first = match scan.first {
                    Some(f) => f == a,
                    None => false,
                };
                let begins: usize = if first {
                    0
                } else {
                    events[a].offset
                };
                let to: usize = match scan.next {
                    Some(b) => if b < n {
                        events[b].offset
                    } else {
                        whole
                    },
                    None => whole,
                };
                let (x, from) = locate(&cs, begins);
                let (y, _) = locate(&cs, to);
                proof {
                    bytes::lemma_floor_of_pos(source@, x as int);
                }
                let t = if x <= y {
                    from_chars(&cs, x, y)
                } else {
                    String::new()
                };
                assert(t@ =~= text_between(source@, from as int, to as int));
                let mut rest: Vec<EventAt> = match scan.next {
                    Some(b) => if b < n {
                        events.split_off(b)
                    } else {
                        Vec::new()
                    },
                    None => Vec::new(),
                };
                let keep: usize = if first {
                    0
                } else {
                    a
                };
                let m = events.len();
                if keep < m {
                    events.truncate(keep);
                }
                assert(views::views(events@) =~= ev.take(
                    if keep < m {
                        keep as int
                    } else {
                        m as int
                    },
                ));
                events.push(EventAt { event: MdEvent::Source(t), offset: from });
                events.append(&mut rest);
                return events;
            }
        },
        None => {},
    }
    let mut out: Vec<EventAt> = Vec::new();
    out.push(EventAt { event: MdEvent::Source(source.to_string()), offset: 0 });
    assert(views::views(out@) =~= seq![(parse::EventView::Source(source@), 0usize)]);
    out
}

/// The state of an edit that its rendering depends on.
#[derive(Clone, Copy, Debug, PartialEq, Eq, Structural)]
pub struct EditCtx {
    /// Byte offset of the cursor.
    pub cursor: usize,
}

/// Renders markdown as [`render`] does. While editing, the construct that holds
/// the cursor is shown as source text, and the cursor gets its place.
pub fn render_with_edit(
    source: &str,
    base_dir: Option<&str>,
    width: u16,
    theme: &Theme,
    hl: &Highlighter,
    edit: Option<EditCtx>,
) -> (r: Rendered)
    ensures
        r@ == match edit {
            None => rendered(
                parse::document_events(source@),
                palette::opt_text(base_dir),
                width,
                *theme,
                *hl,
                None,
            ),
            Some(e) => rendered(
                with_source(parse::document_events(source@), source@, e.cursor),
                palette::opt_text(base_dir),
                width,
                *theme,
                *hl,
                Some(e.cursor),
            ),
        },
        boxes_stand(r@.boxes, source@),
        rows_stand(r@.row_source, source@),
{
    match edit {
        None => render(source, base_dir, width, theme, hl),
        Some(e) => {
            let read = read_events(source);
            let bytes = text::byte_len(source);
            let ghost all = views::views(read@);
            let events = substitute_source(read, source, e.cursor);
            proof {
                let evs = views::views(events@);
                let base = palette::opt_text(base_dir);
                let at = Some(e.cursor);
                laws_source::lemma_with_source(all, source@, e.cursor);
                laws_source::law_marks_come_from_events(evs, base, width, *theme, *hl, at);
                laws_source::law_rows_show_the_source(evs, base, width, *theme, *hl, at, source@);
            }
            render_events(events, base_dir, width, theme, hl, Some(e.cursor))
        },
    }
}

} // verus!
