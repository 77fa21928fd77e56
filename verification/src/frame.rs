//! The areas of a document on screen and what is drawn into them.

use vstd::prelude::*;
use crate::app;
use crate::app::{App, Rect};
use crate::markdown;
use crate::paint;
use crate::paint::{scrollbar, show_line};
use crate::reader;
use crate::style;
use crate::style::{Line, Span, Style};
use crate::text;
use crate::text::{decimal_text, digit_count, repeat_char};
use crate::theme::Theme;
use crate::views;

verus! {

broadcast use crate::views::group_views;

/// `x` as a screen coordinate, at most the largest one.
pub open spec fn coord(x: int) -> u16 {
    if x > u16::MAX {
        u16::MAX
    } else if x < 0 {
        0
    } else {
        x as u16
    }
}

/// What is drawn of a document.
#[derive(Debug)]
pub struct ReaderFrame {
    pub number_area: Rect,
    pub body_area: Rect,
    pub bar_area: Rect,
    /// Line numbers, one for each line of the body, if they are on.
    pub numbers: Vec<Line>,
    pub lines: Vec<Line>,
    pub bar: Vec<Line>,
    /// The cell of the edit cursor, where that is on screen.
    pub cursor: Option<(u16, u16)>,
}

/// What a [`ReaderFrame`] holds.
#[verifier::ext_equal]
pub struct FrameModel {
    pub number_area: Rect,
    pub body_area: Rect,
    pub bar_area: Rect,
    pub numbers: Seq<Seq<style::SpanView>>,
    pub lines: Seq<Seq<style::SpanView>>,
    pub bar: Seq<Seq<style::SpanView>>,
    pub cursor: Option<(u16, u16)>,
}

impl View for ReaderFrame {
    type V = FrameModel;

    open spec fn view(&self) -> FrameModel {
        FrameModel {
            number_area: self.number_area,
            body_area: self.body_area,
            bar_area: self.bar_area,
            numbers: views::views(self.numbers@),
            lines: views::views(self.lines@),
            bar: views::views(self.bar@),
            cursor: self.cursor,
        }
    }
}

/// The number of a line, right-aligned in a gutter of `w` columns.
pub open spec fn number_text(n: nat, w: int) -> Seq<char> {
    let digits = text::decimal(n);
    text::repeated(
        ' ',
        if w - 1 > digits.len() {
            (w - 1 - digits.len()) as nat
        } else {
            0
        },
    ) + digits + seq![' ']
}

/// The cell of an edit cursor at `(col, row)` of a document, where that is on
/// screen.
pub open spec fn cursor_cell(at: Option<(u16, u16)>, scroll: u16, body: Rect) -> Option<(u16, u16)> {
    match at {
        Some((col, row)) => if row >= scroll && row - scroll < body.height && col < body.width {
            Some((coord(body.x + col), coord(body.y + (row - scroll))))
        } else {
            None
        },
        None => None,
    }
}

/// First and last line, half-open, of a document of `total` lines on a screen of
/// height `h`.
pub open spec fn shown_range(scroll: u16, total: int, h: int) -> (int, int) {
    let first = app::clamped(scroll as int, app::max_scroll(total, 1));
    (first, app::clamped(first + h, total))
}

impl app::Model {
    /// What is drawn of the document in `area`.
    pub open spec fn frame(
        self,
        r: reader::ReaderModel,
        rd: markdown::RenderedView,
        area: Rect,
    ) -> FrameModel {
        let theme = self.opts.theme;
        let total = rd.lines.len() as int;
        let w = if self.opts.line_numbers {
            text::decimal(total as nat).len() + 1
        } else {
            0
        };
        let (first, end) = shown_range(r.scroll, total, area.height as int);
        let body = Rect {
            x: coord(area.x + w),
            y: area.y,
            width: coord(area.width - w - 1),
            height: area.height,
        };
        FrameModel {
            number_area: Rect { x: area.x, y: area.y, width: w as u16, height: area.height },
            body_area: body,
            bar_area: Rect {
                x: coord(area.x + app::max_scroll(area.width as int, 1)),
                y: area.y,
                width: 1,
                height: area.height,
            },
            numbers: if self.opts.line_numbers {
                Seq::new(
                    (end - first) as nat,
                    |i: int|
                        seq![
                            style::span(
                                number_text((first + i + 1) as nat, w as int),
                                Style::plain().fg(theme.muted),
                            ),
                        ],
                )
            } else {
                Seq::empty()
            },
            lines: Seq::new(
                (end - first) as nat,
                |i: int| r.shown_line(rd, (first + i) as usize, !self.mouse_recent, theme),
            ),
            bar: paint::bar_rows(
                first,
                total,
                area.height as int,
                area.height as int,
                theme,
            ),
            cursor: cursor_cell(rd.cursor_xy, r.scroll, body),
        }
    }
}

fn to_coord(x: u32) -> (r: u16)
    ensures
        r == coord(x as int),
{
    if x > 65535 {
        65535
    } else {
        x as u16
    }
}

/// Writes the number of a line into a gutter of `w` columns.
fn number_line(n: usize, w: usize, theme: &Theme) -> (r: Line)
    requires
        w > 0,
    ensures
        r@ == seq![style::span(number_text(n as nat, w as int), Style::plain().fg(theme.muted))],
{
    let digits = digit_count(n);
    let mut t = repeat_char(' ', (w - 1).saturating_sub(digits));
    t.push_str(&decimal_text(n as u64));
    t.push(' ');
    assert(t@ =~= number_text(n as nat, w as int));
    let mut spans: Vec<Span> = Vec::new();
    spans.push(Span::styled(t, Style::plain().fg(theme.muted)));
    let line = Line { spans };
    assert(line@ =~= seq![
        style::span(number_text(n as nat, w as int), Style::plain().fg(theme.muted)),
    ]);
    line
}

/// What is drawn of a document in `area`; nothing before it is rendered.
pub fn reader_frame(a: &App, area: Rect) -> (out: Option<ReaderFrame>)
    ensures
        views::opt_view(out) == (match a@.doc() {
            Some(r) => match r.rendered {
                Some(rd) => Some(a@.frame(r, rd, area)),
                None => None,
            },
            None => None,
        }),
{
    let r = match &a.view {
        app::View::Reader(r) => r,
        app::View::Browser(_) => {
            return None;
        },
    };
    let rd = match &r.rendered {
        Some(rd) => rd,
        None => {
            return None;
        },
    };
    let theme = &a.opts.theme;
    let ghost want = a@.frame(r@, rd@, area);
    let total = rd.lines.len();
    let h = area.height as usize;
    let w: usize = if a.opts.line_numbers {
        digit_count(total) + 1
    } else {
        0
    };
    let last = total.saturating_sub(1);
    let first: usize = if r.scroll as usize > last {
        last
    } else {
        r.scroll as usize
    };
    let end: usize = if h > total - first {
        total
    } else {
        first + h
    };
    let body = Rect {
        x: to_coord(area.x as u32 + w as u32),
        y: area.y,
        width: to_coord((area.width as u32).saturating_sub(w as u32).saturating_sub(1)),
        height: area.height,
    };
    let mut numbers: Vec<Line> = Vec::new();
    let mut lines: Vec<Line> = Vec::new();
    let mut i: usize = first;
    assert(views::views(lines@) =~= want.lines.take(0));
    assert(views::views(numbers@) =~= want.numbers.take(0));
    while i < end
        invariant
            first <= i <= end <= total,
            total == rd.lines@.len(),
            a.view == app::View::Reader(*r),
            r.rendered == Some(*rd),
            *theme == a.opts.theme,
            want == a@.frame(r@, rd@, area),
            (first as int, end as int) == shown_range(r.scroll, total as int, area.height as int),
            w == (if a.opts.line_numbers {
                text::decimal(total as nat).len() + 1
            } else {
                0
            }),
            views::views(lines@) == want.lines.take(i - first),
            a.opts.line_numbers ==> views::views(numbers@) == want.numbers.take(i - first),
            !a.opts.line_numbers ==> numbers@.len() == 0,
        decreases end - i,
    {
        lines.push(show_line(r, rd, i, !a.mouse_recent, theme));
        if a.opts.line_numbers {
            numbers.push(number_line(i + 1, w, theme));
        }
        i = i + 1;
        assert(views::views(lines@) =~= want.lines.take(i - first));
        if a.opts.line_numbers {
            assert(views::views(numbers@) =~= want.numbers.take(i - first));
        }
    }
    assert(want.lines.take(end - first) =~= want.lines);
    assert(views::views(numbers@) =~= want.numbers);
    let cursor = match rd.cursor_xy {
        Some((col, row)) => if row >= r.scroll && row - r.scroll < body.height && col
            < body.width {
            Some(
                (
                    to_coord(body.x as u32 + col as u32),
                    to_coord(body.y as u32 + (row - r.scroll) as u32),
                ),
            )
        } else {
            None
        },
        None => None,
    };
    let frame = ReaderFrame {
        number_area: Rect { x: area.x, y: area.y, width: w as u16, height: area.height },
        body_area: body,
        bar_area: Rect {
            x: to_coord(area.x as u32 + (area.width as u32).saturating_sub(1)),
            y: area.y,
            width: 1,
            height: area.height,
        },
        numbers,
        lines,
        bar: scrollbar(first, total, h, h, theme),
        cursor,
    };
    assert(frame@ =~= want);
    Some(frame)
}

/// The line numbers and the lines of a document come in pairs, and no more of them
/// than the screen has rows.
pub proof fn law_frame_fits(
    m: app::Model,
    r: reader::ReaderModel,
    rd: markdown::RenderedView,
    area: Rect,
)
    ensures
        m.frame(r, rd, area).lines.len() <= area.height,
        m.opts.line_numbers ==> m.frame(r, rd, area).numbers.len() == m.frame(
            r,
            rd,
            area,
        ).lines.len(),
        m.frame(r, rd, area).bar.len() == area.height,
{
}

// ---------------------------------------------------------------------------
// Images
// ---------------------------------------------------------------------------

/// Rows that an image takes at most.
pub const IMAGE_ROWS: u16 = 12;

/// Where an image that begins at `line` is drawn, if its first row is on screen.
pub open spec fn image_area(line: usize, scroll: u16, body: Rect) -> Option<Rect> {
    let row = line - scroll;
    if 0 <= row < body.height {
        Some(
            Rect {
                x: body.x,
                y: coord(body.y + row),
                width: coord(body.width - 1),
                height: coord(app::clamped(body.height - row, IMAGE_ROWS as int)),
            },
        )
    } else {
        None
    }
}

/// Where an image that begins at `line` is drawn.
pub fn place_image(line: usize, scroll: u16, body: Rect) -> (r: Option<Rect>)
    ensures
        r == image_area(line, scroll, body),
{
    if line < scroll as usize || line - scroll as usize >= body.height as usize {
        return None;
    }
    let row = (line - scroll as usize) as u16;
    let left = body.height - row;
    Some(
        Rect {
            x: body.x,
            y: to_coord(body.y as u32 + row as u32),
            width: body.width.saturating_sub(1),
            height: if left > IMAGE_ROWS {
                IMAGE_ROWS
            } else {
                left
            },
        },
    )
}

} // verus!
