//! What the body of the screen shows of a document: its lines with everything
//! that is marked in them, the line numbers and the scrollbar.

use vstd::prelude::*;
use crate::links;
use crate::links::LinkSpan;
use crate::markdown;
use crate::markdown::Rendered;
use crate::reader;
use crate::reader::{DocSearch, Focus, Reader};
use crate::search;
use crate::style;
use crate::style::{Line, Modifier, Span, Style};
use crate::text;
use crate::text::str_width;
use crate::theme::Theme;
use crate::views;

verus! {

broadcast use crate::views::group_views;

// ---------------------------------------------------------------------------
// Marked spans
// ---------------------------------------------------------------------------

/// What a span is marked for.
#[derive(Clone, Copy, Debug, PartialEq, Eq, Structural)]
pub enum Mark {
    /// A link that is focused or under the mouse.
    Link,
    /// A task marker that is focused or under the mouse.
    Checkbox,
    /// A match of the document search.
    Match,
    /// The match that the document search is at.
    CurrentMatch,
}

/// The style of a marked span: reversed, but for the matches that the search is not at,
/// which have the background of code.
pub open spec fn marked(s: Style, mark: Mark, theme: Theme) -> Style {
    match mark {
        Mark::Link => s.fg(theme.link_focused).add_modifier(Modifier::reversed()),
        Mark::Checkbox => s.add_modifier(Modifier::reversed()),
        Mark::Match => s.bg_opt(theme.code_bg),
        Mark::CurrentMatch => s.fg(theme.link_focused).add_modifier(
            Modifier::reversed(),
        ).add_modifier(Modifier::bold()),
    }
}

/// Columns of the first `n` spans.
pub open spec fn span_cols(spans: Seq<style::SpanView>, n: int) -> usize
    decreases n,
{
    if n <= 0 {
        0
    } else {
        text::sat(span_cols(spans, n - 1) + text::display_width(spans[n - 1].content))
    }
}

/// A line with the spans that lie within the columns `from..to` marked.
pub open spec fn painted(
    spans: Seq<style::SpanView>,
    from: usize,
    to: usize,
    mark: Mark,
    theme: Theme,
) -> Seq<style::SpanView> {
    Seq::new(
        spans.len(),
        |i: int|
            if span_cols(spans, i) >= from && span_cols(spans, i + 1) <= to {
                style::span(spans[i].content, marked(spans[i].style, mark, theme))
            } else {
                spans[i]
            },
    )
}

fn mark_style(s: Style, mark: Mark, theme: &Theme) -> (r: Style)
    ensures
        r == marked(s, mark, *theme),
{
    match mark {
        Mark::Link => s.fg(theme.link_focused).add_modifier(Modifier::reversed()),
        Mark::Checkbox => s.add_modifier(Modifier::reversed()),
        Mark::Match => s.bg_opt(theme.code_bg),
        Mark::CurrentMatch => s.fg(theme.link_focused).add_modifier(
            Modifier::reversed(),
        ).add_modifier(Modifier::bold()),
    }
}

/// Marks the spans of a line that lie within the columns `from..to`.
pub fn paint(line: &mut Line, from: usize, to: usize, mark: Mark, theme: &Theme)
    ensures
        final(line)@ == painted(old(line)@, from, to, mark, *theme),
{
    let ghost before = line@;
    let n = line.spans.len();
    let mut col: usize = 0;
    let mut i: usize = 0;
    while i < n
        invariant
            n == line.spans@.len(),
            n == before.len(),
            i <= n,
            before == old(line)@,
            col == span_cols(before, i as int),
            forall|j: int| 0 <= j < i ==> line@[j] == #[trigger] painted(
                before,
                from,
                to,
                mark,
                *theme,
            )[j],
            forall|j: int| i <= j < n ==> line@[j] == #[trigger] before[j],
        decreases n - i,
    {
        assert(line@[i as int] == before[i as int]);
        let end = col.saturating_add(str_width(&line.spans[i].content));
        if col >= from && end <= to {
            let s = Span {
                content: line.spans[i].content.clone(),
                style: mark_style(line.spans[i].style, mark, theme),
            };
            line.spans.set(i, s);
        }
        col = end;
        i = i + 1;
    }
    assert(line@ =~= painted(before, from, to, mark, *theme));
}

/// Marking changes no character of a line.
pub proof fn law_paint_keeps_text(
    spans: Seq<style::SpanView>,
    from: usize,
    to: usize,
    mark: Mark,
    theme: Theme,
)
    ensures
        search::line_text(painted(spans, from, to, mark, theme)) == search::line_text(spans),
{
    lemma_painted_text(spans, from, to, mark, theme, spans.len() as int);
}

proof fn lemma_painted_text(
    spans: Seq<style::SpanView>,
    from: usize,
    to: usize,
    mark: Mark,
    theme: Theme,
    n: int,
)
    requires
        0 <= n <= spans.len(),
    ensures
        search::spans_text(painted(spans, from, to, mark, theme), n) == search::spans_text(
            spans,
            n,
        ),
    decreases n,
{
    if n > 0 {
        lemma_painted_text(spans, from, to, mark, theme, n - 1);
    }
}

// ---------------------------------------------------------------------------
// Marked lines
// ---------------------------------------------------------------------------

/// Line `idx` with a link marked, where that is on it.
pub open spec fn link_marked(
    spans: Seq<style::SpanView>,
    all: Seq<links::LinkSpanView>,
    which: Option<usize>,
    idx: usize,
    theme: Theme,
) -> Seq<style::SpanView> {
    match which {
        Some(i) => if i < all.len() && all[i as int].line == idx {
            painted(spans, all[i as int].col_start, all[i as int].col_end, Mark::Link, theme)
        } else {
            spans
        },
        None => spans,
    }
}

/// Line `idx` with a task marker marked, where that is on it.
pub open spec fn box_marked(
    spans: Seq<style::SpanView>,
    all: Seq<links::CheckboxSpan>,
    which: Option<usize>,
    idx: usize,
    theme: Theme,
) -> Seq<style::SpanView> {
    match which {
        Some(i) => if i < all.len() && all[i as int].line == idx {
            painted(spans, all[i as int].col_start, all[i as int].col_end, Mark::Checkbox, theme)
        } else {
            spans
        },
        None => spans,
    }
}

/// Line `idx` with those of the first `n` matches marked that are on it. The
/// current match stands out once the query is typed.
pub open spec fn matches_marked(
    spans: Seq<style::SpanView>,
    s: reader::DocSearchModel,
    idx: usize,
    theme: Theme,
    n: int,
) -> Seq<style::SpanView>
    decreases n,
{
    if n <= 0 {
        spans
    } else {
        let before = matches_marked(spans, s, idx, theme, n - 1);
        let m = s.matches[n - 1];
        if m.line == idx {
            painted(
                before,
                m.col_start,
                m.col_end,
                if !s.editing && n - 1 == s.current {
                    Mark::CurrentMatch
                } else {
                    Mark::Match
                },
                theme,
            )
        } else {
            before
        }
    }
}

impl reader::ReaderModel {
    pub open spec fn focused_link(self) -> Option<usize> {
        match self.focus {
            Some(Focus::Link(i)) => Some(i),
            _ => None,
        }
    }

    pub open spec fn focused_box(self) -> Option<usize> {
        match self.focus {
            Some(Focus::Checkbox(i)) => Some(i),
            _ => None,
        }
    }

    /// Line `idx` of the document with everything that is marked in it.
    pub open spec fn shown_line(
        self,
        rd: markdown::RenderedView,
        idx: usize,
        show_focus: bool,
        theme: Theme,
    ) -> Seq<style::SpanView> {
        let plain = rd.lines[idx as int];
        let focused = if show_focus {
            box_marked(
                link_marked(plain, rd.links, self.focused_link(), idx, theme),
                rd.boxes,
                self.focused_box(),
                idx,
                theme,
            )
        } else {
            plain
        };
        let hovered = box_marked(
            link_marked(focused, rd.links, self.hover_link, idx, theme),
            rd.boxes,
            self.hover_checkbox,
            idx,
            theme,
        );
        match self.doc_search {
            Some(s) => matches_marked(hovered, s, idx, theme, s.matches.len() as int),
            None => hovered,
        }
    }
}

fn mark_link(line: &mut Line, all: &[LinkSpan], which: Option<usize>, idx: usize, theme: &Theme)
    ensures
        final(line)@ == link_marked(old(line)@, views::views(all@), which, idx, *theme),
{
    match which {
        Some(i) => {
            if i < all.len() && all[i].line == idx {
                paint(line, all[i].col_start, all[i].col_end, Mark::Link, theme);
            }
        },
        None => {},
    }
}

fn mark_box(
    line: &mut Line,
    all: &[links::CheckboxSpan],
    which: Option<usize>,
    idx: usize,
    theme: &Theme,
)
    ensures
        final(line)@ == box_marked(old(line)@, all@, which, idx, *theme),
{
    match which {
        Some(i) => {
            if i < all.len() && all[i].line == idx {
                paint(line, all[i].col_start, all[i].col_end, Mark::Checkbox, theme);
            }
        },
        None => {},
    }
}

fn mark_matches(line: &mut Line, s: &DocSearch, idx: usize, theme: &Theme)
    ensures
        final(line)@ == matches_marked(old(line)@, s@, idx, *theme, s@.matches.len() as int),
{
    let ghost before = line@;
    let mut i: usize = 0;
    while i < s.matches.len()
        invariant
            i <= s.matches@.len(),
            before == old(line)@,
            line@ == matches_marked(before, s@, idx, *theme, i as int),
        decreases s.matches@.len() - i,
    {
        let m = s.matches[i];
        if m.line == idx {
            let mark = if !s.editing && i == s.current {
                Mark::CurrentMatch
            } else {
                Mark::Match
            };
            paint(line, m.col_start, m.col_end, mark, theme);
        }
        i = i + 1;
    }
}

/// Line `idx` of the document with everything that is marked in it.
pub(crate) fn show_line(r: &Reader, rd: &Rendered, idx: usize, show_focus: bool, theme: &Theme) -> (out: Line)
    requires
        idx < rd.lines@.len(),
    ensures
        out@ == r@.shown_line(rd@, idx, show_focus, *theme),
{
    let mut line = rd.lines[idx].clone();
    if show_focus {
        match r.focus {
            Some(Focus::Link(i)) => {
                mark_link(&mut line, &rd.link_map.links, Some(i), idx, theme);
            },
            Some(Focus::Checkbox(i)) => {
                mark_box(&mut line, &rd.checkbox_map.items, Some(i), idx, theme);
            },
            None => {},
        }
    }
    mark_link(&mut line, &rd.link_map.links, r.hover_link, idx, theme);
    mark_box(&mut line, &rd.checkbox_map.items, r.hover_checkbox, idx, theme);
    match &r.doc_search {
        Some(s) => {
            mark_matches(&mut line, s, idx, theme);
        },
        None => {},
    }
    line
}

// ---------------------------------------------------------------------------
// Scrollbar
// ---------------------------------------------------------------------------

/// Top and height of the thumb on a track. Its height is to the track as the
/// visible lines are to all of them, and its place as the scroll position is to
/// the last one; it fills the track where everything is visible.
pub open spec fn thumb(scroll: int, total: int, visible: int, track: int) -> (int, int) {
    if total <= visible {
        (0, track)
    } else {
        let share = (track * visible) / total;
        let h = if share < 1 {
            1
        } else if share > track {
            track
        } else {
            share
        };
        let room = track - h;
        let end = total - visible;
        let top = (scroll * room + end / 2) / end;
        (
            if top > room {
                room
            } else {
                top
            },
            h,
        )
    }
}

/// Finds top and height of the thumb on a track.
pub fn scroll_thumb(scroll: usize, total: usize, visible: usize, track: usize) -> (r: (
    usize,
    usize,
))
    requires
        track > 0,
    ensures
        (r.0 as int, r.1 as int) == thumb(
            scroll as int,
            total as int,
            visible as int,
            track as int,
        ),
        r.0 + r.1 <= track,
{
    if total <= visible {
        return (0, track);
    }
    assert(0 <= track * visible <= 0xffff_ffff_ffff_ffff * 0xffff_ffff_ffff_ffff)
        by (nonlinear_arith)
        requires
            0 <= track <= 0xffff_ffff_ffff_ffff,
            0 <= visible <= 0xffff_ffff_ffff_ffff,
    ;
    let share: u128 = (track as u128 * visible as u128) / total as u128;
    let h: usize = if share < 1 {
        1
    } else if share > track as u128 {
        track
    } else {
        share as usize
    };
    let room: usize = track - h;
    let end: usize = total - visible;
    assert(0 <= scroll * room <= 0xffff_ffff_ffff_ffff * 0xffff_ffff_ffff_ffff)
        by (nonlinear_arith)
        requires
            0 <= scroll <= 0xffff_ffff_ffff_ffff,
            0 <= room <= 0xffff_ffff_ffff_ffff,
    ;
    let top: u128 = (scroll as u128 * room as u128 + (end / 2) as u128) / end as u128;
    (
        if top > room as u128 {
            room
        } else {
            top as usize
        },
        h,
    )
}

/// The thumb has some height and lies on the track; it starts at its top when the
/// document is at its beginning, and ends at its bottom when that is at its end.
pub proof fn law_thumb_on_track(scroll: int, total: int, visible: int, track: int)
    requires
        0 <= scroll,
        0 <= visible,
        0 < track,
    ensures
        ({
            let (top, h) = thumb(scroll, total, visible, track);
            &&& 0 <= top
            &&& 0 < h
            &&& top + h <= track
            &&& scroll == 0 ==> top == 0
            &&& scroll >= total - visible > 0 ==> top + h == track
            &&& total <= visible ==> (top, h) == (0int, track)
        }),
{
    if total > visible {
        let share = (track * visible) / total;
        let h = thumb(scroll, total, visible, track).1;
        let room = track - h;
        let end = total - visible;
        assert(scroll * room >= 0) by (nonlinear_arith)
            requires
                scroll >= 0,
                room >= 0,
        ;
        assert((scroll * room + end / 2) / end >= 0) by (nonlinear_arith)
            requires
                scroll * room >= 0,
                end > 0,
        ;
        if scroll == 0 {
            assert(0 * room == 0) by (nonlinear_arith);
            assert((end / 2) / end == 0) by (nonlinear_arith)
                requires
                    end > 0,
            ;
        }
        if scroll >= end {
            assert((scroll * room + end / 2) / end >= room) by (nonlinear_arith)
                requires
                    scroll >= end > 0,
                    room >= 0,
            ;
        }
    }
}

/// The thumb does not move up when the document moves down.
pub proof fn law_thumb_follows_scroll(
    scroll: int,
    later: int,
    total: int,
    visible: int,
    track: int,
)
    requires
        0 <= scroll <= later,
        0 <= visible,
        0 < track,
    ensures
        thumb(scroll, total, visible, track).0 <= thumb(later, total, visible, track).0,
        thumb(scroll, total, visible, track).1 == thumb(later, total, visible, track).1,
{
    if total > visible {
        let h = thumb(scroll, total, visible, track).1;
        let room = track - h;
        let end = total - visible;
        assert(scroll * room <= later * room) by (nonlinear_arith)
            requires
                scroll <= later,
                room >= 0,
        ;
        vstd::arithmetic::div_mod::lemma_div_is_ordered(
            scroll * room + end / 2,
            later * room + end / 2,
            end,
        );
    }
}

/// The rows of the scrollbar.
pub open spec fn bar_rows(scroll: int, total: int, visible: int, track: int, theme: Theme) -> Seq<
    Seq<style::SpanView>,
> {
    let (top, h) = thumb(scroll, total, visible, track);
    Seq::new(
        track as nat,
        |i: int|
            seq![
                if top <= i < top + h {
                    style::span("█"@, Style::plain().fg(theme.heading[0]))
                } else {
                    style::span("│"@, Style::plain().fg(theme.muted))
                },
            ],
    )
}

fn one_span(content: String, s: Style) -> (r: Line)
    ensures
        r@ == seq![style::span(content@, s)],
{
    let mut spans: Vec<Span> = Vec::new();
    spans.push(Span::styled(content, s));
    let line = Line { spans };
    assert(line@ =~= seq![style::span(content@, s)]);
    line
}

/// Draws the scrollbar.
pub fn scrollbar(scroll: usize, total: usize, visible: usize, track: usize, theme: &Theme) -> (r:
    Vec<Line>)
    ensures
        views::views(r@) == bar_rows(
            scroll as int,
            total as int,
            visible as int,
            track as int,
            *theme,
        ),
{
    let mut out: Vec<Line> = Vec::new();
    if track == 0 {
        assert(views::views(out@) =~= bar_rows(
            scroll as int,
            total as int,
            visible as int,
            track as int,
            *theme,
        ));
        return out;
    }
    let (top, h) = scroll_thumb(scroll, total, visible, track);
    let ghost rows = bar_rows(
        scroll as int,
        total as int,
        visible as int,
        track as int,
        *theme,
    );
    let mut i: usize = 0;
    while i < track
        invariant
            i <= track,
            top + h <= track,
            (top as int, h as int) == thumb(
                scroll as int,
                total as int,
                visible as int,
                track as int,
            ),
            rows == bar_rows(
                scroll as int,
                total as int,
                visible as int,
                track as int,
                *theme,
            ),
            views::views(out@) == rows.take(i as int),
        decreases track - i,
    {
        out.push(
            if i >= top && i < top + h {
                one_span("█".to_string(), Style::plain().fg(theme.heading[0]))
            } else {
                one_span("│".to_string(), Style::plain().fg(theme.muted))
            },
        );
        i = i + 1;
        assert(views::views(out@) =~= rows.take(i as int));
    }
    assert(rows.take(i as int) =~= rows);
    out
}

} // verus!
