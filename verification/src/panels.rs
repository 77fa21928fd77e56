//! The lists and boxes around the document: the browser, the file search and the
//! help.

use vstd::prelude::*;
use crate::actions::joined;
use crate::app;
use crate::app::{GitLensState, Rect};
use crate::browser;
use crate::browser::{BrowserEntry, BrowserEntryKind};
use crate::diff::DiffRowKind;
use crate::frame;
use crate::paths;
use crate::paths::is_markdown_file;
use crate::search;
use crate::search::{Search, SearchResult};
use crate::style;
use crate::style::{Color, Line, Modifier, Span, Style};
use crate::text;
use crate::text::decimal_text;
use crate::theme::Theme;
use crate::vault;
use crate::vault::short_root;
use crate::views;

verus! {

broadcast use crate::views::group_views;

/// How the selected line of a list is drawn.
pub open spec fn highlight(theme: Theme) -> Style {
    Style::plain().bg(theme.status_bg).fg(theme.status_fg).add_modifier(Modifier::bold())
}

/// How the selected line of a list is drawn.
pub fn highlight_style(theme: &Theme) -> (r: Style)
    ensures
        r == highlight(*theme),
{
    Style::plain().bg(theme.status_bg).fg(theme.status_fg).add_modifier(Modifier::bold())
}

// ---------------------------------------------------------------------------
// Browser
// ---------------------------------------------------------------------------

/// How an entry of the browser is drawn.
pub open spec fn entry_look(kind: BrowserEntryKind, theme: Theme) -> Style {
    match kind {
        BrowserEntryKind::ParentDir => Style::plain().fg(theme.muted),
        BrowserEntryKind::Dir => Style::plain().fg(theme.heading[0]).add_modifier(
            Modifier::bold(),
        ),
        BrowserEntryKind::Markdown => Style::plain(),
    }
}

/// How an entry of the browser is drawn.
pub fn browser_entry_style(kind: BrowserEntryKind, theme: &Theme) -> (r: Style)
    ensures
        r == entry_look(kind, *theme),
{
    match kind {
        BrowserEntryKind::ParentDir => Style::plain().fg(theme.muted),
        BrowserEntryKind::Dir => Style::plain().fg(theme.heading[0]).add_modifier(
            Modifier::bold(),
        ),
        BrowserEntryKind::Markdown => Style::plain(),
    }
}

/// The line of an entry. What is unread has a badge, but for the way up.
pub open spec fn entry_spans(e: browser::EntryView, unread: bool, theme: Theme) -> Seq<
    style::SpanView,
> {
    let name = seq![style::span(e.display, entry_look(e.kind, theme))];
    if unread && !(e.kind is ParentDir) {
        name.push(style::span(" [unread]"@, Style::plain().fg(theme.link_focused)))
    } else {
        name
    }
}

/// The line of an entry.
pub fn entry_line(e: &BrowserEntry, unread: bool, theme: &Theme) -> (r: Line)
    ensures
        r@ == entry_spans(e@, unread, *theme),
{
    let mut spans: Vec<Span> = Vec::new();
    spans.push(Span::styled(e.display.clone(), browser_entry_style(e.kind, theme)));
    if unread && !matches!(e.kind, BrowserEntryKind::ParentDir) {
        spans.push(
            Span::styled(" [unread]".to_string(), Style::plain().fg(theme.link_focused)),
        );
    }
    let line = Line { spans };
    assert(line@ =~= entry_spans(e@, unread, *theme));
    line
}

/// The title of the browser.
pub fn browser_title(dir: &str) -> (r: String)
    ensures
        r@ == " "@ + dir@ + " "@,
{
    joined(&joined(" ", dir), " ")
}

// ---------------------------------------------------------------------------
// Boxes
// ---------------------------------------------------------------------------

/// A box of a size in the middle of an area.
pub open spec fn centered(area: Rect, width: u16, height: u16) -> Rect {
    Rect {
        x: frame::coord(area.x + app::max_scroll(area.width as int, width as int) / 2),
        y: frame::coord(area.y + app::max_scroll(area.height as int, height as int) / 2),
        width,
        height,
    }
}

fn center(area: Rect, width: u16, height: u16) -> (r: Rect)
    ensures
        r == centered(area, width, height),
{
    Rect {
        x: area.x.saturating_add(area.width.saturating_sub(width) / 2),
        y: area.y.saturating_add(area.height.saturating_sub(height) / 2),
        width,
        height,
    }
}

/// The box of the file search: four columns and two rows in from the edges, 20 to
/// 100 columns wide and at least 8 rows high.
pub open spec fn search_area(area: Rect) -> Rect {
    let w = if area.width < 28 {
        20
    } else if area.width > 108 {
        100
    } else {
        (area.width - 8) as u16
    };
    let h = if area.height < 12 {
        8
    } else {
        (area.height - 4) as u16
    };
    centered(area, w, h)
}

/// The box of the file search.
pub fn search_popup(area: Rect) -> (r: Rect)
    ensures
        r == search_area(area),
{
    let w: u16 = if area.width < 28 {
        20
    } else if area.width > 108 {
        100
    } else {
        area.width - 8
    };
    let h: u16 = if area.height < 12 {
        8
    } else {
        area.height - 4
    };
    center(area, w, h)
}

/// The box of the help: up to 60 columns and 30 rows, two in from the edges.
pub open spec fn help_area(area: Rect) -> Rect {
    centered(
        area,
        app::clamped(area.width - 4, 60) as u16,
        app::clamped(area.height - 4, 30) as u16,
    )
}

/// The box of the help.
pub fn help_popup(area: Rect) -> (r: Rect)
    ensures
        r == help_area(area),
{
    let w = area.width.saturating_sub(4);
    let h = area.height.saturating_sub(4);
    center(
        area,
        if w > 60 {
            60
        } else {
            w
        },
        if h > 30 {
            30
        } else {
            h
        },
    )
}

/// The help lies within the screen.
pub proof fn law_help_is_on_screen(area: Rect)
    requires
        area.x + area.width <= u16::MAX,
        area.y + area.height <= u16::MAX,
    ensures
        ({
            let r = help_area(area);
            &&& area.x <= r.x
            &&& area.y <= r.y
            &&& r.x + r.width <= area.x + area.width
            &&& r.y + r.height <= area.y + area.height
        }),
{
}

// ---------------------------------------------------------------------------
// File search
// ---------------------------------------------------------------------------

/// The title of the file search.
pub fn search_title(results: usize) -> (r: String)
    ensures
        r@ == " Search ["@ + text::decimal(results as nat) + "] "@,
{
    joined(&joined(" Search [", &decimal_text(results as u64)), "] ")
}

/// The prompt of the file search.
pub open spec fn prompt_spans(
    query: Seq<char>,
    root: Seq<char>,
    home: Option<Seq<char>>,
    theme: Theme,
) -> Seq<style::SpanView> {
    let accent = Style::plain().fg(theme.heading[0]);
    seq![
        style::span("▸ "@, accent.add_modifier(Modifier::bold())),
        style::span(query, Style::plain()),
        style::span("█"@, accent),
        style::span("   "@ + vault::home_path(root, home), Style::plain().fg(theme.muted)),
    ]
}

/// The prompt of the file search.
pub fn search_prompt(query: &str, root: &str, home: Option<&str>, theme: &Theme) -> (r: Line)
    ensures
        r@ == prompt_spans(
            query@,
            root@,
            match home {
                Some(h) => Some(h@),
                None => None,
            },
            *theme,
        ),
{
    let accent = Style::plain().fg(theme.heading[0]);
    let mut spans: Vec<Span> = Vec::new();
    spans.push(Span::styled("▸ ".to_string(), accent.add_modifier(Modifier::bold())));
    spans.push(Span::raw(query.to_string()));
    spans.push(Span::styled("█".to_string(), accent));
    spans.push(
        Span::styled(joined("   ", &short_root(root, home)), Style::plain().fg(theme.muted)),
    );
    let line = Line { spans };
    assert(line@ =~= prompt_spans(
        query@,
        root@,
        match home {
            Some(h) => Some(h@),
            None => None,
        },
        *theme,
    ));
    line
}

/// The line of a search result: directories stand out and end in a slash, files
/// that are not markdown are muted.
pub open spec fn result_span(r: search::ResultView, theme: Theme) -> style::SpanView {
    if r.is_dir {
        style::span(
            r.display + "/"@,
            Style::plain().fg(theme.heading[0]).add_modifier(Modifier::bold()),
        )
    } else if paths::is_markdown_path(r.path) {
        style::span(r.display, Style::plain())
    } else {
        style::span(r.display, Style::plain().fg(theme.muted))
    }
}

/// The line of a search result.
pub fn result_line(r: &SearchResult, theme: &Theme) -> (s: Span)
    ensures
        s@ == result_span(r@, *theme),
{
    if r.is_dir {
        Span::styled(
            joined(&r.display, "/"),
            Style::plain().fg(theme.heading[0]).add_modifier(Modifier::bold()),
        )
    } else if is_markdown_file(&r.path) {
        Span::raw(r.display.clone())
    } else {
        Span::styled(r.display.clone(), Style::plain().fg(theme.muted))
    }
}

// ---------------------------------------------------------------------------
// Diff
// ---------------------------------------------------------------------------

/// How a row of a diff is drawn.
pub open spec fn row_look(kind: DiffRowKind, theme: Theme) -> Style {
    match kind {
        DiffRowKind::Context => Style::plain(),
        DiffRowKind::Added => Style::plain().bg(Color::Green),
        DiffRowKind::Removed => Style::plain().bg(Color::Red),
        DiffRowKind::Hunk => Style::plain().fg(theme.muted),
        DiffRowKind::Header => Style::plain().fg(theme.muted).add_modifier(Modifier::dim()),
        DiffRowKind::Info => Style::plain().fg(theme.muted).add_modifier(Modifier::bold()),
    }
}

/// How a row of a diff is drawn.
pub fn diff_row_style(kind: DiffRowKind, theme: &Theme) -> (r: Style)
    ensures
        r == row_look(kind, *theme),
{
    match kind {
        DiffRowKind::Context => Style::plain(),
        DiffRowKind::Added => Style::plain().bg(Color::Green),
        DiffRowKind::Removed => Style::plain().bg(Color::Red),
        DiffRowKind::Hunk => Style::plain().fg(theme.muted),
        DiffRowKind::Header => Style::plain().fg(theme.muted).add_modifier(Modifier::dim()),
        DiffRowKind::Info => Style::plain().fg(theme.muted).add_modifier(Modifier::bold()),
    }
}

/// The rows of a diff that `height` lines show.
pub open spec fn lens_spans(g: app::LensModel, height: u16, theme: Theme) -> Seq<
    Seq<style::SpanView>,
> {
    Seq::new(
        app::clamped(g.rows.len() - g.scroll, height as int) as nat,
        |i: int|
            seq![
                style::span(
                    g.rows[g.scroll + i].1,
                    row_look(g.rows[g.scroll + i].0, theme),
                ),
            ],
    )
}

/// The rows of a diff that `height` lines show.
pub fn lens_lines(g: &GitLensState, height: u16, theme: &Theme) -> (r: Vec<Line>)
    ensures
        views::views(r@) == lens_spans(g@, height, *theme),
{
    let ghost want = lens_spans(g@, height, *theme);
    let mut out: Vec<Line> = Vec::new();
    let mut i: usize = 0;
    while i < height as usize && g.scroll as usize + i < g.rows.len()
        invariant
            want == lens_spans(g@, height, *theme),
            i <= height,
            i <= want.len(),
            views::views(out@) == want.take(i as int),
        decreases height - i,
    {
        let row = &g.rows[g.scroll as usize + i];
        let mut spans: Vec<Span> = Vec::new();
        spans.push(Span::styled(row.text.clone(), diff_row_style(row.kind, theme)));
        let line = Line { spans };
        assert(line@ =~= want[i as int]);
        assert(want.take(i as int).push(want[i as int]) =~= want.take(i + 1));
        out.push(line);
        i = i + 1;
    }
    assert(want.take(i as int) =~= want);
    out
}

// ---------------------------------------------------------------------------
// Help
// ---------------------------------------------------------------------------

/// The lines of the help.
pub open spec fn help_text() -> Seq<Seq<char>> {
    seq![
        "md keybindings"@,
        ""@,
        "  j / k / ↓ ↑      scroll one line"@,
        "  d / u            half page down / up"@,
        "  Ctrl-d / Ctrl-u  half page (vim)"@,
        "  Ctrl-f / Ctrl-b  full page (vim)"@,
        "  PgDn / Space     page down"@,
        "  gg               top of buffer"@,
        "  G                bottom of buffer (NG → line N)"@,
        "  H / M / L        focus visible top / middle / bottom"@,
        "  zz               center current focus"@,
        "  <count><motion>  e.g. 5j, 10G, 3Ctrl-d"@,
        ""@,
        "  Tab / S-Tab      cycle focus across links + checkboxes"@,
        "  Enter / →        follow link or toggle checkbox"@,
        "  Esc / ←          back  (Esc at root quits)"@,
        "  /                in-doc text search (Reader) / file search (Browser)"@,
        "  n / N            next / prev match"@,
        "  T                fuzzy file search"@,
        "  h / b            history back"@,
        "  l / f            history forward"@,
        "  e                enter in-house edit mode"@,
        "                   (Ctrl-S save, Ctrl-W save backup, Esc Esc discard)"@,
        "  o                open focused link in browser"@,
        "  m                toggle mouse capture (drag-to-select)"@,
        "  q / Ctrl-C       quit"@,
        "  ?                toggle this help"@,
        ""@,
        "  Mouse hides the keyboard focus halo. Any key restores it."@,
    ]
}

/// The lines of the help.
pub fn help_lines() -> (r: Vec<String>)
    ensures
        views::views(r@) == help_text(),
{
    let mut out: Vec<String> = Vec::new();
    out.push("md keybindings".to_string());
    out.push("".to_string());
    out.push("  j / k / ↓ ↑      scroll one line".to_string());
    out.push("  d / u            half page down / up".to_string());
    out.push("  Ctrl-d / Ctrl-u  half page (vim)".to_string());
    out.push("  Ctrl-f / Ctrl-b  full page (vim)".to_string());
    out.push("  PgDn / Space     page down".to_string());
    out.push("  gg               top of buffer".to_string());
    out.push("  G                bottom of buffer (NG → line N)".to_string());
    out.push("  H / M / L        focus visible top / middle / bottom".to_string());
    out.push("  zz               center current focus".to_string());
    out.push("  <count><motion>  e.g. 5j, 10G, 3Ctrl-d".to_string());
    out.push("".to_string());
    out.push("  Tab / S-Tab      cycle focus across links + checkboxes".to_string());
    out.push("  Enter / →        follow link or toggle checkbox".to_string());
    out.push("  Esc / ←          back  (Esc at root quits)".to_string());
    out.push("  /                in-doc text search (Reader) / file search (Browser)".to_string());
    out.push("  n / N            next / prev match".to_string());
    out.push("  T                fuzzy file search".to_string());
    out.push("  h / b            history back".to_string());
    out.push("  l / f            history forward".to_string());
    out.push("  e                enter in-house edit mode".to_string());
    out.push("                   (Ctrl-S save, Ctrl-W save backup, Esc Esc discard)".to_string());
    out.push("  o                open focused link in browser".to_string());
    out.push("  m                toggle mouse capture (drag-to-select)".to_string());
    out.push("  q / Ctrl-C       quit".to_string());
    out.push("  ?                toggle this help".to_string());
    out.push("".to_string());
    out.push("  Mouse hides the keyboard focus halo. Any key restores it.".to_string());
    assert(views::views(out@) =~= help_text());
    out
}

} // verus!
