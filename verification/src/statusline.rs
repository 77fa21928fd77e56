//! The status line.

use vstd::prelude::*;
use crate::actions::joined;
use crate::app;
use crate::app::{App, Rect};
use crate::bytes;
use crate::frame;
use crate::links;
use crate::links::LinkTarget;
use crate::paint;
use crate::reader;
use crate::reader::{Focus, ReaderOrigin};
use crate::style;
use crate::style::{Line, Modifier, Span, Style};
use crate::text;
use crate::text::{char_cols, decimal_text, from_chars, repeat_char, str_width, to_chars};
use crate::theme::Theme;
use crate::vault;
use crate::vault::display_path;
use crate::views;

verus! {

broadcast use crate::views::group_views;

// ---------------------------------------------------------------------------
// The middle
// ---------------------------------------------------------------------------

/// What the middle of the status line says.
#[derive(Debug)]
pub enum Mid {
    Hint(String),
    /// A message.
    Status(String),
    /// The document search.
    Search(String),
    /// The target of a link.
    Url { text: String, on_last_row: bool },
}

/// What a [`Mid`] says.
pub enum MidModel {
    Hint(Seq<char>),
    Status(Seq<char>),
    Search(Seq<char>),
    Url { text: Seq<char>, on_last_row: bool },
}

impl View for Mid {
    type V = MidModel;

    open spec fn view(&self) -> MidModel {
        match self {
            Mid::Hint(t) => MidModel::Hint(t@),
            Mid::Status(t) => MidModel::Status(t@),
            Mid::Search(t) => MidModel::Search(t@),
            Mid::Url { text, on_last_row } => MidModel::Url {
                text: text@,
                on_last_row: *on_last_row,
            },
        }
    }
}

impl MidModel {
    pub open spec fn words(self) -> Seq<char> {
        match self {
            MidModel::Hint(t) | MidModel::Status(t) | MidModel::Search(t) => t,
            MidModel::Url { text, .. } => text,
        }
    }

    pub open spec fn look(self, theme: Theme) -> Style {
        match self {
            MidModel::Url { .. } => Style::plain().fg(theme.link).add_modifier(
                Modifier::underlined(),
            ),
            MidModel::Search(_) => Style::plain().fg(theme.heading[0]),
            MidModel::Status(_) => Style::plain().fg(theme.heading[0]).add_modifier(
                Modifier::bold(),
            ),
            MidModel::Hint(_) => Style::plain().fg(theme.muted),
        }
    }
}

impl Mid {
    /// The words.
    pub fn text(&self) -> (r: String)
        ensures
            r@ == self@.words(),
    {
        match self {
            Mid::Hint(t) | Mid::Status(t) | Mid::Search(t) => t.clone(),
            Mid::Url { text, .. } => text.clone(),
        }
    }

    /// How the words are drawn.
    pub fn style(&self, theme: &Theme) -> (r: Style)
        ensures
            r == self@.look(*theme),
    {
        match self {
            Mid::Url { .. } => Style::plain().fg(theme.link).add_modifier(Modifier::underlined()),
            Mid::Search(_) => Style::plain().fg(theme.heading[0]),
            Mid::Status(_) => Style::plain().fg(theme.heading[0]).add_modifier(Modifier::bold()),
            Mid::Hint(_) => Style::plain().fg(theme.muted),
        }
    }
}

/// A link target in words.
pub open spec fn described(t: links::TargetView) -> Seq<char> {
    match t {
        links::TargetView::Url(u) => u,
        links::TargetView::LocalFile(p) => p,
        links::TargetView::Anchor(a) => "#"@ + a,
        links::TargetView::FileAnchor(p, a) => p + "#"@ + a,
    }
}

/// A link target in words.
pub fn describe_target(t: &LinkTarget) -> (r: String)
    ensures
        r@ == described(t@),
{
    match t {
        LinkTarget::Url(u) => u.clone(),
        LinkTarget::LocalFile(p) => p.clone(),
        LinkTarget::Anchor(a) => joined("#", a),
        LinkTarget::FileAnchor(p, a) => joined(&joined(p, "#"), a),
    }
}

/// The document search in words.
pub open spec fn search_words(s: reader::DocSearchModel) -> Seq<char> {
    if s.editing {
        "/"@ + s.query + "_"@
    } else if s.matches.len() == 0 {
        "no match: /"@ + s.query
    } else {
        "/"@ + s.query + "  ["@ + text::decimal(text::sat(s.current + 1) as nat) + "/"@ + text::decimal(
            s.matches.len(),
        ) + "]"@
    }
}

fn search_text(s: &reader::DocSearch) -> (r: String)
    ensures
        r@ == search_words(s@),
{
    if s.editing {
        joined(&joined("/", &s.query), "_")
    } else if s.matches.len() == 0 {
        joined("no match: /", &s.query)
    } else {
        let mut out = joined("/", &s.query);
        out.push_str("  [");
        out.push_str(&next_number(s.current));
        out.push_str("/");
        out.push_str(&decimal_text(s.matches.len() as u64));
        out.push_str("]");
        out
    }
}

/// The number after `n`, at most the largest one.
fn next_number(n: usize) -> (r: String)
    ensures
        r@ == text::decimal(text::sat(n + 1) as nat),
{
    decimal_text(n.saturating_add(1) as u64)
}

impl app::Model {
    /// The link whose target is shown: the one under the mouse, else the focused
    /// one.
    pub open spec fn pointed_link(r: reader::ReaderModel) -> Option<usize> {
        match r.hover_link {
            Some(i) => Some(i),
            None => r.focused_link(),
        }
    }

    /// What the keys do, in short.
    pub open spec fn hint(self) -> Seq<char> {
        match self.view {
            app::Screen::Reader(_) =>
                "j/k  d/u  /search  Tab:link  o:open  e:edit  ?:help  q:quit"@,
            app::Screen::Browser(_) => "j/k  Enter:open  /search  T:fuzzy  ?:help  q:quit"@,
        }
    }

    /// The last message, or else a hint.
    pub open spec fn message_or(self, hint: Seq<char>) -> MidModel {
        if self.status.len() > 0 {
            MidModel::Status(self.status)
        } else {
            MidModel::Hint(hint)
        }
    }

    /// What the middle of the status line says of a document: the search, the target
    /// of a link, the last message, or a hint, whichever comes first. During an edit
    /// it is the last message or how to edit.
    pub open spec fn doc_middle(self, r: reader::ReaderModel) -> MidModel {
        if r.edit is Some {
            self.message_or("type to edit  Ctrl-S save  Esc Esc discard"@)
        } else {
            match r.doc_search {
                Some(s) => MidModel::Search(search_words(s)),
                None => match (r.rendered, Self::pointed_link(r)) {
                    (Some(rd), Some(i)) => if i < rd.links.len() {
                        MidModel::Url {
                            text: described(rd.links[i as int].target),
                            on_last_row: rd.links[i as int].line == r.scroll + app::max_scroll(
                                self.viewport.height as int,
                                1,
                            ),
                        }
                    } else {
                        self.message_or(self.hint())
                    },
                    _ => self.message_or(self.hint()),
                },
            }
        }
    }

    /// What the middle of the status line says. The question whether to discard an
    /// edit comes before everything.
    pub open spec fn middle(self) -> MidModel {
        match self.doc() {
            Some(r) => if r.edit is Some && r.edit->0.discard_pending {
                MidModel::Status("Press Esc again to discard, any other key to cancel"@)
            } else {
                self.doc_middle(r)
            },
            None => self.message_or(self.hint()),
        }
    }
}

fn default_hint(a: &App) -> (r: String)
    ensures
        r@ == a@.hint(),
{
    match &a.view {
        app::View::Reader(_) => {
            "j/k  d/u  /search  Tab:link  o:open  e:edit  ?:help  q:quit".to_string()
        },
        app::View::Browser(_) => "j/k  Enter:open  /search  T:fuzzy  ?:help  q:quit".to_string(),
    }
}

fn message_or(a: &App, hint: String) -> (r: Mid)
    ensures
        r@ == a@.message_or(hint@),
{
    if a.status.as_str().is_empty() {
        Mid::Hint(hint)
    } else {
        Mid::Status(a.status.clone())
    }
}

/// What the middle of the status line says.
pub fn compute_middle(a: &App) -> (r: Mid)
    ensures
        r@ == a@.middle(),
{
    match &a.view {
        app::View::Reader(r) => {
            match &r.edit {
                Some(e) => {
                    if e.discard_pending {
                        return Mid::Status(
                            "Press Esc again to discard, any other key to cancel".to_string(),
                        );
                    }
                },
                None => {},
            }
            if r.edit.is_some() {
                return message_or(a, "type to edit  Ctrl-S save  Esc Esc discard".to_string());
            }
            match &r.doc_search {
                Some(s) => {
                    return Mid::Search(search_text(s));
                },
                None => {},
            }
            let pointed = match r.hover_link {
                Some(i) => Some(i),
                None => match r.focus {
                    Some(Focus::Link(i)) => Some(i),
                    _ => None,
                },
            };
            match (&r.rendered, pointed) {
                (Some(rd), Some(i)) => {
                    if i < rd.link_map.links.len() {
                        let l = &rd.link_map.links[i];
                        let last = r.scroll as usize + (a.viewport.height as usize).saturating_sub(
                            1,
                        );
                        return Mid::Url {
                            text: describe_target(&l.target),
                            on_last_row: l.line == last,
                        };
                    }
                },
                _ => {},
            }
        },
        app::View::Browser(_) => {},
    }
    message_or(a, default_hint(a))
}

/// Where a link target goes so that it keeps clear of the mouse.
#[derive(Clone, Copy, Debug, PartialEq, Eq, Structural)]
pub enum EdgeSwap {
    /// In the middle, as usual.
    Stay,
    Left,
    Right,
}

impl app::Model {
    /// Where the middle goes: a link on the last row of the body has its target on
    /// the half of the row that the mouse is not in.
    pub open spec fn edge_swap(self) -> EdgeSwap {
        match self.middle() {
            MidModel::Url { on_last_row: true, .. } => if self.last_mouse_col < self.viewport.x
                + self.viewport.width / 2 {
                EdgeSwap::Right
            } else {
                EdgeSwap::Left
            },
            _ => EdgeSwap::Stay,
        }
    }
}

fn compute_edge_swap(a: &App, middle: &Mid) -> (r: EdgeSwap)
    requires
        middle@ == a@.middle(),
    ensures
        r == a@.edge_swap(),
{
    match middle {
        Mid::Url { on_last_row, .. } => if *on_last_row {
            if (a.last_mouse_col as u32) < a.viewport.x as u32 + (a.viewport.width / 2) as u32 {
                EdgeSwap::Right
            } else {
                EdgeSwap::Left
            }
        } else {
            EdgeSwap::Stay
        },
        _ => EdgeSwap::Stay,
    }
}

// ---------------------------------------------------------------------------
// Shortened text
// ---------------------------------------------------------------------------

/// How many characters, from `i` on, fit into `max` columns and leave one, where
/// `used` are taken.
pub open spec fn keep_upto(s: Seq<char>, i: int, used: int, max: int) -> int
    decreases s.len() - i,
{
    if i < s.len() && used + text::cols(s[i]) + 1 <= max {
        keep_upto(s, i + 1, used + text::cols(s[i]), max)
    } else {
        i
    }
}

/// A text shortened to `max` columns, with an ellipsis where something is cut off.
pub open spec fn shortened(s: Seq<char>, max: usize) -> Seq<char> {
    if max == 0 {
        Seq::empty()
    } else if bytes::cols_before(s, s.len() as int) <= max {
        s
    } else {
        s.take(keep_upto(s, 0, 0, max as int)).push('…')
    }
}

/// Shortens a text to `max` columns.
pub fn truncate_mid(s: &str, max: usize) -> (r: String)
    ensures
        r@ == shortened(s@, max),
{
    if max == 0 {
        let none = String::new();
        assert(none@ =~= Seq::<char>::empty());
        return none;
    }
    let cs = to_chars(s);
    let n = cs.len();
    assert(cs@.subrange(0, n as int) =~= cs@);
    if bytes::sum_cols(&cs, 0, n) <= max {
        return s.to_string();
    }
    let mut used: usize = 0;
    let mut i: usize = 0;
    while i < n
        invariant_except_break
            keep_upto(cs@, 0, 0, max as int) == keep_upto(
                cs@,
                i as int,
                used as int,
                max as int,
            ),
        invariant
            n == cs@.len(),
            i <= n,
            used < max,
        ensures
            i == keep_upto(cs@, 0, 0, max as int),
        decreases n - i,
    {
        let w = char_cols(cs[i]);
        if w >= max - used {
            break;
        }
        used = used + w;
        i = i + 1;
    }
    let mut out = from_chars(&cs, 0, i);
    out.push('…');
    assert(cs@.subrange(0, i as int) =~= cs@.take(i as int));
    out
}

/// Columns of the characters `from..to`, without a cap.
pub open spec fn total_cols(s: Seq<char>, from: int, to: int) -> int
    decreases to - from,
{
    if from >= to {
        0
    } else {
        total_cols(s, from, to - 1) + text::cols(s[to - 1])
    }
}

/// What is kept of a text that is cut off leaves a column for the ellipsis, and
/// no more could be kept.
pub proof fn law_cut_text_leaves_a_column(s: Seq<char>, max: usize)
    requires
        max > 0,
        shortened(s, max) != s,
    ensures
        ({
            let k = keep_upto(s, 0, 0, max as int);
            &&& 0 <= k <= s.len()
            &&& shortened(s, max) == s.take(k).push('…')
            &&& total_cols(s, 0, k) < max
            &&& k < s.len() ==> total_cols(s, 0, k + 1) >= max
        }),
{
    lemma_keep_upto(s, 0, max as int);
}

proof fn lemma_keep_upto(s: Seq<char>, i: int, max: int)
    requires
        0 <= i <= s.len(),
        total_cols(s, 0, i) < max,
    ensures
        ({
            let k = keep_upto(s, i, total_cols(s, 0, i), max);
            &&& i <= k <= s.len()
            &&& total_cols(s, 0, k) < max
            &&& k < s.len() ==> total_cols(s, 0, k + 1) >= max
        }),
    decreases s.len() - i,
{
    if i < s.len() && total_cols(s, 0, i) + text::cols(s[i]) + 1 <= max {
        assert(total_cols(s, 0, i + 1) == total_cols(s, 0, i) + text::cols(s[i]));
        lemma_keep_upto(s, i + 1, max);
    } else if i < s.len() {
        assert(total_cols(s, 0, i + 1) == total_cols(s, 0, i) + text::cols(s[i]));
    }
}

// ---------------------------------------------------------------------------
// The line
// ---------------------------------------------------------------------------

/// Columns of the back button.
pub const BACK_COLUMNS: u16 = 8;

impl app::Model {
    /// The file or directory on screen.
    pub open spec fn path_words(self, home: Option<Seq<char>>) -> Seq<char> {
        match self.view {
            app::Screen::Reader(r) => match r.origin {
                reader::OriginModel::File(p) => vault::shown_path(p, self.root, home),
                reader::OriginModel::Stdin => "<stdin>"@,
            },
            app::Screen::Browser(b) => vault::shown_path(b.dir, self.root, home) + "/"@,
        }
    }

    /// How far the document is read, or which entry is selected.
    pub open spec fn position_words(self) -> Seq<char> {
        match self.view {
            app::Screen::Reader(r) => {
                let total = r.total() as int;
                let h = self.viewport.height as int;
                if total <= h {
                    "All"@
                } else {
                    let percent = r.scroll * 100 / (total - h);
                    text::decimal(app::clamped(percent, 100) as nat) + "%"@
                }
            },
            app::Screen::Browser(b) => text::decimal(text::sat(b.selected + 1) as nat) + "/"@
                + text::decimal(
                if b.entries.len() > 0 {
                    b.entries.len()
                } else {
                    1
                },
            ),
        }
    }

    /// Style of the status line's ends.
    pub open spec fn end_style(self) -> Style {
        Style::plain().bg(self.opts.theme.status_bg).fg(self.opts.theme.status_fg)
    }

    /// The badge at the left: that of an edit, or the back button.
    pub open spec fn badge(self) -> Option<style::SpanView> {
        let theme = self.opts.theme;
        match self.doc() {
            Some(r) if r.edit is Some => Some(
                style::span(
                    if r.edit->0.dirty {
                        " EDIT* "@
                    } else {
                        " EDIT "@
                    },
                    Style::plain().bg(theme.heading[0]).fg(theme.status_fg).add_modifier(
                        Modifier::bold(),
                    ),
                ),
            ),
            _ => if self.history.len() > 0 {
                Some(style::span(" ‹ Back "@, self.end_style().add_modifier(Modifier::bold())))
            } else {
                None
            },
        }
    }

    /// Whether the badge is the back button.
    pub open spec fn has_back_button(self) -> bool {
        self.history.len() > 0 && !(self.doc() is Some && self.doc()->0.edit is Some)
    }

    /// The badge and a space.
    pub open spec fn badge_spans(self) -> Seq<style::SpanView> {
        match self.badge() {
            Some(b) => seq![b, style::span(" "@, Style::plain())],
            None => Seq::empty(),
        }
    }

    /// The left end: the badge and the path.
    pub open spec fn left_spans(self, home: Option<Seq<char>>) -> Seq<style::SpanView> {
        (match self.badge() {
            Some(b) => self.badge_spans(),
            None => seq![style::span(" "@, Style::plain())],
        }).push(
            style::span(
                self.path_words(home),
                Style::plain().add_modifier(Modifier::bold()),
            ),
        )
    }

    /// The right end.
    pub open spec fn right_span(self) -> style::SpanView {
        style::span(" "@ + self.position_words() + " "@, self.end_style())
    }

    /// The middle, with a space on both sides.
    pub open spec fn spaced_middle(self) -> style::SpanView {
        style::span(
            " "@ + self.middle().words() + " "@,
            self.middle().look(self.opts.theme),
        )
    }

    /// The left part of the line as it usually is: the left end and the middle, as
    /// far as that fits.
    pub open spec fn usual_left(self, width: u16, home: Option<Seq<char>>) -> Seq<
        style::SpanView,
    > {
        let left = self.left_spans(home);
        let words = self.middle().words();
        if words.len() == 0 {
            left
        } else {
            let room = app::max_scroll(
                app::max_scroll(width as int, text::sat(line_cols(left) + 2) as int),
                text::sat(text::display_width(self.right_span().content) + 2) as int,
            );
            left + seq![
                style::span("  "@, Style::plain()),
                style::span(
                    shortened(words, room as usize),
                    self.middle().look(self.opts.theme),
                ),
            ]
        }
    }

    /// The status line. Its right end stands at the right of the row as long as
    /// everything fits.
    pub open spec fn status_spans(self, width: u16, home: Option<Seq<char>>) -> Seq<
        style::SpanView,
    > {
        let right = self.right_span();
        let right_w = text::display_width(right.content);
        match self.edge_swap() {
            EdgeSwap::Stay => {
                let left = self.usual_left(width, home);
                left + seq![gap(width, text::sat(line_cols(left) + right_w)), right]
            },
            EdgeSwap::Left => {
                let left = self.badge_spans().push(self.spaced_middle());
                left + seq![gap(width, text::sat(line_cols(left) + right_w)), right]
            },
            EdgeSwap::Right => {
                let left = self.left_spans(home);
                let mid = self.spaced_middle();
                left + seq![
                    gap(
                        width,
                        text::sat(
                            text::sat(line_cols(left) + text::display_width(mid.content))
                                + right_w,
                        ),
                    ),
                    mid,
                    right,
                ]
            },
        }
    }

    /// The state once the status line is drawn: where the back button is.
    pub open spec fn with_back_button(self, area: Rect) -> app::Model {
        app::Model {
            back_button_hit: if self.has_back_button() {
                Some((area.x, frame::coord(area.x + BACK_COLUMNS)))
            } else {
                None
            },
            ..self
        }
    }
}

/// Columns of a line.
pub open spec fn line_cols(spans: Seq<style::SpanView>) -> usize {
    paint::span_cols(spans, spans.len() as int)
}

/// Spaces that fill a row of `width` columns of which `used` are taken.
pub open spec fn gap(width: u16, used: usize) -> style::SpanView {
    style::span(
        text::repeated(' ', app::max_scroll(width as int, used as int) as nat),
        Style::plain(),
    )
}

fn width_of(spans: &[Span]) -> (w: usize)
    ensures
        w == line_cols(views::views(spans@)),
{
    let ghost vs = views::views(spans@);
    let mut w: usize = 0;
    let mut i: usize = 0;
    while i < spans.len()
        invariant
            vs == views::views(spans@),
            i <= spans@.len(),
            w == paint::span_cols(vs, i as int),
        decreases spans@.len() - i,
    {
        w = w.saturating_add(str_width(&spans[i].content));
        i = i + 1;
    }
    w
}

fn fill(width: u16, used: usize) -> (r: Span)
    ensures
        r@ == gap(width, used),
{
    Span::raw(repeat_char(' ', (width as usize).saturating_sub(used)))
}

/// Adds the right end to a line, after as many spaces as the row has room for.
fn finished(left: Vec<Span>, width: u16, right: Span) -> (r: Line)
    ensures
        r@ == views::views(left@) + seq![
            gap(
                width,
                text::sat(
                    line_cols(views::views(left@)) + text::display_width(right.content@),
                ),
            ),
            right@,
        ],
{
    let mut spans = left;
    let used = width_of(&spans).saturating_add(str_width(&right.content));
    spans.push(fill(width, used));
    spans.push(right);
    assert(views::views(spans@) =~= views::views(left@) + seq![gap(width, used), right@]);
    Line { spans }
}

fn spaced(t: &str) -> (r: String)
    ensures
        r@ == " "@ + t@ + " "@,
{
    joined(&joined(" ", t), " ")
}

impl App {
    fn path_text(&self, home: Option<&str>) -> (r: String)
        ensures
            r@ == self@.path_words(
                match home {
                    Some(h) => Some(h@),
                    None => None,
                },
            ),
    {
        match &self.view {
            app::View::Reader(r) => match &r.origin {
                ReaderOrigin::File(p) => display_path(p, &self.root, home),
                ReaderOrigin::Stdin => "<stdin>".to_string(),
            },
            app::View::Browser(b) => joined(&display_path(&b.dir, &self.root, home), "/"),
        }
    }

    fn position_text(&self) -> (r: String)
        ensures
            r@ == self@.position_words(),
    {
        match &self.view {
            app::View::Reader(r) => {
                let total: usize = match &r.rendered {
                    Some(rd) => rd.lines.len(),
                    None => 0,
                };
                let h = self.viewport.height as usize;
                if total <= h {
                    return "All".to_string();
                }
                let end: u64 = (total - h) as u64;
                let percent: u64 = r.scroll as u64 * 100 / end;
                joined(
                    &decimal_text(
                        if percent > 100 {
                            100
                        } else {
                            percent
                        },
                    ),
                    "%",
                )
            },
            app::View::Browser(b) => {
                let n = b.entries.len();
                joined(
                    &joined(&next_number(b.selected), "/"),
                    &decimal_text(
                        if n > 0 {
                            n as u64
                        } else {
                            1
                        },
                    ),
                )
            },
        }
    }

    fn badge_span(&self) -> (r: Option<Span>)
        ensures
            views::opt_view(r) == self@.badge(),
    {
        let theme = &self.opts.theme;
        match &self.view {
            app::View::Reader(r) => match &r.edit {
                Some(e) => {
                    let label = if e.dirty {
                        " EDIT* "
                    } else {
                        " EDIT "
                    };
                    return Some(
                        Span::styled(
                            label.to_string(),
                            Style::plain().bg(theme.heading[0]).fg(theme.status_fg).add_modifier(
                                Modifier::bold(),
                            ),
                        ),
                    );
                },
                None => {},
            },
            app::View::Browser(_) => {},
        }
        if self.history.len() > 0 {
            Some(
                Span::styled(
                    " ‹ Back ".to_string(),
                    Style::plain().bg(theme.status_bg).fg(theme.status_fg).add_modifier(
                        Modifier::bold(),
                    ),
                ),
            )
        } else {
            None
        }
    }

    fn left_end(&self, home: Option<&str>) -> (r: Vec<Span>)
        ensures
            views::views(r@) == self@.left_spans(
                match home {
                    Some(h) => Some(h@),
                    None => None,
                },
            ),
    {
        let mut out: Vec<Span> = Vec::new();
        match self.badge_span() {
            Some(b) => {
                out.push(b);
            },
            None => {},
        }
        out.push(Span::raw(" ".to_string()));
        out.push(
            Span::styled(self.path_text(home), Style::plain().add_modifier(Modifier::bold())),
        );
        assert(views::views(out@) =~= self@.left_spans(
            match home {
                Some(h) => Some(h@),
                None => None,
            },
        ));
        out
    }

    fn has_back_badge(&self) -> (r: bool)
        ensures
            r == self@.has_back_button(),
    {
        self.history.len() > 0 && match &self.view {
            app::View::Reader(r) => r.edit.is_none(),
            app::View::Browser(_) => true,
        }
    }

    fn right_end(&self) -> (r: Span)
        ensures
            r@ == self@.right_span(),
    {
        let theme = &self.opts.theme;
        Span::styled(
            spaced(&self.position_text()),
            Style::plain().bg(theme.status_bg).fg(theme.status_fg),
        )
    }

    fn usual_line(&self, middle: &Mid, width: u16, home: Option<&str>) -> (r: Vec<Span>)
        requires
            middle@ == self@.middle(),
        ensures
            views::views(r@) == self@.usual_left(
                width,
                match home {
                    Some(h) => Some(h@),
                    None => None,
                },
            ),
    {
        let words = middle.text();
        let mut spans = self.left_end(home);
        let ghost left = views::views(spans@);
        if !words.as_str().is_empty() {
            let right_w = str_width(&self.right_end().content);
            let room = (width as usize).saturating_sub(
                width_of(&spans).saturating_add(2),
            ).saturating_sub(right_w.saturating_add(2));
            spans.push(Span::raw("  ".to_string()));
            spans.push(
                Span::styled(truncate_mid(&words, room), middle.style(&self.opts.theme)),
            );
            assert(views::views(spans@) =~= left + seq![
                style::span("  "@, Style::plain()),
                style::span(
                    shortened(words@, room),
                    self@.middle().look(self@.opts.theme),
                ),
            ]);
        }
        spans
    }

    fn middle_span(&self, middle: &Mid) -> (r: Span)
        requires
            middle@ == self@.middle(),
        ensures
            r@ == self@.spaced_middle(),
    {
        Span::styled(spaced(&middle.text()), middle.style(&self.opts.theme))
    }

    fn swapped_left(&self, middle: &Mid) -> (r: Vec<Span>)
        requires
            middle@ == self@.middle(),
        ensures
            views::views(r@) == self@.badge_spans().push(self@.spaced_middle()),
    {
        let mut spans: Vec<Span> = Vec::new();
        match self.badge_span() {
            Some(b) => {
                spans.push(b);
                spans.push(Span::raw(" ".to_string()));
            },
            None => {},
        }
        assert(views::views(spans@) =~= self@.badge_spans());
        spans.push(self.middle_span(middle));
        spans
    }

    /// Lays out the status line for a row of `width` columns.
    pub fn status_line(&self, width: u16, home: Option<&str>) -> (r: Line)
        ensures
            r@ == self@.status_spans(
                width,
                match home {
                    Some(h) => Some(h@),
                    None => None,
                },
            ),
    {
        let middle = compute_middle(self);
        let right = self.right_end();
        match compute_edge_swap(self, &middle) {
            EdgeSwap::Stay => finished(self.usual_line(&middle, width, home), width, right),
            EdgeSwap::Left => finished(self.swapped_left(&middle), width, right),
            EdgeSwap::Right => {
                let mut spans = self.left_end(home);
                let ghost left = views::views(spans@);
                let mid = self.middle_span(&middle);
                let used = width_of(&spans).saturating_add(
                    str_width(&mid.content),
                ).saturating_add(str_width(&right.content));
                spans.push(fill(width, used));
                spans.push(mid);
                spans.push(right);
                assert(views::views(spans@) =~= left + seq![gap(width, used), mid@, right@]);
                Line { spans }
            },
        }
    }

    /// Lays out the status line in `area` and notes where its back button is.
    /// There is none on an empty area.
    pub fn draw_statusline(&mut self, area: Rect, home: Option<&str>) -> (r: Option<Line>)
        ensures
            final(self)@ == (if area.width == 0 || area.height == 0 {
                old(self)@
            } else {
                old(self)@.with_back_button(area)
            }),
            views::opt_view(r) == (if area.width == 0 || area.height == 0 {
                None
            } else {
                Some(
                    old(self)@.status_spans(
                        area.width,
                        match home {
                            Some(h) => Some(h@),
                            None => None,
                        },
                    ),
                )
            }),
    {
        if area.width == 0 || area.height == 0 {
            return None;
        }
        let line = self.status_line(area.width, home);
        self.back_button_hit = if self.has_back_badge() {
            Some((area.x, area.x.saturating_add(BACK_COLUMNS)))
        } else {
            None
        };
        Some(line)
    }
}

} // verus!
