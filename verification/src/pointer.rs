//! What the mouse does.

use vstd::prelude::*;
use crate::actions;
use crate::actions::{clamp_shift, joined, max_scroll, to_scroll};
use crate::app;
use crate::app::{preview_row_for_source, source_for_preview_row, App, Effect, Rect, Selection};
use crate::bytes;
use crate::bytes::{chars_of, find_col, locate, offset_of};
use crate::links;
use crate::markdown;
use crate::markdown::Rendered;
use crate::raw;
use crate::raw::{raw_click_to_source, raw_row_for_cursor, render_raw_pane};
use crate::reader;
use crate::reader::{EditMode, Focus};
use crate::scroll;
use crate::scroll::{compute_dampened_scroll, min_scroll};
use crate::search;
use crate::search::text_of_line;
use crate::selection;
use crate::selection::{extract_selection_text, word_at_col};
use crate::text;
use crate::text::decimal_text;
use crate::views;

verus! {

broadcast use crate::views::group_views;

/// A mouse button.
#[derive(Clone, Copy, Debug, PartialEq, Eq, Structural)]
pub enum Button {
    Left,
    Right,
    Middle,
}

/// What the mouse did.
#[derive(Clone, Copy, Debug, PartialEq, Eq, Structural)]
pub enum MouseKind {
    Down(Button),
    Up(Button),
    Drag(Button),
    Moved,
    ScrollUp,
    ScrollDown,
    ScrollLeft,
    ScrollRight,
}

/// A mouse event at a cell of the screen.
#[derive(Clone, Copy, Debug, PartialEq, Eq, Structural)]
pub struct MouseInput {
    pub kind: MouseKind,
    pub column: u16,
    pub row: u16,
}

/// Lines that a wheel notch stands for.
pub const NOTCH: i32 = 3;

/// Two clicks on a cell within this time are a double click.
pub const DOUBLE_CLICK_MS: u64 = 450;

// ---------------------------------------------------------------------------
// Source positions
// ---------------------------------------------------------------------------

/// The blocks that show a line.
pub open spec fn block_shows(line: usize) -> spec_fn(markdown::BlockSpan) -> bool {
    |b: markdown::BlockSpan| b.display_start <= line < b.display_end
}

/// The source byte at a display line and column. A line that shows source maps
/// character by character; any other stands for the start of its block.
pub open spec fn source_at(
    rd: markdown::RenderedView,
    source: Seq<char>,
    line: usize,
    col: usize,
) -> Option<int> {
    if line < rd.row_source.len() && rd.row_source[line as int] is Some {
        let (start, end) = rd.row_source[line as int]->0;
        let a = bytes::floor_index(source, start as int);
        let b = bytes::floor_index(source, end as int);
        if start <= end && bytes::byte_pos(source, a) == start && bytes::byte_pos(source, b)
            == end {
            Some(
                bytes::byte_pos(
                    source,
                    a + bytes::col_index(source.subrange(a, b), 0, 0, col as int),
                ),
            )
        } else {
            None
        }
    } else {
        match views::first_where(rd.blocks, block_shows(line), 0) {
            Some(i) => Some(rd.blocks[i].source_start as int),
            None => None,
        }
    }
}

/// Finds the source byte at a display line and column.
pub fn xy_to_source_offset(rd: &Rendered, source: &str, line: usize, col: usize) -> (r: Option<
    usize,
>)
    ensures
        links::as_index(r) == source_at(rd@, source@, line, col),
{
    if line < rd.row_source.len() {
        if let Some((start, end)) = rd.row_source[line] {
            let cs = chars_of(source);
            let (a, ab) = locate(&cs, start);
            let (b, bb) = locate(&cs, end);
            if start > end || ab != start || bb != end {
                return None;
            }
            proof {
                if b < a {
                    bytes::lemma_byte_pos_monotone(cs@, b as int, a as int);
                }
            }
            let k = find_col(&cs, a, b, col);
            return Some(offset_of(&cs, k));
        }
    }
    let mut i: usize = 0;
    while i < rd.blocks.len()
        invariant
            line < rd.row_source@.len() ==> rd.row_source@[line as int] is None,
            i <= rd.blocks@.len(),
            views::first_where(rd.blocks@, block_shows(line), 0) == views::first_where(
                rd.blocks@,
                block_shows(line),
                i as int,
            ),
        decreases rd.blocks@.len() - i,
    {
        let b = &rd.blocks[i];
        if b.display_start <= line && line < b.display_end {
            return Some(b.source_start);
        }
        i = i + 1;
    }
    None
}

// ---------------------------------------------------------------------------
// Split edits
// ---------------------------------------------------------------------------

/// A size, at least one.
pub open spec fn at_least_one(n: u16) -> int {
    if n > 1 {
        n as int
    } else {
        1
    }
}

fn one_or(n: u16) -> (r: usize)
    ensures
        r == at_least_one(n),
{
    if n > 1 {
        n as usize
    } else {
        1
    }
}

impl app::Model {
    /// Whether the document is edited beside its preview.
    pub open spec fn in_split(self) -> bool {
        match self.doc() {
            Some(r) => r.edit is Some && r.edit->0.mode is Split,
            None => false,
        }
    }

    /// The rows of the source pane.
    pub open spec fn raw_pane(self, r: reader::ReaderModel) -> Seq<raw::RawRowView> {
        raw::raw_rows(r.raw, at_least_one(self.edit_raw_area.width))
    }

    /// The last scroll position of a pane.
    pub open spec fn pane_end(rows: int, area: Rect) -> int {
        app::max_scroll(rows, at_least_one(area.height))
    }

    /// Scrolls the source pane; the preview follows to the block at its top.
    pub open spec fn raw_scrolled(self, delta: int) -> app::Model {
        match self.doc() {
            Some(r) => {
                let rows = self.raw_pane(r);
                let new = actions::scroll_of(
                    app::clamped(
                        r.scroll + delta,
                        Self::pane_end(rows.len() as int, self.edit_raw_area),
                    ),
                );
                self.with_doc(
                    reader::ReaderModel {
                        scroll: new,
                        preview_scroll: match r.rendered {
                            Some(rd) => if new < rows.len() {
                                scroll::lower(
                                    actions::scroll_of(
                                        app::preview_row(rd, rows[new as int].start as usize)
                                            as int,
                                    ),
                                    actions::scroll_of(
                                        Self::pane_end(
                                            rd.lines.len() as int,
                                            self.edit_preview_area,
                                        ),
                                    ),
                                )
                            } else {
                                r.preview_scroll
                            },
                            None => r.preview_scroll,
                        },
                        ..r
                    },
                )
            },
            None => self,
        }
    }

    /// Scrolls the preview; the source pane follows to the block at its top.
    pub open spec fn preview_scrolled(self, delta: int) -> app::Model {
        match self.doc() {
            Some(r) => match r.rendered {
                Some(rd) => {
                    let new = actions::scroll_of(
                        app::clamped(
                            r.preview_scroll + delta,
                            Self::pane_end(rd.lines.len() as int, self.edit_preview_area),
                        ),
                    );
                    let rows = self.raw_pane(r);
                    let src = app::preview_source(rd, new as usize);
                    self.with_doc(
                        reader::ReaderModel {
                            preview_scroll: new,
                            scroll: scroll::lower(
                                actions::scroll_of(raw::cursor_row(rows, src)),
                                actions::scroll_of(
                                    Self::pane_end(rows.len() as int, self.edit_raw_area),
                                ),
                            ),
                            ..r
                        },
                    )
                },
                None => self,
            },
            None => self,
        }
    }

    /// Puts the edit cursor at a source byte and has the document rendered anew.
    pub open spec fn cursor_set(self, to: usize) -> app::Model {
        match self.doc() {
            Some(r) => match r.edit {
                Some(e) => self.with_doc(
                    r.with_edit(reader::EditModel { cursor: to, discard_pending: false, ..e }),
                ),
                None => self,
            },
            None => self,
        }
    }

    /// Puts the edit cursor where the source pane was clicked.
    pub open spec fn raw_clicked(self, col: u16, row: u16) -> app::Model {
        let area = self.edit_raw_area;
        match self.doc() {
            Some(r) if area.has(col, row) => self.cursor_set(
                raw::clicked(
                    self.raw_pane(r),
                    (r.scroll + row - area.y) as usize,
                    (col - area.x) as usize,
                ),
            ),
            _ => self,
        }
    }

    /// Puts the edit cursor at the start of the block that was clicked in the
    /// preview.
    pub open spec fn preview_clicked(self, col: u16, row: u16) -> app::Model {
        let area = self.edit_preview_area;
        match self.doc() {
            Some(r) if area.has(col, row) => match r.rendered {
                Some(rd) => self.cursor_set(
                    app::preview_source(rd, (r.preview_scroll + row - area.y) as usize),
                ),
                None => self,
            },
            _ => self,
        }
    }

    /// What the mouse does during a split edit.
    pub open spec fn split_mouse(self, m: MouseInput, now: u64) -> app::Model {
        match m.kind {
            MouseKind::ScrollUp | MouseKind::ScrollDown => {
                let requested: int = if m.kind is ScrollUp {
                    -NOTCH
                } else {
                    NOTCH as int
                };
                let (lines, left) = scroll::dampened(
                    self.last_scroll_at,
                    self.scroll_accum as int,
                    requested,
                    now,
                );
                let ticked = app::Model {
                    scroll_accum: left as i32,
                    last_scroll_at: Some(now),
                    ..self
                };
                if lines == 0 {
                    ticked
                } else if self.edit_preview_area.has(m.column, m.row) {
                    ticked.preview_scrolled(lines)
                } else {
                    ticked.raw_scrolled(lines)
                }
            },
            MouseKind::Down(Button::Left) => if self.edit_raw_area.has(m.column, m.row) {
                self.raw_clicked(m.column, m.row)
            } else {
                self.preview_clicked(m.column, m.row)
            },
            _ => self,
        }
    }
}

impl App {
    fn in_split_edit(&self) -> (r: bool)
        ensures
            r == self@.in_split(),
    {
        match &self.view {
            app::View::Reader(r) => match &r.edit {
                Some(e) => matches!(e.mode, EditMode::Split),
                None => false,
            },
            app::View::Browser(_) => false,
        }
    }

    fn split_scroll_raw(&mut self, delta: i32)
        ensures
            final(self)@ == old(self)@.raw_scrolled(delta as int),
    {
        let raw_w = one_or(self.edit_raw_area.width);
        let raw_h = one_or(self.edit_raw_area.height);
        let prev_h = one_or(self.edit_preview_area.height);
        match &mut self.view {
            app::View::Reader(r) => {
                let rows = render_raw_pane(&r.raw, raw_w);
                let new = to_scroll(
                    clamp_shift(r.scroll as usize, delta as i64, max_scroll(rows.len(), raw_h)),
                );
                r.scroll = new;
                if (new as usize) < rows.len() {
                    let src = rows[new as usize].start;
                    match &r.rendered {
                        Some(rd) => {
                            let row = preview_row_for_source(rd, src);
                            let max = max_scroll(rd.lines.len(), prev_h);
                            r.preview_scroll = min_scroll(to_scroll(row), to_scroll(max));
                        },
                        None => {},
                    }
                }
            },
            app::View::Browser(_) => {},
        }
    }

    fn split_scroll_preview(&mut self, delta: i32)
        ensures
            final(self)@ == old(self)@.preview_scrolled(delta as int),
    {
        let raw_w = one_or(self.edit_raw_area.width);
        let raw_h = one_or(self.edit_raw_area.height);
        let prev_h = one_or(self.edit_preview_area.height);
        match &mut self.view {
            app::View::Reader(r) => match &r.rendered {
                Some(rd) => {
                    let new = to_scroll(
                        clamp_shift(
                            r.preview_scroll as usize,
                            delta as i64,
                            max_scroll(rd.lines.len(), prev_h),
                        ),
                    );
                    let src = source_for_preview_row(rd, new as usize);
                    let rows = render_raw_pane(&r.raw, raw_w);
                    let row = raw_row_for_cursor(&rows, src);
                    let max = max_scroll(rows.len(), raw_h);
                    r.preview_scroll = new;
                    r.scroll = min_scroll(to_scroll(row), to_scroll(max));
                },
                None => {},
            },
            app::View::Browser(_) => {},
        }
    }

    fn set_cursor(&mut self, to: usize)
        ensures
            final(self)@ == old(self)@.cursor_set(to),
    {
        match &mut self.view {
            app::View::Reader(r) => match &mut r.edit {
                Some(e) => {
                    e.cursor = to;
                    e.discard_pending = false;
                    r.rendered = None;
                },
                None => {},
            },
            app::View::Browser(_) => {},
        }
    }

    fn split_click_raw(&mut self, col: u16, row: u16)
        ensures
            final(self)@ == old(self)@.raw_clicked(col, row),
    {
        let area = self.edit_raw_area;
        if !area.contains(col, row) {
            return ;
        }
        let to = match &self.view {
            app::View::Reader(r) => {
                let rows = render_raw_pane(&r.raw, one_or(area.width));
                raw_click_to_source(
                    &rows,
                    r.scroll as usize + (row - area.y) as usize,
                    (col - area.x) as usize,
                )
            },
            app::View::Browser(_) => {
                return ;
            },
        };
        self.set_cursor(to);
    }

    fn split_click_preview(&mut self, col: u16, row: u16)
        ensures
            final(self)@ == old(self)@.preview_clicked(col, row),
    {
        let area = self.edit_preview_area;
        if !area.contains(col, row) {
            return ;
        }
        let to = match &self.view {
            app::View::Reader(r) => match &r.rendered {
                Some(rd) => source_for_preview_row(
                    rd,
                    r.preview_scroll as usize + (row - area.y) as usize,
                ),
                None => {
                    return ;
                },
            },
            app::View::Browser(_) => {
                return ;
            },
        };
        self.set_cursor(to);
    }

    fn handle_split_mouse(&mut self, m: MouseInput, now: u64)
        ensures
            final(self)@ == old(self)@.split_mouse(m, now),
    {
        let in_raw = self.edit_raw_area.contains(m.column, m.row);
        let in_preview = self.edit_preview_area.contains(m.column, m.row);
        match m.kind {
            MouseKind::ScrollUp | MouseKind::ScrollDown => {
                let requested: i32 = if matches!(m.kind, MouseKind::ScrollUp) {
                    -NOTCH
                } else {
                    NOTCH
                };
                let lines = compute_dampened_scroll(
                    &mut self.last_scroll_at,
                    &mut self.scroll_accum,
                    requested,
                    now,
                );
                if lines == 0 {
                    return ;
                }
                if in_preview {
                    self.split_scroll_preview(lines);
                } else {
                    self.split_scroll_raw(lines);
                }
            },
            MouseKind::Down(Button::Left) => {
                if in_raw {
                    self.split_click_raw(m.column, m.row);
                } else if in_preview {
                    self.split_click_preview(m.column, m.row);
                }
            },
            _ => {},
        }
    }
}

// ---------------------------------------------------------------------------
// Hovering and clicking
// ---------------------------------------------------------------------------

/// An index as a machine number.
pub open spec fn index_of(i: Option<int>) -> Option<usize> {
    match i {
        Some(i) => Some(i as usize),
        None => None,
    }
}

impl app::Model {
    /// Line of the content that is shown on a row of the screen.
    pub open spec fn line_at(self, row: u16) -> usize {
        (self.top() + app::max_scroll(row as int, self.viewport.y as int)) as usize
    }

    /// Column of the content at a column of the screen; `None` left of it.
    pub open spec fn col_at(self, col: u16) -> Option<usize> {
        if col >= self.viewport.x + self.gutter() {
            Some((col - self.viewport.x - self.gutter()) as usize)
        } else {
            None
        }
    }

    /// Notes what the mouse is over.
    pub open spec fn hovered(self, col: u16, row: u16) -> app::Model {
        match self.doc() {
            Some(r) => match r.rendered {
                Some(rd) => self.with_doc(
                    match self.col_at(col) {
                        Some(c) => reader::ReaderModel {
                            hover_link: index_of(
                                views::first_where(
                                    rd.links,
                                    links::link_covers(self.line_at(row), c),
                                    0,
                                ),
                            ),
                            hover_checkbox: index_of(
                                views::first_where(
                                    rd.boxes,
                                    links::box_covers(self.line_at(row), c),
                                    0,
                                ),
                            ),
                            ..r
                        },
                        None => reader::ReaderModel {
                            hover_link: None,
                            hover_checkbox: None,
                            ..r
                        },
                    },
                ),
                None => self,
            },
            None => self,
        }
    }

    /// What a click into the document does: it places the cursor of an edit,
    /// flips a task marker or follows a link.
    pub open spec fn doc_clicked(
        self,
        r: reader::ReaderModel,
        rd: markdown::RenderedView,
        line: usize,
        col: usize,
    ) -> (app::Model, app::EffectModel) {
        if r.edit is Some {
            (
                match source_at(rd, r.raw, line, col) {
                    Some(to) => self.cursor_set(to as usize),
                    None => self,
                },
                app::EffectModel::Nothing,
            )
        } else {
            match views::first_where(rd.boxes, links::box_covers(line, col), 0) {
                Some(i) => self.toggle(i as usize),
                None => match views::first_where(rd.links, links::link_covers(line, col), 0) {
                    Some(i) => self.with_doc(
                        reader::ReaderModel { focus: Some(Focus::Link(i as usize)), ..r },
                    ).follow(rd.links[i].target),
                    None => (self, app::EffectModel::Nothing),
                },
            }
        }
    }

    /// What a click does. In a list it opens the entry under the mouse; the first
    /// row of the body is the title.
    pub open spec fn clicked(self, col: u16, row: u16) -> (app::Model, app::EffectModel) {
        match self.view {
            app::Screen::Reader(r) => match (r.rendered, self.col_at(col)) {
                (Some(rd), Some(c)) => self.doc_clicked(r, rd, self.line_at(row), c),
                _ => (self, app::EffectModel::Nothing),
            },
            app::Screen::Browser(b) => {
                let i = app::max_scroll(app::max_scroll(row as int, self.viewport.y as int), 1)
                    + b.scroll;
                if i < b.entries.len() {
                    self.with_list(
                        app::BrowserModel { selected: i as usize, ..b },
                    ).entered(b.entries[i])
                } else {
                    (self, app::EffectModel::Nothing)
                }
            },
        }
    }

    /// Copies the word under a cell.
    pub open spec fn word_taken(self, col: u16, row: u16) -> (app::Model, app::EffectModel) {
        match self.doc() {
            Some(r) => match (r.rendered, self.col_at(col)) {
                (Some(rd), Some(c)) => if self.viewport.has(col, row) && self.line_at(row)
                    < rd.lines.len() {
                    match selection::word_at(
                        search::line_text(rd.lines[self.line_at(row) as int]),
                        c as int,
                    ) {
                        Some(w) => (self.told("Copied: "@ + w), app::EffectModel::Copy(w)),
                        None => (self, app::EffectModel::Nothing),
                    }
                } else {
                    (self, app::EffectModel::Nothing)
                },
                _ => (self, app::EffectModel::Nothing),
            },
            None => (self, app::EffectModel::Nothing),
        }
    }

    /// Whether a press at `now` on a cell is the second of a double click.
    pub open spec fn is_double(self, col: u16, row: u16, now: u64) -> bool {
        match self.last_click {
            Some((t, c, r)) => now <= t + DOUBLE_CLICK_MS && c == col && r == row,
            None => false,
        }
    }

    /// The left button goes down: a double click takes the word, anything else may
    /// become a click or a selection.
    pub open spec fn pressed(self, col: u16, row: u16, now: u64) -> (
        app::Model,
        app::EffectModel,
    ) {
        let noted = app::Model { last_click: Some((now, col, row)), ..self };
        if self.is_double(col, row, now) {
            let (taken, e) = noted.word_taken(col, row);
            (app::Model { pending_click: None, selection: None, ..taken }, e)
        } else {
            (
                app::Model {
                    pending_click: Some((col, row)),
                    selection: match self.place_at(col, row) {
                        Some((line, c)) => Some(
                            Selection {
                                anchor_line: line,
                                anchor_col: c,
                                focus_line: line,
                                focus_col: c,
                                dragged: false,
                            },
                        ),
                        None => self.selection,
                    },
                    ..noted
                },
                app::EffectModel::Nothing,
            )
        }
    }

    /// The mouse moves with the left button down: a selection grows, and the click
    /// that could have been is dropped.
    pub open spec fn dragged(self, col: u16, row: u16) -> app::Model {
        match (self.place_at(col, row), self.selection) {
            (Some((line, c)), Some(s)) => {
                let moved = Selection { focus_line: line, focus_col: c, ..s };
                if !s.dragged && moved.anchor() != moved.focus() {
                    app::Model {
                        selection: Some(Selection { dragged: true, ..moved }),
                        pending_click: None,
                        ..self
                    }
                } else {
                    app::Model { selection: Some(moved), ..self }
                }
            },
            _ => self,
        }
    }

    /// The text under the selection, if it covers any.
    pub open spec fn picked(self) -> Option<Seq<char>> {
        match (self.selection, self.doc()) {
            (Some(s), Some(r)) => if s.dragged && s.anchor() != s.focus() {
                match r.selected_text(s) {
                    Some(t) => if t.len() > 0 {
                        Some(t)
                    } else {
                        None
                    },
                    None => None,
                }
            } else {
                None
            },
            _ => None,
        }
    }

    /// The left button goes up: a selection is copied, otherwise the pending click
    /// happens.
    pub open spec fn released(self) -> (app::Model, app::EffectModel) {
        let m = app::Model { selection: None, pending_click: None, ..self };
        match self.picked() {
            Some(t) => (
                m.told("Copied "@ + text::decimal(t.len()) + " chars"@),
                app::EffectModel::Copy(t),
            ),
            None => match self.pending_click {
                Some((col, row)) => m.clicked(col, row),
                None => (m, app::EffectModel::Nothing),
            },
        }
    }

    /// What the mouse does in and around the body.
    pub open spec fn body_mouse(self, m: MouseInput, now: u64) -> (app::Model, app::EffectModel) {
        match m.kind {
            MouseKind::ScrollUp => (self.wheeled(-NOTCH, now), app::EffectModel::Nothing),
            MouseKind::ScrollDown => (self.wheeled(NOTCH as int, now), app::EffectModel::Nothing),
            _ => if !self.viewport.has(m.column, m.row) {
                (self, app::EffectModel::Nothing)
            } else {
                match m.kind {
                    MouseKind::Moved => (
                        self.hovered(m.column, m.row),
                        app::EffectModel::Nothing,
                    ),
                    MouseKind::Down(Button::Left) => self.pressed(m.column, m.row, now),
                    MouseKind::Drag(Button::Left) => (
                        self.dragged(m.column, m.row),
                        app::EffectModel::Nothing,
                    ),
                    MouseKind::Up(Button::Left) => self.released(),
                    _ => (self, app::EffectModel::Nothing),
                }
            },
        }
    }

    /// Whether the back button is under the mouse.
    pub open spec fn on_back_button(self, col: u16, row: u16) -> bool {
        match self.back_button_hit {
            Some((from, to)) => row == self.statusline_area.y && from <= col < to,
            None => false,
        }
    }

    /// What the mouse does. The back button comes first, then the file search,
    /// which takes the wheel and nothing else, then a split edit, then the body.
    pub open spec fn mouse(self, m: MouseInput, now: u64) -> (app::Model, app::EffectModel) {
        let s = match m.kind {
            MouseKind::ScrollLeft | MouseKind::ScrollRight => self,
            _ => app::Model {
                mouse_recent: true,
                last_mouse_col: m.column,
                last_mouse_row: m.row,
                ..self
            },
        };
        if m.kind == MouseKind::Down(Button::Left) && s.on_back_button(m.column, m.row) {
            s.back()
        } else {
            match s.search {
                Some(f) => (
                    match m.kind {
                        MouseKind::ScrollUp => app::Model { search: Some(f.moved(-1)), ..s },
                        MouseKind::ScrollDown => app::Model { search: Some(f.moved(1)), ..s },
                        _ => s,
                    },
                    app::EffectModel::Nothing,
                ),
                None => if s.in_split() {
                    (s.split_mouse(m, now), app::EffectModel::Nothing)
                } else {
                    s.body_mouse(m, now)
                },
            }
        }
    }
}

impl App {
    fn content_line(&self, row: u16) -> (r: usize)
        ensures
            r == self@.line_at(row),
            r <= 0x1_fffe,
    {
        let top: usize = match &self.view {
            app::View::Reader(r) => r.scroll as usize,
            app::View::Browser(b) => b.scroll as usize,
        };
        top + max_scroll(row as usize, self.viewport.y as usize)
    }

    fn content_col(&self, col: u16) -> (r: Option<usize>)
        ensures
            r == self@.col_at(col),
    {
        let left = self.viewport.x as usize + self.gutter();
        if col as usize >= left {
            Some(col as usize - left)
        } else {
            None
        }
    }

    /// Notes what the mouse is over.
    pub fn update_hover(&mut self, col: u16, row: u16)
        ensures
            final(self)@ == old(self)@.hovered(col, row),
    {
        let line = self.content_line(row);
        let at = self.content_col(col);
        match &mut self.view {
            app::View::Reader(r) => match &r.rendered {
                Some(rd) => match at {
                    Some(c) => {
                        r.hover_link = rd.link_map.at(line, c);
                        r.hover_checkbox = rd.checkbox_map.at(line, c);
                    },
                    None => {
                        r.hover_link = None;
                        r.hover_checkbox = None;
                    },
                },
                None => {},
            },
            app::View::Browser(_) => {},
        }
    }

    /// What a click does.
    pub fn click_at(&mut self, col: u16, row: u16) -> (e: Effect)
        ensures
            (final(self)@, e@) == old(self)@.clicked(col, row),
    {
        let line = self.content_line(row);
        let at = self.content_col(col);
        let row_in_body = max_scroll(row as usize, self.viewport.y as usize);
        match &mut self.view {
            app::View::Reader(r) => match (&r.rendered, at) {
                (Some(rd), Some(c)) => {
                    if r.edit.is_some() {
                        let to = xy_to_source_offset(rd, &r.raw, line, c);
                        match to {
                            Some(to) => {
                                self.set_cursor(to);
                            },
                            None => {},
                        }
                        return Effect::Nothing;
                    }
                    let hit = rd.checkbox_map.at(line, c);
                    match hit {
                        Some(i) => {
                            return self.toggle_checkbox(i);
                        },
                        None => {},
                    }
                    match rd.link_map.at(line, c) {
                        Some(i) => {
                            proof {
                                views::lemma_first_where(
                                    rd@.links,
                                    links::link_covers(line, c),
                                    0,
                                );
                            }
                            let target = rd.link_map.links[i].target.clone();
                            r.focus = Some(Focus::Link(i));
                            self.follow(target)
                        },
                        None => Effect::Nothing,
                    }
                },
                _ => Effect::Nothing,
            },
            app::View::Browser(b) => {
                let i = row_in_body.saturating_sub(1) + b.scroll as usize;
                if i < b.entries.len() {
                    b.selected = i;
                    let entry = b.entries[i].clone();
                    self.activate_browser_entry(entry)
                } else {
                    Effect::Nothing
                }
            },
        }
    }

    /// Copies the word under a cell.
    pub fn select_word_at(&mut self, col: u16, row: u16) -> (e: Effect)
        ensures
            (final(self)@, e@) == old(self)@.word_taken(col, row),
    {
        if !self.viewport.contains(col, row) {
            return Effect::Nothing;
        }
        let line = self.content_line(row);
        let at = self.content_col(col);
        let word = match &self.view {
            app::View::Reader(r) => match (&r.rendered, at) {
                (Some(rd), Some(c)) => if line < rd.lines.len() {
                    word_at_col(&text_of_line(&rd.lines[line]), c)
                } else {
                    None
                },
                _ => None,
            },
            app::View::Browser(_) => None,
        };
        match word {
            Some(w) => {
                self.status = joined("Copied: ", &w);
                Effect::Copy(w)
            },
            None => Effect::Nothing,
        }
    }

    fn press(&mut self, col: u16, row: u16, now: u64) -> (e: Effect)
        ensures
            (final(self)@, e@) == old(self)@.pressed(col, row, now),
    {
        let double = match self.last_click {
            Some((t, c, r)) => (now <= t || now - t <= DOUBLE_CLICK_MS) && c == col && r == row,
            None => false,
        };
        self.last_click = Some((now, col, row));
        if double {
            let e = self.select_word_at(col, row);
            self.pending_click = None;
            self.selection = None;
            return e;
        }
        self.pending_click = Some((col, row));
        match self.body_pos(col, row) {
            Some((line, c)) => {
                self.selection = Some(
                    Selection {
                        anchor_line: line,
                        anchor_col: c,
                        focus_line: line,
                        focus_col: c,
                        dragged: false,
                    },
                );
            },
            None => {},
        }
        Effect::Nothing
    }

    fn drag(&mut self, col: u16, row: u16)
        ensures
            final(self)@ == old(self)@.dragged(col, row),
    {
        match self.body_pos(col, row) {
            Some((line, c)) => match &mut self.selection {
                Some(s) => {
                    s.focus_line = line;
                    s.focus_col = c;
                    if !s.dragged && (s.anchor_line != line || s.anchor_col != c) {
                        s.dragged = true;
                        self.pending_click = None;
                    }
                },
                None => {},
            },
            None => {},
        }
    }

    fn picked_text(&self) -> (r: Option<String>)
        ensures
            views::opt_view(r) == self@.picked(),
    {
        let s = match &self.selection {
            Some(s) => s,
            None => {
                return None;
            },
        };
        if !s.is_active() {
            return None;
        }
        match &self.view {
            app::View::Reader(r) => match &r.rendered {
                Some(rd) => {
                    let t = extract_selection_text(rd, s);
                    if t.as_str().is_empty() {
                        None
                    } else {
                        Some(t)
                    }
                },
                None => None,
            },
            app::View::Browser(_) => None,
        }
    }

    fn release(&mut self) -> (e: Effect)
        ensures
            (final(self)@, e@) == old(self)@.released(),
    {
        let picked = self.picked_text();
        self.selection = None;
        let click = self.pending_click;
        self.pending_click = None;
        match picked {
            Some(t) => {
                let n = text::to_chars(&t).len();
                let mut told = joined("Copied ", &decimal_text(n as u64));
                told.push_str(" chars");
                self.status = told;
                Effect::Copy(t)
            },
            None => match click {
                Some((col, row)) => self.click_at(col, row),
                None => Effect::Nothing,
            },
        }
    }

    fn handle_body_mouse(&mut self, m: MouseInput, now: u64) -> (e: Effect)
        ensures
            (final(self)@, e@) == old(self)@.body_mouse(m, now),
    {
        match m.kind {
            MouseKind::ScrollUp => {
                self.wheel_scroll(-NOTCH, now);
                return Effect::Nothing;
            },
            MouseKind::ScrollDown => {
                self.wheel_scroll(NOTCH, now);
                return Effect::Nothing;
            },
            _ => {},
        }
        if !self.viewport.contains(m.column, m.row) {
            return Effect::Nothing;
        }
        match m.kind {
            MouseKind::Moved => {
                self.update_hover(m.column, m.row);
                Effect::Nothing
            },
            MouseKind::Down(Button::Left) => self.press(m.column, m.row, now),
            MouseKind::Drag(Button::Left) => {
                self.drag(m.column, m.row);
                Effect::Nothing
            },
            MouseKind::Up(Button::Left) => self.release(),
            _ => Effect::Nothing,
        }
    }

    /// Reacts to a mouse event at `now`.
    pub fn handle_mouse(&mut self, m: MouseInput, now: u64) -> (e: Effect)
        ensures
            (final(self)@, e@) == old(self)@.mouse(m, now),
    {
        match m.kind {
            MouseKind::ScrollLeft | MouseKind::ScrollRight => {},
            _ => {
                self.mouse_recent = true;
                self.last_mouse_col = m.column;
                self.last_mouse_row = m.row;
            },
        }
        if m.kind == MouseKind::Down(Button::Left) && m.row == self.statusline_area.y {
            match self.back_button_hit {
                Some((from, to)) => {
                    if m.column >= from && m.column < to {
                        return self.go_back();
                    }
                },
                None => {},
            }
        }
        match &mut self.search {
            Some(s) => {
                match m.kind {
                    MouseKind::ScrollUp => {
                        s.move_selection(-1);
                    },
                    MouseKind::ScrollDown => {
                        s.move_selection(1);
                    },
                    _ => {},
                }
                return Effect::Nothing;
            },
            None => {},
        }
        if self.in_split_edit() {
            self.handle_split_mouse(m, now);
            return Effect::Nothing;
        }
        self.handle_body_mouse(m, now)
    }
}

} // verus!
