//! The state of the program and what each action does to it.
//!
//! Actions that need the outside world (reading a file, opening a browser)
//! change the state as far as they can and hand back an [`Effect`]; the caller
//! performs it and reports what came of it.

use vstd::prelude::*;
use vstd::view::View as _;
use crate::browser;
use crate::browser::Browser;
use crate::bytes;
use crate::diff::{DiffRow, DiffRowKind};
use crate::editor;
use crate::markdown;
use crate::reader;
use crate::reader::Reader;
use crate::search;
use crate::search::Search;
use crate::theme::Theme;
use crate::views;

verus! {

broadcast use crate::views::group_views;

/// What the program is started on.
#[derive(Debug)]
pub enum Source {
    File(String),
    Directory(String),
    Stdin(String),
}

/// Settings for one run.
#[derive(Debug)]
pub struct Options {
    /// Wrap width, zero for the terminal's.
    pub width: u16,
    pub line_numbers: bool,
    pub theme: Theme,
}

/// A rectangle of terminal cells.
#[derive(Clone, Copy, Debug, PartialEq, Eq, Structural)]
pub struct Rect {
    pub x: u16,
    pub y: u16,
    pub width: u16,
    pub height: u16,
}

impl Rect {
    /// Whether the cell at `(col, row)` lies inside.
    pub open spec fn has(self, col: u16, row: u16) -> bool {
        self.x <= col < self.x + self.width && self.y <= row < self.y + self.height
    }

    /// Whether the cell at `(col, row)` lies inside.
    pub fn contains(&self, col: u16, row: u16) -> (r: bool)
        ensures
            r == self.has(col, row),
    {
        col >= self.x && (col as u32) < self.x as u32 + self.width as u32 && row >= self.y && (
        row as u32) < self.y as u32 + self.height as u32
    }
}

/// What a history entry leads back to.
#[derive(Debug)]
pub enum EntryKind {
    File(String),
    Directory(String),
    Stdin(String),
}

/// What an [`EntryKind`] holds.
pub enum KindModel {
    File(Seq<char>),
    Directory(Seq<char>),
    Stdin(Seq<char>),
}

impl vstd::view::View for EntryKind {
    type V = KindModel;

    open spec fn view(&self) -> KindModel {
        match self {
            EntryKind::File(p) => KindModel::File(p@),
            EntryKind::Directory(d) => KindModel::Directory(d@),
            EntryKind::Stdin(t) => KindModel::Stdin(t@),
        }
    }
}

impl Clone for EntryKind {
    fn clone(&self) -> (r: EntryKind)
        ensures
            r@ == self@,
    {
        match self {
            EntryKind::File(p) => EntryKind::File(p.clone()),
            EntryKind::Directory(d) => EntryKind::Directory(d.clone()),
            EntryKind::Stdin(t) => EntryKind::Stdin(t.clone()),
        }
    }
}

/// A place to go back to.
#[derive(Debug)]
pub struct HistoryEntry {
    pub kind: EntryKind,
    pub scroll: u16,
    /// Selected line of a browser; `None` for a document.
    pub selected: Option<usize>,
}

/// What a [`HistoryEntry`] holds.
pub struct HistoryModel {
    pub kind: KindModel,
    pub scroll: u16,
    pub selected: Option<usize>,
}

impl vstd::view::View for HistoryEntry {
    type V = HistoryModel;

    open spec fn view(&self) -> HistoryModel {
        HistoryModel { kind: self.kind@, scroll: self.scroll, selected: self.selected }
    }
}

impl Clone for HistoryEntry {
    fn clone(&self) -> (r: HistoryEntry)
        ensures
            r@ == self@,
    {
        HistoryEntry { kind: self.kind.clone(), scroll: self.scroll, selected: self.selected }
    }
}

/// What the body of the screen shows.
#[derive(Debug)]
pub enum View {
    Reader(Reader),
    Browser(Browser),
}

/// What a [`Browser`] holds.
#[verifier::ext_equal]
pub struct BrowserModel {
    pub dir: Seq<char>,
    pub entries: Seq<browser::EntryView>,
    pub selected: usize,
    pub scroll: u16,
}

impl vstd::view::View for Browser {
    type V = BrowserModel;

    open spec fn view(&self) -> BrowserModel {
        BrowserModel {
            dir: self.dir@,
            entries: views::views(self.entries@),
            selected: self.selected,
            scroll: self.scroll,
        }
    }
}

/// What a [`View`] holds.
pub enum Screen {
    Reader(reader::ReaderModel),
    Browser(BrowserModel),
}

impl vstd::view::View for View {
    type V = Screen;

    open spec fn view(&self) -> Screen {
        match self {
            View::Reader(r) => Screen::Reader(r@),
            View::Browser(b) => Screen::Browser(b@),
        }
    }
}

/// A drag selection. Lines count from the top of the document, so that
/// scrolling does not tear it.
#[derive(Clone, Copy, Debug, PartialEq, Eq, Structural)]
pub struct Selection {
    pub anchor_line: usize,
    pub anchor_col: u16,
    pub focus_line: usize,
    pub focus_col: u16,
    /// True once the mouse has moved by a cell.
    pub dragged: bool,
}

/// Document order of places.
pub open spec fn place_le(a: (usize, u16), b: (usize, u16)) -> bool {
    a.0 < b.0 || (a.0 == b.0 && a.1 <= b.1)
}

impl Selection {
    pub open spec fn anchor(self) -> (usize, u16) {
        (self.anchor_line, self.anchor_col)
    }

    pub open spec fn focus(self) -> (usize, u16) {
        (self.focus_line, self.focus_col)
    }

    /// Start and end in document order.
    pub open spec fn ordered(self) -> ((usize, u16), (usize, u16)) {
        if place_le(self.anchor(), self.focus()) {
            (self.anchor(), self.focus())
        } else {
            (self.focus(), self.anchor())
        }
    }

    /// Start and end in document order, whatever the direction of the drag.
    pub fn normalized(&self) -> (r: ((usize, u16), (usize, u16)))
        ensures
            r == self.ordered(),
            place_le(r.0, r.1),
    {
        let a = (self.anchor_line, self.anchor_col);
        let b = (self.focus_line, self.focus_col);
        if a.0 < b.0 || (a.0 == b.0 && a.1 <= b.1) {
            (a, b)
        } else {
            (b, a)
        }
    }

    /// True if the selection covers anything.
    pub fn is_active(&self) -> (r: bool)
        ensures
            r == (self.dragged && self.anchor() != self.focus()),
    {
        self.dragged && (self.anchor_line != self.focus_line || self.anchor_col != self.focus_col)
    }
}

/// A diff of the open file against the last commit.
#[derive(Debug)]
pub struct GitLensState {
    pub rows: Vec<DiffRow>,
    pub scroll: u16,
}

/// What a [`GitLensState`] holds.
#[verifier::ext_equal]
pub struct LensModel {
    pub rows: Seq<(DiffRowKind, Seq<char>)>,
    pub scroll: u16,
}

impl vstd::view::View for GitLensState {
    type V = LensModel;

    open spec fn view(&self) -> LensModel {
        LensModel { rows: views::views(self.rows@), scroll: self.scroll }
    }
}

/// What a [`Search`] holds.
#[verifier::ext_equal]
pub struct SearchModel {
    pub query: Seq<char>,
    pub results: Seq<search::ResultView>,
    pub selected: usize,
    pub paths: Seq<search::PathView>,
}

impl vstd::view::View for Search {
    type V = SearchModel;

    open spec fn view(&self) -> SearchModel {
        SearchModel {
            query: self.query@,
            results: views::views(self.results@),
            selected: self.selected,
            paths: views::views(self.paths@),
        }
    }
}

impl SearchModel {
    /// The search with another query.
    pub open spec fn with_query(self, q: Seq<char>) -> SearchModel {
        let results = search::found(self.paths, q);
        SearchModel {
            query: q,
            results,
            selected: if self.selected < results.len() {
                self.selected
            } else {
                0
            },
            ..self
        }
    }

    /// The search with the selection moved.
    pub open spec fn moved(self, delta: int) -> SearchModel {
        if self.results.len() == 0 {
            self
        } else {
            SearchModel {
                selected: ((self.selected + delta) % (self.results.len() as int)) as usize,
                ..self
            }
        }
    }
}

/// Why a file is written.
#[derive(Clone, Copy, Debug, PartialEq, Eq, Structural)]
pub enum WriteCause {
    /// An edit is saved.
    Save,
    /// A task marker was flipped, which was checked before or not.
    Toggle { was_checked: bool },
}

/// What the caller has to do after an action.
#[derive(Debug)]
pub enum Effect {
    Nothing,
    /// Read a file or list a directory, then [`App::show_file`] or
    /// [`App::show_dir`].
    Load { kind: EntryKind, scroll: u16, selected: Option<usize> },
    /// Walk the search root, then [`App::show_search`].
    BuildIndex,
    /// Open a URL in the system browser.
    OpenUrl(String),
    /// Open a file with its default program.
    OpenPath(String),
    /// Find the file of a link, then [`App::found`].
    FindFile { path: String, anchor: Option<String> },
    /// Write a file, then [`App::written`].
    WriteFile { path: String, text: String, cause: WriteCause },
    /// Read a file anew, then [`App::restore`].
    ReadBack { path: String },
    /// Diff a file against the last commit, then [`App::show_diff`].
    GitDiff { path: String },
    /// Turn mouse capture on or off.
    MouseCapture(bool),
    /// Put text on the clipboard.
    Copy(String),
    /// Mark a file, or all files under a directory, as read.
    MarkRead { path: String, dir: bool },
}

/// What an [`Effect`] holds.
pub enum EffectModel {
    Nothing,
    Load { kind: KindModel, scroll: u16, selected: Option<usize> },
    BuildIndex,
    OpenUrl(Seq<char>),
    OpenPath(Seq<char>),
    FindFile { path: Seq<char>, anchor: Option<Seq<char>> },
    WriteFile { path: Seq<char>, text: Seq<char>, cause: WriteCause },
    ReadBack { path: Seq<char> },
    GitDiff { path: Seq<char> },
    MouseCapture(bool),
    Copy(Seq<char>),
    MarkRead { path: Seq<char>, dir: bool },
}

impl vstd::view::View for Effect {
    type V = EffectModel;

    open spec fn view(&self) -> EffectModel {
        match self {
            Effect::Nothing => EffectModel::Nothing,
            Effect::Load { kind, scroll, selected } => EffectModel::Load {
                kind: kind@,
                scroll: *scroll,
                selected: *selected,
            },
            Effect::BuildIndex => EffectModel::BuildIndex,
            Effect::OpenUrl(u) => EffectModel::OpenUrl(u@),
            Effect::OpenPath(p) => EffectModel::OpenPath(p@),
            Effect::FindFile { path, anchor } => EffectModel::FindFile {
                path: path@,
                anchor: views::opt_view(*anchor),
            },
            Effect::WriteFile { path, text, cause } => EffectModel::WriteFile {
                path: path@,
                text: text@,
                cause: *cause,
            },
            Effect::ReadBack { path } => EffectModel::ReadBack { path: path@ },
            Effect::GitDiff { path } => EffectModel::GitDiff { path: path@ },
            Effect::MouseCapture(on) => EffectModel::MouseCapture(*on),
            Effect::Copy(t) => EffectModel::Copy(t@),
            Effect::MarkRead { path, dir } => EffectModel::MarkRead { path: path@, dir: *dir },
        }
    }
}

/// The whole state. Times are milliseconds on the caller's clock.
#[derive(Debug)]
pub struct App {
    pub view: View,
    /// Search root, fixed at launch.
    pub root: String,
    pub history: Vec<HistoryEntry>,
    pub forward: Vec<HistoryEntry>,
    pub opts: Options,
    pub help_open: bool,
    pub search: Option<Search>,
    pub should_quit: bool,
    pub status: String,
    /// The body of the screen.
    pub viewport: Rect,
    pub statusline_area: Rect,
    /// Columns of the back button on the status line.
    pub back_button_hit: Option<(u16, u16)>,
    /// Count typed before a motion.
    pub count_prefix: Option<u32>,
    /// When the first key of `gg` was pressed.
    pub pending_g: Option<u64>,
    /// When the first key of `zz` was pressed.
    pub pending_z: Option<u64>,
    /// True when the last input came from the mouse; hides the keyboard focus.
    pub mouse_recent: bool,
    pub last_mouse_col: u16,
    pub last_mouse_row: u16,
    /// Whether mouse events are captured.
    pub mouse_enabled: bool,
    pub selection: Option<Selection>,
    /// The heading anchor to scroll to once the document that a link led to is
    /// rendered.
    pub pending_anchor: Option<String>,
    pub git_lens: Option<GitLensState>,
    /// Time and place of the last left click.
    pub last_click: Option<(u64, u16, u16)>,
    /// A click that fires on release unless a drag begins.
    pub pending_click: Option<(u16, u16)>,
    /// Wheel credit in thousandths of a line.
    pub scroll_accum: i32,
    pub last_scroll_at: Option<u64>,
    /// The panes of a split edit.
    pub edit_raw_area: Rect,
    pub edit_preview_area: Rect,
}

/// What an [`App`] holds.
#[verifier::ext_equal]
pub struct Model {
    pub view: Screen,
    pub root: Seq<char>,
    pub history: Seq<HistoryModel>,
    pub forward: Seq<HistoryModel>,
    pub opts: Options,
    pub help_open: bool,
    pub search: Option<SearchModel>,
    pub should_quit: bool,
    pub status: Seq<char>,
    pub viewport: Rect,
    pub statusline_area: Rect,
    pub back_button_hit: Option<(u16, u16)>,
    pub count_prefix: Option<u32>,
    pub pending_g: Option<u64>,
    pub pending_z: Option<u64>,
    pub mouse_recent: bool,
    pub last_mouse_col: u16,
    pub last_mouse_row: u16,
    pub mouse_enabled: bool,
    pub selection: Option<Selection>,
    pub pending_anchor: Option<Seq<char>>,
    pub git_lens: Option<LensModel>,
    pub last_click: Option<(u64, u16, u16)>,
    pub pending_click: Option<(u16, u16)>,
    pub scroll_accum: i32,
    pub last_scroll_at: Option<u64>,
    pub edit_raw_area: Rect,
    pub edit_preview_area: Rect,
}

impl vstd::view::View for App {
    type V = Model;

    open spec fn view(&self) -> Model {
        Model {
            view: self.view@,
            root: self.root@,
            history: views::views(self.history@),
            forward: views::views(self.forward@),
            opts: self.opts,
            help_open: self.help_open,
            search: views::opt_view(self.search),
            should_quit: self.should_quit,
            status: self.status@,
            viewport: self.viewport,
            statusline_area: self.statusline_area,
            back_button_hit: self.back_button_hit,
            count_prefix: self.count_prefix,
            pending_g: self.pending_g,
            pending_z: self.pending_z,
            mouse_recent: self.mouse_recent,
            last_mouse_col: self.last_mouse_col,
            last_mouse_row: self.last_mouse_row,
            mouse_enabled: self.mouse_enabled,
            selection: self.selection,
            pending_anchor: views::opt_view(self.pending_anchor),
            git_lens: views::opt_view(self.git_lens),
            last_click: self.last_click,
            pending_click: self.pending_click,
            scroll_accum: self.scroll_accum,
            last_scroll_at: self.last_scroll_at,
            edit_raw_area: self.edit_raw_area,
            edit_preview_area: self.edit_preview_area,
        }
    }
}

/// The last `n` rows of `total` that can be scrolled to: as many as do not leave
/// the window half empty.
pub open spec fn max_scroll(total: int, height: int) -> int {
    if total > height {
        total - height
    } else {
        0
    }
}

/// `x` brought into `0..=max`.
pub open spec fn clamped(x: int, max: int) -> int {
    if x < 0 {
        0
    } else if x > max {
        max
    } else {
        x
    }
}

/// `raw` with the task marker at byte `offset` flipped; `None` where no marker
/// can stand.
pub open spec fn toggled(raw: Seq<char>, offset: usize, was_checked: bool) -> Option<Seq<char>> {
    let a = bytes::floor_index(raw, offset as int);
    let b = bytes::floor_index(raw, offset + 3);
    if offset + 3 > bytes::byte_count(raw) || bytes::byte_pos(raw, a) != offset || bytes::byte_pos(
        raw,
        b,
    ) != offset + 3 {
        None
    } else {
        Some(
            editor::replaced(
                raw,
                a,
                b,
                if was_checked {
                    "[ ]"@
                } else {
                    "[x]"@
                },
            ),
        )
    }
}

/// The row of the preview that shows source byte `src`: the first of the last
/// block that begins at or before it.
pub open spec fn block_begins_by(src: usize) -> spec_fn(markdown::BlockSpan) -> bool {
    |b: markdown::BlockSpan| b.source_start <= src
}

pub open spec fn preview_row(rd: markdown::RenderedView, src: usize) -> usize {
    match views::last_where(rd.blocks, block_begins_by(src), rd.blocks.len() as int) {
        Some(i) => rd.blocks[i].display_start,
        None => 0,
    }
}

pub open spec fn block_shown_by(row: usize) -> spec_fn(markdown::BlockSpan) -> bool {
    |b: markdown::BlockSpan| b.display_start <= row
}

/// The source byte that a preview row stands for: the start of the last block
/// that is shown at or above it.
pub open spec fn preview_source(rd: markdown::RenderedView, row: usize) -> usize {
    match views::last_where(rd.blocks, block_shown_by(row), rd.blocks.len() as int) {
        Some(i) => rd.blocks[i].source_start,
        None => 0,
    }
}

/// Finds the preview row of a source byte.
pub fn preview_row_for_source(rd: &markdown::Rendered, src: usize) -> (r: usize)
    ensures
        r == preview_row(rd@, src),
{
    let mut i: usize = rd.blocks.len();
    while i > 0
        invariant
            i <= rd.blocks@.len(),
            views::last_where(rd.blocks@, block_begins_by(src), rd.blocks@.len() as int)
                == views::last_where(rd.blocks@, block_begins_by(src), i as int),
        decreases i,
    {
        if rd.blocks[i - 1].source_start <= src {
            return rd.blocks[i - 1].display_start;
        }
        i = i - 1;
    }
    0
}

/// Finds the source byte of a preview row.
pub fn source_for_preview_row(rd: &markdown::Rendered, row: usize) -> (r: usize)
    ensures
        r == preview_source(rd@, row),
{
    let mut i: usize = rd.blocks.len();
    while i > 0
        invariant
            i <= rd.blocks@.len(),
            views::last_where(rd.blocks@, block_shown_by(row), rd.blocks@.len() as int)
                == views::last_where(rd.blocks@, block_shown_by(row), i as int),
        decreases i,
    {
        if rd.blocks[i - 1].display_start <= row {
            return rd.blocks[i - 1].source_start;
        }
        i = i - 1;
    }
    0
}

} // verus!
