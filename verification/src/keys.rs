//! What the keyboard does.

use vstd::prelude::*;
use crate::actions::joined;
use crate::app;
use crate::app::{App, Effect, EntryKind};
use crate::browser::BrowserEntryKind;
use crate::links;
use crate::links::LinkTarget;
use crate::paths;
use crate::paths::is_markdown_file;
use crate::reader;
use crate::reader::Focus;
use crate::scroll::ViewportTarget;
use crate::search;
use crate::search::SearchResult;
use crate::views;

verus! {

broadcast use crate::views::group_views;

/// A key.
#[derive(Clone, Copy, Debug, PartialEq, Eq, Structural)]
pub enum KeyCode {
    Char(char),
    Esc,
    Enter,
    Tab,
    BackTab,
    Backspace,
    Delete,
    Left,
    Right,
    Up,
    Down,
    Home,
    End,
    PageUp,
    PageDown,
    /// Any key without a meaning here.
    Other,
}

/// A key press.
#[derive(Clone, Copy, Debug, PartialEq, Eq, Structural)]
pub struct KeyInput {
    pub code: KeyCode,
    pub ctrl: bool,
    pub alt: bool,
}

/// Time within which the second key of a chord must follow.
pub const CHORD_TIMEOUT_MS: u64 = 700;

/// The largest count that can be typed.
pub const COUNT_LIMIT: u32 = 99_999;

impl KeyInput {
    /// Whether this is Ctrl and a letter.
    pub open spec fn is_ctrl(self, c: char) -> bool {
        self.ctrl && self.code == KeyCode::Char(c)
    }

    fn with_ctrl(&self, c: char) -> (r: bool)
        ensures
            r == self.is_ctrl(c),
    {
        self.ctrl && self.code == KeyCode::Char(c)
    }
}

// ---------------------------------------------------------------------------
// Opening what is selected
// ---------------------------------------------------------------------------

impl app::Model {
    /// Opens a result of the file search.
    pub open spec fn result_opened(self, r: search::ResultView) -> (
        app::Model,
        app::EffectModel,
    ) {
        if r.is_dir {
            self.navigate(app::KindModel::Directory(r.path), 0)
        } else if paths::is_markdown_path(r.path) {
            self.navigate(app::KindModel::File(r.path), 0)
        } else {
            self.external(r.path)
        }
    }

    /// Opens the selected entry of the list.
    pub open spec fn selected_opened(self) -> (app::Model, app::EffectModel) {
        match self.view {
            app::Screen::Browser(b) => if b.selected < b.entries.len() {
                self.entered(b.entries[b.selected as int])
            } else {
                (self, app::EffectModel::Nothing)
            },
            app::Screen::Reader(_) => (self, app::EffectModel::Nothing),
        }
    }

    /// The target of the focused link.
    pub open spec fn focused_target(self) -> Option<links::TargetView> {
        match self.doc() {
            Some(r) => match (r.focus, r.rendered) {
                (Some(Focus::Link(i)), Some(rd)) => if i < rd.links.len() {
                    Some(rd.links[i as int].target)
                } else {
                    None
                },
                _ => None,
            },
            None => None,
        }
    }

    /// Follows the focused link, flips the focused task marker, or opens the
    /// selected entry.
    pub open spec fn activated(self) -> (app::Model, app::EffectModel) {
        match self.view {
            app::Screen::Reader(r) => match r.focus {
                Some(Focus::Link(_)) => match self.focused_target() {
                    Some(t) => self.follow(t),
                    None => (self, app::EffectModel::Nothing),
                },
                Some(Focus::Checkbox(i)) => self.toggle(i),
                None => (self, app::EffectModel::Nothing),
            },
            app::Screen::Browser(_) => self.selected_opened(),
        }
    }

    /// Opens the focused link in the system browser, if it is a URL.
    pub open spec fn focused_opened(self) -> (app::Model, app::EffectModel) {
        match self.focused_target() {
            Some(links::TargetView::Url(u)) => (
                self.told("Opened "@ + u),
                app::EffectModel::OpenUrl(u),
            ),
            _ => (self, app::EffectModel::Nothing),
        }
    }

    /// Asks to mark the selected entry as read: a file, or all files under a
    /// directory. The parent directory is left alone.
    pub open spec fn selected_read(self) -> (app::Model, app::EffectModel) {
        (
            self,
            match self.view {
                app::Screen::Browser(b) => if b.selected < b.entries.len() {
                    let e = b.entries[b.selected as int];
                    match e.kind {
                        BrowserEntryKind::ParentDir => app::EffectModel::Nothing,
                        BrowserEntryKind::Dir => app::EffectModel::MarkRead {
                            path: e.path,
                            dir: true,
                        },
                        BrowserEntryKind::Markdown => app::EffectModel::MarkRead {
                            path: e.path,
                            dir: false,
                        },
                    }
                } else {
                    app::EffectModel::Nothing
                },
                app::Screen::Reader(_) => app::EffectModel::Nothing,
            },
        )
    }

    /// Turns mouse capture on or off.
    pub open spec fn mouse_toggled(self) -> (app::Model, app::EffectModel) {
        (
            app::Model { mouse_enabled: !self.mouse_enabled, ..self }.told(
                if self.mouse_enabled {
                    "Mouse off — drag to select text (m to re-enable)"@
                } else {
                    "Mouse on"@
                },
            ),
            app::EffectModel::MouseCapture(!self.mouse_enabled),
        )
    }
}

impl App {
    fn open_search_result(&mut self, r: SearchResult) -> (e: Effect)
        ensures
            (final(self)@, e@) == old(self)@.result_opened(r@),
    {
        if r.is_dir {
            self.navigate_to(EntryKind::Directory(r.path), 0)
        } else if is_markdown_file(&r.path) {
            self.navigate_to(EntryKind::File(r.path), 0)
        } else {
            self.open_external(r.path)
        }
    }

    /// Opens the selected entry of the list.
    pub fn enter_or_open(&mut self) -> (e: Effect)
        ensures
            (final(self)@, e@) == old(self)@.selected_opened(),
    {
        let entry = match &self.view {
            app::View::Browser(b) => match b.selected_entry() {
                Some(e) => e.clone(),
                None => {
                    return Effect::Nothing;
                },
            },
            app::View::Reader(_) => {
                return Effect::Nothing;
            },
        };
        self.activate_browser_entry(entry)
    }

    fn focused_link(&self) -> (r: Option<LinkTarget>)
        ensures
            views::opt_view(r) == self@.focused_target(),
    {
        match &self.view {
            app::View::Reader(r) => match (r.focus, &r.rendered) {
                (Some(Focus::Link(i)), Some(rd)) => if i < rd.link_map.links.len() {
                    Some(rd.link_map.links[i].target.clone())
                } else {
                    None
                },
                _ => None,
            },
            app::View::Browser(_) => None,
        }
    }

    /// Follows, flips or opens what is focused or selected.
    pub fn activate(&mut self) -> (e: Effect)
        ensures
            (final(self)@, e@) == old(self)@.activated(),
    {
        let focus = match &self.view {
            app::View::Reader(r) => r.focus,
            app::View::Browser(_) => {
                return self.enter_or_open();
            },
        };
        match focus {
            Some(Focus::Link(_)) => match self.focused_link() {
                Some(t) => self.follow(t),
                None => Effect::Nothing,
            },
            Some(Focus::Checkbox(i)) => self.toggle_checkbox(i),
            None => Effect::Nothing,
        }
    }

    /// Opens the focused link in the system browser, if it is a URL.
    pub fn open_focused(&mut self) -> (e: Effect)
        ensures
            (final(self)@, e@) == old(self)@.focused_opened(),
    {
        match self.focused_link() {
            Some(LinkTarget::Url(u)) => {
                self.status = joined("Opened ", &u);
                Effect::OpenUrl(u)
            },
            _ => Effect::Nothing,
        }
    }

    /// Asks to mark the selected entry as read.
    pub fn mark_selected_read(&mut self) -> (e: Effect)
        ensures
            (final(self)@, e@) == old(self)@.selected_read(),
    {
        match &self.view {
            app::View::Browser(b) => match b.selected_entry() {
                Some(e) => match e.kind {
                    BrowserEntryKind::ParentDir => Effect::Nothing,
                    BrowserEntryKind::Dir => Effect::MarkRead { path: e.path.clone(), dir: true },
                    BrowserEntryKind::Markdown => Effect::MarkRead {
                        path: e.path.clone(),
                        dir: false,
                    },
                },
                None => Effect::Nothing,
            },
            app::View::Reader(_) => Effect::Nothing,
        }
    }

    /// Turns mouse capture on or off.
    pub fn toggle_mouse(&mut self) -> (e: Effect)
        ensures
            (final(self)@, e@) == old(self)@.mouse_toggled(),
    {
        if self.mouse_enabled {
            self.mouse_enabled = false;
            self.status = "Mouse off — drag to select text (m to re-enable)".to_string();
            Effect::MouseCapture(false)
        } else {
            self.mouse_enabled = true;
            self.status = "Mouse on".to_string();
            Effect::MouseCapture(true)
        }
    }
}

// ---------------------------------------------------------------------------
// Prompts
// ---------------------------------------------------------------------------

/// A query after a key: `None` where the key does not edit it.
pub open spec fn query_typed(q: Seq<char>, k: KeyInput) -> Option<Seq<char>> {
    match k.code {
        KeyCode::Backspace => Some(
            if q.len() > 0 {
                q.drop_last()
            } else {
                q
            },
        ),
        KeyCode::Char(c) => if !k.ctrl {
            Some(q.push(c))
        } else if c == 'u' {
            Some(Seq::empty())
        } else {
            None
        },
        _ => None,
    }
}

/// Edits a query; false where the key does not.
fn type_query(q: &mut String, k: KeyInput) -> (typed: bool)
    ensures
        typed == (query_typed(old(q)@, k) is Some),
        typed ==> final(q)@ == query_typed(old(q)@, k)->0,
        !typed ==> final(q)@ == old(q)@,
{
    match k.code {
        KeyCode::Backspace => {
            let _ = q.pop();
            true
        },
        KeyCode::Char(c) => {
            if !k.ctrl {
                q.push(c);
                true
            } else if c == 'u' {
                q.clear();
                true
            } else {
                false
            }
        },
        _ => false,
    }
}

impl app::Model {
    /// A key while the query of the document search is typed.
    pub open spec fn doc_search_key(self, k: KeyInput) -> app::Model {
        match k.code {
            KeyCode::Esc => self.doc_search_closed(),
            KeyCode::Enter => self.doc_search_committed(),
            _ => match self.doc() {
                Some(r) => match r.doc_search {
                    Some(s) => match query_typed(s.query, k) {
                        Some(q) => self.doc_query(q),
                        None => self,
                    },
                    None => self,
                },
                None => self,
            },
        }
    }

    /// How far a key moves the selection of the file search.
    pub open spec fn search_step(k: KeyInput) -> int {
        match k.code {
            KeyCode::Down | KeyCode::Tab => 1,
            KeyCode::Up | KeyCode::BackTab => -1,
            KeyCode::PageDown => 10,
            KeyCode::PageUp => -10,
            _ => 0,
        }
    }

    /// A key while the file search is open.
    pub open spec fn search_key(self, s: app::SearchModel, k: KeyInput) -> (
        app::Model,
        app::EffectModel,
    ) {
        let closed = app::Model { search: None, ..self };
        match k.code {
            KeyCode::Esc => (closed, app::EffectModel::Nothing),
            KeyCode::Enter => if s.selected < s.results.len() {
                closed.result_opened(s.results[s.selected as int])
            } else {
                (closed, app::EffectModel::Nothing)
            },
            _ => (
                app::Model {
                    search: Some(
                        match query_typed(s.query, k) {
                            Some(q) => s.with_query(q),
                            None => if Self::search_step(k) == 0 {
                                s
                            } else {
                                s.moved(Self::search_step(k))
                            },
                        },
                    ),
                    ..self
                },
                app::EffectModel::Nothing,
            ),
        }
    }
}

impl App {
    fn handle_doc_search_key(&mut self, k: KeyInput)
        ensures
            final(self)@ == old(self)@.doc_search_key(k),
    {
        match k.code {
            KeyCode::Esc => {
                self.close_doc_search();
            },
            KeyCode::Enter => {
                self.doc_search_commit();
            },
            _ => {
                let typed = match &mut self.view {
                    app::View::Reader(r) => match &mut r.doc_search {
                        Some(s) => type_query(&mut s.query, k),
                        None => false,
                    },
                    app::View::Browser(_) => false,
                };
                if typed {
                    self.doc_search_refresh();
                }
            },
        }
    }

    fn handle_search_key(&mut self, k: KeyInput) -> (e: Effect)
        ensures
            old(self)@.search is Some ==> (final(self)@, e@) == old(self)@.search_key(
                old(self)@.search->0,
                k,
            ),
    {
        match k.code {
            KeyCode::Esc => {
                self.close_search();
                Effect::Nothing
            },
            KeyCode::Enter => {
                let hit = match &self.search {
                    Some(s) => if s.selected < s.results.len() {
                        Some(s.results[s.selected].clone())
                    } else {
                        None
                    },
                    None => None,
                };
                self.close_search();
                match hit {
                    Some(r) => self.open_search_result(r),
                    None => Effect::Nothing,
                }
            },
            _ => {
                match &mut self.search {
                    Some(s) => {
                        if type_query(&mut s.query, k) {
                            s.refresh();
                        } else {
                            match k.code {
                                KeyCode::Down | KeyCode::Tab => {
                                    s.move_selection(1);
                                },
                                KeyCode::Up | KeyCode::BackTab => {
                                    s.move_selection(-1);
                                },
                                KeyCode::PageDown => {
                                    s.move_selection(10);
                                },
                                KeyCode::PageUp => {
                                    s.move_selection(-10);
                                },
                                _ => {},
                            }
                        }
                    },
                    None => {},
                }
                Effect::Nothing
            },
        }
    }
}

// ---------------------------------------------------------------------------
// Editing
// ---------------------------------------------------------------------------

impl reader::ReaderModel {
    /// The first Esc of an edit asks whether to discard it.
    pub open spec fn discard_armed(self) -> reader::ReaderModel {
        match self.edit {
            Some(e) => reader::ReaderModel {
                edit: Some(reader::EditModel { discard_pending: true, ..e }),
                ..self
            },
            None => self,
        }
    }

    /// What a key does to the buffer and its cursor; `None` where it does neither.
    pub open spec fn edit_keyed(self, k: KeyInput) -> Option<reader::ReaderModel> {
        let word = k.alt || k.ctrl;
        match k.code {
            KeyCode::Left => Some(
                if word {
                    self.edit_move_word(false)
                } else {
                    self.edit_move_horizontal(-1)
                },
            ),
            KeyCode::Right => Some(
                if word {
                    self.edit_move_word(true)
                } else {
                    self.edit_move_horizontal(1)
                },
            ),
            KeyCode::Backspace => Some(
                if word {
                    self.edit_delete_word(false)
                } else {
                    self.edit_backspace()
                },
            ),
            KeyCode::Delete => Some(
                if word {
                    self.edit_delete_word(true)
                } else {
                    self.edit_delete()
                },
            ),
            KeyCode::Up => Some(self.edit_move_vertical(-1)),
            KeyCode::Down => Some(self.edit_move_vertical(1)),
            KeyCode::Home => Some(self.edit_move_line_edge(false)),
            KeyCode::End => Some(self.edit_move_line_edge(true)),
            KeyCode::Enter => Some(self.edit_insert("\n"@)),
            KeyCode::Tab => Some(self.edit_insert("  "@)),
            KeyCode::Char(c) => if !k.ctrl {
                Some(self.edit_insert(seq![c]))
            } else if c == 'z' {
                Some(self.edit_undo())
            } else if c == 'y' || c == 'r' {
                Some(self.edit_redo())
            } else {
                None
            },
            _ => None,
        }
    }

    /// The document after a key of its edit. Whatever the key does, it takes back the
    /// question whether to discard.
    pub open spec fn after_edit_key(self, k: KeyInput) -> reader::ReaderModel {
        match self.edit_keyed(k) {
            Some(after) => after,
            None => self,
        }.edit_calmed()
    }
}

impl app::Model {
    /// Takes back the question whether to discard an edit.
    pub open spec fn calmed(self) -> app::Model {
        match self.doc() {
            Some(r) => self.with_doc(r.edit_calmed()),
            None => self,
        }
    }

    /// A key while the document is edited. Ctrl-S and Ctrl-W save; a first Esc asks
    /// and a second discards; any other key takes the question back.
    pub open spec fn edit_key(self, r: reader::ReaderModel, k: KeyInput) -> (
        app::Model,
        app::EffectModel,
    ) {
        if k.is_ctrl('s') || k.is_ctrl('w') {
            self.edit_saved()
        } else if k.code is Esc {
            if r.edit is Some && r.edit->0.discard_pending {
                self.edit_discarded()
            } else {
                (self.with_doc(r.discard_armed()), app::EffectModel::Nothing)
            }
        } else {
            (self.edited(r.after_edit_key(k)), app::EffectModel::Nothing)
        }
    }
}

impl App {
    fn type_char(&mut self, c: char)
        ensures
            final(self)@ == old(self)@.edited(old(self)@.doc()->0.edit_insert(seq![c])),
    {
        let mut t = String::new();
        t.push(c);
        assert(t@ =~= seq![c]);
        self.edit_insert(&t);
    }

    fn calm_edit(&mut self)
        ensures
            final(self)@ == old(self)@.calmed(),
    {
        if let app::View::Reader(r) = &mut self.view {
            r.edit_calm();
        }
    }

    /// Applies a key to the buffer.
    fn edit_with_key(&mut self, k: KeyInput)
        requires
            old(self)@.doc() is Some,
        ensures
            final(self)@ == old(self)@.edited(
                match old(self)@.doc()->0.edit_keyed(k) {
                    Some(after) => after,
                    None => old(self)@.doc()->0,
                },
            ),
    {
        let word = k.alt || k.ctrl;
        match k.code {
            KeyCode::Left => {
                if word {
                    self.edit_move_word(false);
                } else {
                    self.edit_move_horizontal(-1);
                }
            },
            KeyCode::Right => {
                if word {
                    self.edit_move_word(true);
                } else {
                    self.edit_move_horizontal(1);
                }
            },
            KeyCode::Backspace => {
                if word {
                    self.edit_delete_word(false);
                } else {
                    self.edit_backspace();
                }
            },
            KeyCode::Delete => {
                if word {
                    self.edit_delete_word(true);
                } else {
                    self.edit_delete();
                }
            },
            KeyCode::Up => {
                self.edit_move_vertical(-1);
            },
            KeyCode::Down => {
                self.edit_move_vertical(1);
            },
            KeyCode::Home => {
                self.edit_move_line_edge(false);
            },
            KeyCode::End => {
                self.edit_move_line_edge(true);
            },
            KeyCode::Enter => {
                self.edit_insert("\n");
            },
            KeyCode::Tab => {
                self.edit_insert("  ");
            },
            KeyCode::Char(c) => {
                if !k.ctrl {
                    self.type_char(c);
                } else if c == 'z' {
                    self.edit_undo();
                } else if c == 'y' || c == 'r' {
                    self.edit_redo();
                } else {
                    self.selection = None;
                }
            },
            _ => {
                self.selection = None;
            },
        }
    }

    fn handle_edit_key(&mut self, k: KeyInput) -> (e: Effect)
        requires
            old(self)@.doc() is Some,
        ensures
            (final(self)@, e@) == old(self)@.edit_key(old(self)@.doc()->0, k),
    {
        if k.with_ctrl('s') || k.with_ctrl('w') {
            return self.save_edit();
        }
        if matches!(k.code, KeyCode::Esc) {
            let mut armed = false;
            match &mut self.view {
                app::View::Reader(r) => match &mut r.edit {
                    Some(e) => {
                        armed = e.discard_pending;
                        e.discard_pending = true;
                    },
                    None => {},
                },
                app::View::Browser(_) => {},
            }
            if armed {
                return self.exit_edit_discard();
            }
            return Effect::Nothing;
        }
        self.edit_with_key(k);
        self.calm_edit();
        Effect::Nothing
    }
}

// ---------------------------------------------------------------------------
// Reading and browsing
// ---------------------------------------------------------------------------

/// The value of a decimal digit.
pub open spec fn digit(c: char) -> Option<u32> {
    if '0' <= c <= '9' {
        Some((c as u32 - '0' as u32) as u32)
    } else {
        None
    }
}

/// A chord that was begun at `since`, unless its time is over.
pub open spec fn live_chord(since: Option<u64>, now: u64) -> Option<u64> {
    match since {
        Some(t) => if now > t + CHORD_TIMEOUT_MS {
            None
        } else {
            since
        },
        None => None,
    }
}

fn keep_chord(since: Option<u64>, now: u64) -> (r: Option<u64>)
    ensures
        r == live_chord(since, now),
{
    match since {
        Some(t) => if now > t && now - t > CHORD_TIMEOUT_MS {
            None
        } else {
            Some(t)
        },
        None => None,
    }
}

impl app::Model {
    /// The count typed before a motion, at least one.
    pub open spec fn count(self) -> u32 {
        match self.count_prefix {
            Some(n) => if n > 1 {
                n
            } else {
                1
            },
            None => 1,
        }
    }

    /// Where `G` goes: to the line that the count names, else to the end.
    pub open spec fn line_asked(self) -> u16 {
        match self.count_prefix {
            Some(n) => if n == 0 {
                0
            } else if n <= u16::MAX {
                (n - 1) as u16
            } else {
                u16::MAX
            },
            None => u16::MAX,
        }
    }

    /// The state with the count used up.
    pub open spec fn counted(self) -> app::Model {
        app::Model { count_prefix: None, ..self }
    }

    /// The count with another digit, where the key is one. A zero begins no count.
    pub open spec fn count_typed(self, k: KeyInput) -> Option<u32> {
        match k.code {
            KeyCode::Char(c) => match digit(c) {
                Some(d) => if k.ctrl || (d == 0 && self.count_prefix is None) {
                    None
                } else {
                    let n = (match self.count_prefix {
                        Some(n) => n as int,
                        None => 0,
                    }) * 10 + d;
                    Some(
                        if n > COUNT_LIMIT {
                            COUNT_LIMIT
                        } else {
                            n as u32
                        },
                    )
                },
                None => None,
            },
            _ => None,
        }
    }

    /// Esc cancels a count, then the document search, then goes back, and quits
    /// where there is nothing to go back to.
    pub open spec fn escaped(self) -> (app::Model, app::EffectModel) {
        if self.count_prefix is Some || self.pending_g is Some || self.pending_z is Some {
            (
                app::Model { count_prefix: None, pending_g: None, pending_z: None, ..self },
                app::EffectModel::Nothing,
            )
        } else if self.doc() is Some && self.doc()->0.doc_search is Some {
            (self.doc_search_closed(), app::EffectModel::Nothing)
        } else if self.history.len() > 0 {
            self.back()
        } else {
            (app::Model { should_quit: true, ..self }, app::EffectModel::Nothing)
        }
    }

    /// The scrolling that a key stands for.
    pub open spec fn motion(self, k: KeyInput, now: u64) -> Option<app::Model> {
        let n = self.count() as int;
        let m = self.counted();
        match k.code {
            KeyCode::Char('j') | KeyCode::Down => Some(m.scrolled(n)),
            KeyCode::Char('k') | KeyCode::Up => Some(m.scrolled(-n)),
            KeyCode::Char('d') => Some(m.paged(n, true, true)),
            KeyCode::Char('u') => Some(m.paged(n, false, true)),
            KeyCode::PageDown | KeyCode::Char(' ') => Some(m.paged(n, true, false)),
            KeyCode::PageUp => Some(m.paged(n, false, false)),
            KeyCode::Char('f') => if k.ctrl {
                Some(m.paged(n, true, false))
            } else {
                None
            },
            KeyCode::Char('b') => if k.ctrl {
                Some(m.paged(n, false, false))
            } else {
                None
            },
            KeyCode::Char('G') | KeyCode::End => Some(
                m.scrolled_to(self.line_asked()),
            ),
            KeyCode::Home => Some(self.scrolled_to(0)),
            KeyCode::Char('g') => Some(app::Model { pending_g: Some(now), ..self }),
            KeyCode::Char('z') => Some(app::Model { pending_z: Some(now), ..self }),
            KeyCode::Char('H') => Some(self.focus_on_screen(ViewportTarget::Top)),
            KeyCode::Char('M') => Some(self.focus_on_screen(ViewportTarget::Middle)),
            KeyCode::Char('L') => Some(self.focus_on_screen(ViewportTarget::Bottom)),
            KeyCode::Tab => Some(self.focus_walked(1)),
            KeyCode::BackTab => Some(self.focus_walked(-1)),
            _ => None,
        }
    }

    /// Any other command that a key stands for.
    pub open spec fn command(self, k: KeyInput) -> (app::Model, app::EffectModel) {
        match k.code {
            KeyCode::Esc => self.escaped(),
            KeyCode::Enter => self.activated(),
            KeyCode::Right => self.selected_opened(),
            KeyCode::Left => if self.view is Browser {
                self.back()
            } else {
                (self, app::EffectModel::Nothing)
            },
            KeyCode::Backspace | KeyCode::Char('b') | KeyCode::Char('h') => self.back(),
            KeyCode::Char('f') | KeyCode::Char('l') => self.ahead(),
            KeyCode::Char('q') => (
                app::Model { should_quit: true, ..self },
                app::EffectModel::Nothing,
            ),
            KeyCode::Char('?') => (
                app::Model { help_open: !self.help_open, ..self },
                app::EffectModel::Nothing,
            ),
            KeyCode::Char('/') => if self.view is Reader {
                (self.doc_search_opened(), app::EffectModel::Nothing)
            } else {
                (self, app::EffectModel::BuildIndex)
            },
            KeyCode::Char('T') => (self, app::EffectModel::BuildIndex),
            KeyCode::Char('n') => (self.doc_search_stepped(true), app::EffectModel::Nothing),
            KeyCode::Char('N') => (self.doc_search_stepped(false), app::EffectModel::Nothing),
            KeyCode::Char('m') => self.mouse_toggled(),
            KeyCode::Char('e') => (self.edit_entered(), app::EffectModel::Nothing),
            KeyCode::Char('o') => self.focused_opened(),
            KeyCode::Char('r') => self.selected_read(),
            _ => (self, app::EffectModel::Nothing),
        }
    }

    /// A key while reading or browsing: the second of a chord, a digit of a count,
    /// a motion or a command.
    pub open spec fn view_key(self, k: KeyInput, now: u64) -> (app::Model, app::EffectModel) {
        let in_g = live_chord(self.pending_g, now) is Some;
        let in_z = live_chord(self.pending_z, now) is Some;
        let z_kept = app::Model {
            pending_g: None,
            pending_z: live_chord(self.pending_z, now),
            ..self
        };
        let m = app::Model { pending_g: None, pending_z: None, ..self };
        if in_g && k.code == KeyCode::Char('g') {
            (z_kept.scrolled_to(0).counted(), app::EffectModel::Nothing)
        } else if in_z && k.code == KeyCode::Char('z') {
            (m.focus_centered().counted(), app::EffectModel::Nothing)
        } else {
            match m.count_typed(k) {
                Some(n) => (
                    app::Model { count_prefix: Some(n), ..m },
                    app::EffectModel::Nothing,
                ),
                None => match m.motion(k, now) {
                    Some(after) => (after, app::EffectModel::Nothing),
                    None => m.command(k),
                },
            }
        }
    }

    /// A key while the diff is open; `None` where it goes on to what is below.
    pub open spec fn lens_key(self, k: KeyInput) -> Option<app::Model> {
        let page = if self.viewport.height > 1 {
            self.viewport.height as int
        } else {
            1
        };
        match k.code {
            KeyCode::Esc | KeyCode::Char('q') => Some(app::Model { git_lens: None, ..self }),
            KeyCode::Char('j') | KeyCode::Down => Some(self.lens_scrolled(1)),
            KeyCode::Char('k') | KeyCode::Up => Some(self.lens_scrolled(-1)),
            KeyCode::PageDown | KeyCode::Char(' ') => Some(self.lens_scrolled(page)),
            KeyCode::PageUp => Some(self.lens_scrolled(-page)),
            _ => None,
        }
    }

    /// A key where no prompt or overlay takes it.
    pub open spec fn open_key(self, k: KeyInput, now: u64) -> (app::Model, app::EffectModel) {
        match self.search {
            Some(s) => self.search_key(s, k),
            None => match self.doc() {
                Some(r) => if r.doc_search is Some && r.doc_search->0.editing {
                    (self.doc_search_key(k), app::EffectModel::Nothing)
                } else if r.edit is Some {
                    self.edit_key(r, k)
                } else {
                    self.view_key(k, now)
                },
                None => self.view_key(k, now),
            },
        }
    }

    /// What a key does. Ctrl-C quits whatever is on screen; the help takes every
    /// other key; then come the diff, the prompts, an edit and the view.
    pub open spec fn key(self, k: KeyInput, now: u64) -> (app::Model, app::EffectModel) {
        let m = app::Model { mouse_recent: false, ..self };
        if k.is_ctrl('c') {
            (app::Model { should_quit: true, ..m.calmed() }, app::EffectModel::Nothing)
        } else if m.help_open {
            (
                match k.code {
                    KeyCode::Esc | KeyCode::Char('?') | KeyCode::Char('q') => app::Model {
                        help_open: false,
                        ..m
                    },
                    _ => m,
                },
                app::EffectModel::Nothing,
            )
        } else if k.is_ctrl('g') {
            m.calmed().git_lens_toggled()
        } else if m.git_lens is Some && m.lens_key(k) is Some {
            (m.lens_key(k)->0, app::EffectModel::Nothing)
        } else {
            m.open_key(k, now)
        }
    }
}

impl App {
    fn consume_count(&mut self) -> (n: u32)
        ensures
            n == old(self)@.count(),
            final(self)@ == old(self)@.counted(),
    {
        let n: u32 = match self.count_prefix {
            Some(n) => if n > 1 {
                n
            } else {
                1
            },
            None => 1,
        };
        self.count_prefix = None;
        n
    }

    fn next_count(&self, k: KeyInput) -> (r: Option<u32>)
        ensures
            r == self@.count_typed(k),
    {
        match k.code {
            KeyCode::Char(c) => {
                if c < '0' || c > '9' || k.ctrl {
                    return None;
                }
                let d: u32 = c as u32 - '0' as u32;
                if d == 0 && self.count_prefix.is_none() {
                    return None;
                }
                let cur: u32 = match self.count_prefix {
                    Some(n) => n,
                    None => 0,
                };
                let n: u64 = cur as u64 * 10 + d as u64;
                if n > COUNT_LIMIT as u64 {
                    Some(COUNT_LIMIT)
                } else {
                    Some(n as u32)
                }
            },
            _ => None,
        }
    }

    fn escape(&mut self) -> (e: Effect)
        ensures
            (final(self)@, e@) == old(self)@.escaped(),
    {
        if self.count_prefix.is_some() || self.pending_g.is_some() || self.pending_z.is_some() {
            self.count_prefix = None;
            self.pending_g = None;
            self.pending_z = None;
            return Effect::Nothing;
        }
        let searching = match &self.view {
            app::View::Reader(r) => r.doc_search.is_some(),
            app::View::Browser(_) => false,
        };
        if searching {
            self.close_doc_search();
            Effect::Nothing
        } else if self.history.len() > 0 {
            self.go_back()
        } else {
            self.should_quit = true;
            Effect::Nothing
        }
    }

    /// Scrolls, where the key stands for that.
    fn handle_motion(&mut self, k: KeyInput, now: u64) -> (done: bool)
        ensures
            done == (old(self)@.motion(k, now) is Some),
            done ==> final(self)@ == old(self)@.motion(k, now)->0,
            !done ==> *final(self) == *old(self),
    {
        match k.code {
            KeyCode::Char('j') | KeyCode::Down => {
                let n = self.consume_count();
                self.scroll_by(n as i64);
            },
            KeyCode::Char('k') | KeyCode::Up => {
                let n = self.consume_count();
                self.scroll_by(-(n as i64));
            },
            KeyCode::Char('d') => {
                let n = self.consume_count();
                self.scroll_by_page(n, true, true);
            },
            KeyCode::Char('u') => {
                let n = self.consume_count();
                self.scroll_by_page(n, false, true);
            },
            KeyCode::PageDown | KeyCode::Char(' ') => {
                let n = self.consume_count();
                self.scroll_by_page(n, true, false);
            },
            KeyCode::PageUp => {
                let n = self.consume_count();
                self.scroll_by_page(n, false, false);
            },
            KeyCode::Char('f') => {
                if !k.ctrl {
                    return false;
                }
                let n = self.consume_count();
                self.scroll_by_page(n, true, false);
            },
            KeyCode::Char('b') => {
                if !k.ctrl {
                    return false;
                }
                let n = self.consume_count();
                self.scroll_by_page(n, false, false);
            },
            KeyCode::Char('G') | KeyCode::End => {
                let line: u16 = match self.count_prefix {
                    Some(n) => if n == 0 {
                        0
                    } else if n <= 65535 {
                        (n - 1) as u16
                    } else {
                        u16::MAX
                    },
                    None => u16::MAX,
                };
                self.count_prefix = None;
                self.scroll_to(line);
            },
            KeyCode::Home => {
                self.scroll_to(0);
            },
            KeyCode::Char('g') => {
                self.pending_g = Some(now);
            },
            KeyCode::Char('z') => {
                self.pending_z = Some(now);
            },
            KeyCode::Char('H') => {
                self.scroll_viewport_relative(ViewportTarget::Top);
            },
            KeyCode::Char('M') => {
                self.scroll_viewport_relative(ViewportTarget::Middle);
            },
            KeyCode::Char('L') => {
                self.scroll_viewport_relative(ViewportTarget::Bottom);
            },
            KeyCode::Tab => {
                self.walk_focus(true);
            },
            KeyCode::BackTab => {
                self.walk_focus(false);
            },
            _ => {
                return false;
            },
        }
        true
    }

    fn handle_command(&mut self, k: KeyInput) -> (e: Effect)
        ensures
            (final(self)@, e@) == old(self)@.command(k),
    {
        match k.code {
            KeyCode::Esc => self.escape(),
            KeyCode::Enter => self.activate(),
            KeyCode::Right => self.enter_or_open(),
            KeyCode::Left => if matches!(self.view, app::View::Browser(_)) {
                self.go_back()
            } else {
                Effect::Nothing
            },
            KeyCode::Backspace | KeyCode::Char('b') | KeyCode::Char('h') => self.go_back(),
            KeyCode::Char('f') | KeyCode::Char('l') => self.go_forward(),
            KeyCode::Char('q') => {
                self.should_quit = true;
                Effect::Nothing
            },
            KeyCode::Char('?') => {
                self.help_open = !self.help_open;
                Effect::Nothing
            },
            KeyCode::Char('/') => if matches!(self.view, app::View::Reader(_)) {
                self.open_doc_search();
                Effect::Nothing
            } else {
                self.open_search()
            },
            KeyCode::Char('T') => self.open_search(),
            KeyCode::Char('n') => {
                self.doc_search_step(true);
                Effect::Nothing
            },
            KeyCode::Char('N') => {
                self.doc_search_step(false);
                Effect::Nothing
            },
            KeyCode::Char('m') => self.toggle_mouse(),
            KeyCode::Char('e') => {
                self.enter_edit();
                Effect::Nothing
            },
            KeyCode::Char('o') => self.open_focused(),
            KeyCode::Char('r') => self.mark_selected_read(),
            _ => Effect::Nothing,
        }
    }

    fn handle_view_key(&mut self, k: KeyInput, now: u64) -> (e: Effect)
        ensures
            (final(self)@, e@) == old(self)@.view_key(k, now),
    {
        let in_g = keep_chord(self.pending_g, now).is_some();
        let z = keep_chord(self.pending_z, now);
        self.pending_g = None;
        self.pending_z = z;
        if in_g && k.code == KeyCode::Char('g') {
            self.scroll_to(0);
            self.count_prefix = None;
            return Effect::Nothing;
        }
        self.pending_z = None;
        if z.is_some() && k.code == KeyCode::Char('z') {
            self.center_focus_or_top();
            self.count_prefix = None;
            return Effect::Nothing;
        }
        match self.next_count(k) {
            Some(n) => {
                self.count_prefix = Some(n);
                return Effect::Nothing;
            },
            None => {},
        }
        if self.handle_motion(k, now) {
            return Effect::Nothing;
        }
        self.handle_command(k)
    }

    fn handle_lens_key(&mut self, k: KeyInput) -> (done: bool)
        ensures
            done == (old(self)@.lens_key(k) is Some),
            done ==> final(self)@ == old(self)@.lens_key(k)->0,
            !done ==> *final(self) == *old(self),
    {
        let page: i32 = if self.viewport.height > 1 {
            self.viewport.height as i32
        } else {
            1
        };
        match k.code {
            KeyCode::Esc | KeyCode::Char('q') => {
                self.git_lens = None;
            },
            KeyCode::Char('j') | KeyCode::Down => {
                self.git_lens_scroll(1);
            },
            KeyCode::Char('k') | KeyCode::Up => {
                self.git_lens_scroll(-1);
            },
            KeyCode::PageDown | KeyCode::Char(' ') => {
                self.git_lens_scroll(page);
            },
            KeyCode::PageUp => {
                self.git_lens_scroll(-page);
            },
            _ => {
                return false;
            },
        }
        true
    }

    fn handle_open_key(&mut self, k: KeyInput, now: u64) -> (e: Effect)
        ensures
            (final(self)@, e@) == old(self)@.open_key(k, now),
    {
        if self.search.is_some() {
            return self.handle_search_key(k);
        }
        let (typing, editing): (bool, bool) = match &self.view {
            app::View::Reader(r) => (
                match &r.doc_search {
                    Some(s) => s.editing,
                    None => false,
                },
                r.edit.is_some(),
            ),
            app::View::Browser(_) => (false, false),
        };
        if typing {
            self.handle_doc_search_key(k);
            Effect::Nothing
        } else if editing {
            self.handle_edit_key(k)
        } else {
            self.handle_view_key(k, now)
        }
    }

    /// Reacts to a key press at `now`.
    pub fn handle_key(&mut self, k: KeyInput, now: u64) -> (e: Effect)
        ensures
            (final(self)@, e@) == old(self)@.key(k, now),
    {
        self.mouse_recent = false;
        if k.with_ctrl('c') {
            self.calm_edit();
            self.should_quit = true;
            return Effect::Nothing;
        }
        if self.help_open {
            match k.code {
                KeyCode::Esc | KeyCode::Char('?') | KeyCode::Char('q') => {
                    self.help_open = false;
                },
                _ => {},
            }
            return Effect::Nothing;
        }
        if k.with_ctrl('g') {
            self.calm_edit();
            return self.toggle_git_lens();
        }
        if self.git_lens.is_some() {
            if self.handle_lens_key(k) {
                return Effect::Nothing;
            }
        }
        self.handle_open_key(k, now)
    }

    /// Has the document rendered anew after the screen changed its size.
    pub fn handle_resize(&mut self)
        ensures
            final(self)@ == (match old(self)@.doc() {
                Some(r) => old(self)@.with_doc(reader::ReaderModel { rendered: None, ..r }),
                None => old(self)@,
            }),
    {
        match &mut self.view {
            app::View::Reader(r) => {
                r.rendered = None;
            },
            app::View::Browser(_) => {},
        }
    }
}

} // verus!
