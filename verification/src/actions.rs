//! What each action does to the state of the program.

use vstd::prelude::*;
use crate::app;
use crate::app::{
    App, Effect, EntryKind, GitLensState, HistoryEntry, Options, Rect, Source, WriteCause,
};
use crate::browser;
use crate::browser::{Browser, BrowserEntry, BrowserEntryKind, DirItem};
use crate::bytes;
use crate::bytes::{chars_of, locate};
use crate::diff;
use crate::diff::lens_rows;
use crate::links;
use crate::links::LinkTarget;
use crate::markdown;
use crate::markdown::{render_with_edit, EditCtx};
use crate::parse;
use crate::paths;
use crate::paths::is_markdown_file;
use crate::reader;
use crate::reader::{DocSearch, EditMode, EditState, FileMeta, Reader, ReaderOrigin};
use crate::search;
use crate::search::{find_doc_matches, IndexedPath, Search};
use crate::syntax::Highlighter;
use crate::text;
use crate::text::{from_chars, same_text};
use crate::theme::Theme;
use crate::views;

verus! {

broadcast use crate::views::group_views;

/// `x` as a scroll position, which counts up to 65535 and then from zero again.
pub open spec fn scroll_of(x: int) -> u16 {
    (x % 0x1_0000) as u16
}

pub(crate) fn to_scroll(x: usize) -> (r: u16)
    ensures
        r == scroll_of(x as int),
{
    (x % 0x1_0000) as u16
}

pub(crate) fn max_scroll(total: usize, height: usize) -> (r: usize)
    ensures
        r == app::max_scroll(total as int, height as int),
{
    total.saturating_sub(height)
}

/// `base + delta` brought into `0..=max`.
pub fn clamp_shift(base: usize, delta: i64, max: usize) -> (r: usize)
    ensures
        r == app::clamped(base + delta, max as int),
{
    let moved: i128 = base as i128 + delta as i128;
    if moved < 0 {
        0
    } else if moved > max as i128 {
        max
    } else {
        moved as usize
    }
}

pub(crate) fn joined(a: &str, b: &str) -> (r: String)
    ensures
        r@ == a@ + b@,
{
    let mut out = a.to_string();
    out.push_str(b);
    out
}

// ---------------------------------------------------------------------------
// Navigation
// ---------------------------------------------------------------------------

impl app::Model {
    /// The place on screen, to come back to.
    pub open spec fn here(self) -> app::HistoryModel {
        match self.view {
            app::Screen::Reader(r) => app::HistoryModel {
                kind: match r.origin {
                    reader::OriginModel::File(p) => app::KindModel::File(p),
                    reader::OriginModel::Stdin => app::KindModel::Stdin(r.raw),
                },
                scroll: r.scroll,
                selected: None,
            },
            app::Screen::Browser(b) => app::HistoryModel {
                kind: app::KindModel::Directory(b.dir),
                scroll: b.scroll,
                selected: Some(b.selected),
            },
        }
    }

    /// The state without what belongs to the document on screen alone: text selected in
    /// it, and an anchor that it was to scroll to.
    pub open spec fn leaving(self) -> app::Model {
        app::Model { selection: None, pending_anchor: None, ..self }
    }

    /// Goes to a place: text is at hand, anything else has to be read first.
    pub open spec fn load(self, to: app::HistoryModel) -> (app::Model, app::EffectModel) {
        match to.kind {
            app::KindModel::Stdin(t) => (
                app::Model {
                    view: app::Screen::Reader(
                        reader::ReaderModel {
                            scroll: to.scroll,
                            ..reader::opened(reader::OriginModel::Stdin, t, None)
                        },
                    ),
                    ..self
                },
                app::EffectModel::Nothing,
            ),
            kind => (
                self,
                app::EffectModel::Load { kind, scroll: to.scroll, selected: to.selected },
            ),
        }
    }

    /// Goes to a new place; the present one joins the history and what lay ahead
    /// is forgotten.
    pub open spec fn navigate(self, kind: app::KindModel, scroll: u16) -> (
        app::Model,
        app::EffectModel,
    ) {
        app::Model {
            forward: Seq::empty(),
            history: self.history.push(self.here()),
            ..self.leaving()
        }.load(app::HistoryModel { kind, scroll, selected: None })
    }

    /// Goes back in history.
    pub open spec fn back(self) -> (app::Model, app::EffectModel) {
        if self.history.len() > 0 {
            app::Model {
                history: self.history.drop_last(),
                forward: self.forward.push(self.here()),
                ..self.leaving()
            }.load(self.history.last())
        } else {
            (self, app::EffectModel::Nothing)
        }
    }

    /// Goes forward in history.
    pub open spec fn ahead(self) -> (app::Model, app::EffectModel) {
        if self.forward.len() > 0 {
            app::Model {
                forward: self.forward.drop_last(),
                history: self.history.push(self.here()),
                ..self.leaving()
            }.load(self.forward.last())
        } else {
            (self, app::EffectModel::Nothing)
        }
    }

    /// Shows a file that was read.
    pub open spec fn show_file(
        self,
        path: Seq<char>,
        raw: Seq<char>,
        meta: Option<FileMeta>,
        scroll: u16,
    ) -> app::Model {
        app::Model {
            view: app::Screen::Reader(
                reader::ReaderModel {
                    scroll,
                    ..reader::opened(reader::OriginModel::File(path), raw, meta)
                },
            ),
            selection: None,
            ..self
        }
    }

    /// Shows a directory that was listed, with the given line selected as far as
    /// it exists.
    pub open spec fn show_dir(
        self,
        dir: Seq<char>,
        items: Seq<browser::ItemView>,
        scroll: u16,
        selected: Option<usize>,
    ) -> app::Model {
        let entries = browser::listing(dir, items);
        app::Model {
            view: app::Screen::Browser(
                app::BrowserModel {
                    dir,
                    entries,
                    selected: match selected {
                        Some(s) => if s < entries.len() {
                            s
                        } else if entries.len() > 0 {
                            (entries.len() - 1) as usize
                        } else {
                            0
                        },
                        None => browser::reselected(entries, None) as usize,
                    },
                    scroll,
                },
            ),
            selection: None,
            ..self
        }
    }

    /// Sets the status message.
    pub open spec fn told(self, status: Seq<char>) -> app::Model {
        app::Model { status, ..self }
    }

    /// Scrolls to a heading anchor of the document.
    pub open spec fn to_anchor(self, slug: Seq<char>) -> app::Model {
        match self.view {
            app::Screen::Reader(r) => match r.rendered {
                Some(rd) => if rd.anchors.contains_key(slug) {
                    app::Model {
                        view: app::Screen::Reader(
                            reader::ReaderModel {
                                scroll: scroll_of(rd.anchors[slug] as int),
                                ..r
                            },
                        ),
                        ..self
                    }.told("→ #"@ + slug)
                } else {
                    self.told("Anchor not found: #"@ + slug)
                },
                None => self,
            },
            app::Screen::Browser(_) => self,
        }
    }

    /// Follows a link. Files have to be found first.
    pub open spec fn follow(self, target: links::TargetView) -> (app::Model, app::EffectModel) {
        match target {
            links::TargetView::Url(u) => (self.told("Opened "@ + u), app::EffectModel::OpenUrl(u)),
            links::TargetView::Anchor(a) => (self.to_anchor(a), app::EffectModel::Nothing),
            links::TargetView::LocalFile(p) => (
                self,
                app::EffectModel::FindFile { path: p, anchor: None },
            ),
            links::TargetView::FileAnchor(p, a) => (
                self,
                app::EffectModel::FindFile { path: p, anchor: Some(a) },
            ),
        }
    }

    /// Opens a file that is not shown here.
    pub open spec fn external(self, path: Seq<char>) -> (app::Model, app::EffectModel) {
        (self.told("Opened externally: "@ + path), app::EffectModel::OpenPath(path))
    }

    /// Goes where a file link leads: into a directory or a markdown file, and out
    /// of the program for anything else. A link with an anchor leads into files
    /// only, and the document scrolls to the anchor when it is first rendered.
    pub open spec fn found(
        self,
        path: Seq<char>,
        anchor: Option<Seq<char>>,
        hit: Option<(Seq<char>, bool)>,
    ) -> (app::Model, app::EffectModel) {
        match hit {
            None => (self.told("Not found: "@ + path), app::EffectModel::Nothing),
            Some((p, is_dir)) => if anchor is None && is_dir {
                self.navigate(app::KindModel::Directory(p), 0)
            } else if paths::is_markdown_path(p) {
                let (there, e) = self.navigate(app::KindModel::File(p), 0);
                (app::Model { pending_anchor: anchor, ..there }, e)
            } else {
                self.external(p)
            },
        }
    }
}

impl App {
    /// A program that starts on a document or a directory.
    pub fn new(view: app::View, root: String, opts: Options) -> (a: App)
        ensures
            a@ == (app::Model {
                view: view@,
                root: root@,
                history: Seq::empty(),
                forward: Seq::empty(),
                opts,
                help_open: false,
                search: None,
                should_quit: false,
                status: Seq::empty(),
                viewport: Rect { x: 0, y: 0, width: 0, height: 0 },
                statusline_area: Rect { x: 0, y: 0, width: 0, height: 0 },
                back_button_hit: None,
                count_prefix: None,
                pending_g: None,
                pending_z: None,
                mouse_recent: false,
                last_mouse_col: 0,
                last_mouse_row: 0,
                mouse_enabled: true,
                selection: None,
                pending_anchor: None,
                git_lens: None,
                last_click: None,
                pending_click: None,
                scroll_accum: 0,
                last_scroll_at: None,
                edit_raw_area: Rect { x: 0, y: 0, width: 0, height: 0 },
                edit_preview_area: Rect { x: 0, y: 0, width: 0, height: 0 },
            }),
    {
        let none = Rect { x: 0, y: 0, width: 0, height: 0 };
        let a = App {
            view,
            root,
            history: Vec::new(),
            forward: Vec::new(),
            opts,
            help_open: false,
            search: None,
            should_quit: false,
            status: String::new(),
            viewport: none,
            statusline_area: none,
            back_button_hit: None,
            count_prefix: None,
            pending_g: None,
            pending_z: None,
            mouse_recent: false,
            last_mouse_col: 0,
            last_mouse_row: 0,
            mouse_enabled: true,
            selection: None,
            pending_anchor: None,
            git_lens: None,
            last_click: None,
            pending_click: None,
            scroll_accum: 0,
            last_scroll_at: None,
            edit_raw_area: none,
            edit_preview_area: none,
        };
        assert(a.status@ =~= Seq::<char>::empty());
        assert(a@.history =~= Seq::empty());
        assert(a@.forward =~= Seq::empty());
        a
    }

    /// The place on screen.
    pub fn record_current(&self) -> (r: HistoryEntry)
        ensures
            r@ == self@.here(),
    {
        match &self.view {
            app::View::Reader(r) => HistoryEntry {
                kind: match &r.origin {
                    ReaderOrigin::File(p) => EntryKind::File(p.clone()),
                    ReaderOrigin::Stdin => EntryKind::Stdin(r.raw.clone()),
                },
                scroll: r.scroll,
                selected: None,
            },
            app::View::Browser(b) => HistoryEntry {
                kind: EntryKind::Directory(b.dir.clone()),
                scroll: b.scroll,
                selected: Some(b.selected),
            },
        }
    }

    fn leave(&mut self)
        ensures
            final(self)@ == old(self)@.leaving(),
    {
        self.selection = None;
        self.pending_anchor = None;
    }

    fn load(&mut self, to: HistoryEntry) -> (e: Effect)
        ensures
            (final(self)@, e@) == old(self)@.load(to@),
    {
        match to.kind {
            EntryKind::Stdin(t) => {
                let mut r = Reader::from_string(t);
                r.scroll = to.scroll;
                self.view = app::View::Reader(r);
                Effect::Nothing
            },
            kind => Effect::Load { kind, scroll: to.scroll, selected: to.selected },
        }
    }

    /// Goes to a new place.
    pub fn navigate_to(&mut self, kind: EntryKind, scroll: u16) -> (e: Effect)
        ensures
            (final(self)@, e@) == old(self)@.navigate(kind@, scroll),
    {
        self.leave();
        self.forward.clear();
        let prev = self.record_current();
        self.history.push(prev);
        assert(self@ =~= (app::Model {
            forward: Seq::empty(),
            history: old(self)@.history.push(old(self)@.here()),
            ..old(self)@.leaving()
        }));
        self.load(HistoryEntry { kind, scroll, selected: None })
    }

    /// Goes back in history.
    pub fn go_back(&mut self) -> (e: Effect)
        ensures
            (final(self)@, e@) == old(self)@.back(),
    {
        match self.history.pop() {
            Some(prev) => {
                self.leave();
                let cur = self.record_current();
                self.forward.push(cur);
                assert(self@ =~= (app::Model {
                    history: old(self)@.history.drop_last(),
                    forward: old(self)@.forward.push(old(self)@.here()),
                    ..old(self)@.leaving()
                }));
                self.load(prev)
            },
            None => Effect::Nothing,
        }
    }

    /// Goes forward in history.
    pub fn go_forward(&mut self) -> (e: Effect)
        ensures
            (final(self)@, e@) == old(self)@.ahead(),
    {
        match self.forward.pop() {
            Some(next) => {
                self.leave();
                let cur = self.record_current();
                self.history.push(cur);
                assert(self@ =~= (app::Model {
                    forward: old(self)@.forward.drop_last(),
                    history: old(self)@.history.push(old(self)@.here()),
                    ..old(self)@.leaving()
                }));
                self.load(next)
            },
            None => Effect::Nothing,
        }
    }

    /// Shows a file that was read.
    pub fn show_file(&mut self, path: String, raw: String, meta: Option<FileMeta>, scroll: u16)
        ensures
            final(self)@ == old(self)@.show_file(path@, raw@, meta, scroll),
    {
        let mut r = Reader::from_file(path, raw, meta);
        r.scroll = scroll;
        self.view = app::View::Reader(r);
        self.selection = None;
    }

    /// Shows a directory that was listed.
    pub fn show_dir(&mut self, dir: &str, items: &[DirItem], scroll: u16, selected: Option<usize>)
        ensures
            final(self)@ == old(self)@.show_dir(dir@, views::views(items@), scroll, selected),
    {
        let mut b = Browser::scan(dir, items);
        b.scroll = scroll;
        match selected {
            Some(s) => {
                let n = b.entries.len();
                b.selected = if s < n {
                    s
                } else if n > 0 {
                    n - 1
                } else {
                    0
                };
            },
            None => {},
        }
        self.view = app::View::Browser(b);
        self.selection = None;
    }

    fn scroll_to_anchor(&mut self, slug: &str)
        ensures
            final(self)@ == old(self)@.to_anchor(slug@),
    {
        match &mut self.view {
            app::View::Reader(r) => {
                let line: Option<usize> = match &r.rendered {
                    Some(rd) => match rd.link_map.anchors.get(slug) {
                        Some(l) => Some(*l),
                        None => None,
                    },
                    None => {
                        return ;
                    },
                };
                match line {
                    Some(l) => {
                        r.scroll = to_scroll(l);
                        self.status = joined("→ #", slug);
                    },
                    None => {
                        self.status = joined("Anchor not found: #", slug);
                    },
                }
            },
            app::View::Browser(_) => {},
        }
    }

    /// Follows a link.
    pub fn follow(&mut self, target: LinkTarget) -> (e: Effect)
        ensures
            (final(self)@, e@) == old(self)@.follow(target@),
    {
        match target {
            LinkTarget::Url(u) => {
                self.status = joined("Opened ", &u);
                Effect::OpenUrl(u)
            },
            LinkTarget::Anchor(a) => {
                self.scroll_to_anchor(&a);
                Effect::Nothing
            },
            LinkTarget::LocalFile(p) => Effect::FindFile { path: p, anchor: None },
            LinkTarget::FileAnchor(p, a) => Effect::FindFile { path: p, anchor: Some(a) },
        }
    }

    /// Opens a file outside the program.
    pub fn open_external(&mut self, path: String) -> (e: Effect)
        ensures
            (final(self)@, e@) == old(self)@.external(path@),
    {
        self.status = joined("Opened externally: ", &path);
        Effect::OpenPath(path)
    }

    /// Goes where a file link leads, once it is known whether its file exists and
    /// whether that is a directory.
    pub fn found(&mut self, path: &str, anchor: Option<String>, hit: Option<(String, bool)>) -> (e:
        Effect)
        ensures
            (final(self)@, e@) == old(self)@.found(
                path@,
                views::opt_view(anchor),
                match hit {
                    Some((p, d)) => Some((p@, d)),
                    None => None,
                },
            ),
    {
        match hit {
            None => {
                self.status = joined("Not found: ", path);
                Effect::Nothing
            },
            Some((p, is_dir)) => {
                if anchor.is_none() && is_dir {
                    self.navigate_to(EntryKind::Directory(p), 0)
                } else if is_markdown_file(&p) {
                    let e = self.navigate_to(EntryKind::File(p), 0);
                    self.pending_anchor = anchor;
                    e
                } else {
                    self.open_external(p)
                }
            },
        }
    }
}

impl app::Model {
    /// Goes where an entry of the browser leads.
    pub open spec fn entered(self, e: browser::EntryView) -> (app::Model, app::EffectModel) {
        match e.kind {
            BrowserEntryKind::ParentDir | BrowserEntryKind::Dir => self.navigate(
                app::KindModel::Directory(e.path),
                0,
            ),
            BrowserEntryKind::Markdown => self.navigate(app::KindModel::File(e.path), 0),
        }
    }
}

impl App {
    /// Goes where an entry of the browser leads.
    pub fn activate_browser_entry(&mut self, entry: BrowserEntry) -> (e: Effect)
        ensures
            (final(self)@, e@) == old(self)@.entered(entry@),
    {
        match entry.kind {
            BrowserEntryKind::ParentDir | BrowserEntryKind::Dir => self.navigate_to(
                EntryKind::Directory(entry.path),
                0,
            ),
            BrowserEntryKind::Markdown => self.navigate_to(EntryKind::File(entry.path), 0),
        }
    }
}

/// The directory that searches start from: that of the file, the directory
/// itself, or the working directory.
pub fn derive_root(source: &Source, cwd: &str) -> (r: String)
    ensures
        r@ == (match source {
            Source::File(p) => match paths::parent_of(p@) {
                Some(d) => d,
                None => cwd@,
            },
            Source::Directory(d) => d@,
            Source::Stdin(_) => cwd@,
        }),
{
    match source {
        Source::File(p) => match paths::parent(p) {
            Some(d) => d,
            None => cwd.to_string(),
        },
        Source::Directory(d) => d.clone(),
        Source::Stdin(_) => cwd.to_string(),
    }
}

// ---------------------------------------------------------------------------
// File changes
// ---------------------------------------------------------------------------

impl app::Model {
    /// The document on screen.
    pub open spec fn doc(self) -> Option<reader::ReaderModel> {
        match self.view {
            app::Screen::Reader(r) => Some(r),
            app::Screen::Browser(_) => None,
        }
    }

    /// The state without selected text.
    pub open spec fn unselected(self) -> app::Model {
        app::Model { selection: None, ..self }
    }

    pub open spec fn with_doc(self, r: reader::ReaderModel) -> app::Model {
        app::Model { view: app::Screen::Reader(r), ..self }
    }

    /// Whether the task markers and the rows of source text on screen stand in the
    /// text of the document.
    pub open spec fn marks_stand(self) -> bool {
        match self.doc() {
            Some(r) => r.marks_stand(),
            None => true,
        }
    }

    /// The file to be watched: that of the document, unless it is being edited.
    pub open spec fn watched(self) -> Option<Seq<char>> {
        match self.doc() {
            Some(r) => match r.origin {
                reader::OriginModel::File(p) if r.edit is None => Some(p),
                _ => None,
            },
            None => None,
        }
    }

    /// Whether a fingerprint of the watched file differs from the known one.
    pub open spec fn is_stale(self, meta: FileMeta) -> bool {
        self.watched() is Some && self.doc()->0.last_meta != Some(meta)
    }

    /// Takes in the content of the watched file where its fingerprint moved. What
    /// was shown is dropped only if the content differs.
    pub open spec fn reloaded(self, meta: FileMeta, raw: Seq<char>) -> app::Model {
        if !self.is_stale(meta) {
            self
        } else {
            let r = self.doc()->0;
            let seen = reader::ReaderModel { last_meta: Some(meta), ..r };
            if raw == r.raw {
                self.with_doc(seen)
            } else {
                self.unselected().with_doc(
                    reader::ReaderModel {
                        raw,
                        rendered: None,
                        hover_link: None,
                        hover_checkbox: None,
                        focus: None,
                        doc_search: match r.doc_search {
                            Some(s) => Some(
                                reader::DocSearchModel { matches: Seq::empty(), current: 0, ..s },
                            ),
                            None => None,
                        },
                        ..seen
                    },
                ).told("File reloaded"@)
            }
        }
    }

    /// Flips a task marker of a file: its text changes and is to be written. Nothing
    /// else changes before that is done. Text from standard input stays as it is.
    pub open spec fn toggle(self, idx: usize) -> (app::Model, app::EffectModel) {
        match self.doc() {
            Some(r) => match (r.rendered, r.origin) {
                (Some(rd), reader::OriginModel::File(p)) => if idx < rd.boxes.len() {
                    let cb = rd.boxes[idx as int];
                    match app::toggled(r.raw, cb.source_offset, cb.checked) {
                        Some(raw) => (
                            self.with_doc(reader::ReaderModel { raw, ..r }),
                            app::EffectModel::WriteFile {
                                path: p,
                                text: raw,
                                cause: WriteCause::Toggle { was_checked: cb.checked },
                            },
                        ),
                        None => (self, app::EffectModel::Nothing),
                    }
                } else {
                    (self, app::EffectModel::Nothing)
                },
                _ => (self, app::EffectModel::Nothing),
            },
            None => (self, app::EffectModel::Nothing),
        }
    }

    /// Settles a write of the document's file that succeeded. The fingerprint is noted,
    /// a saved edit is clean, and a document with a flipped marker is to be rendered
    /// anew.
    pub open spec fn write_settled(self, cause: WriteCause, meta: Option<FileMeta>) -> app::Model {
        match self.doc() {
            Some(r) => match (cause, r.origin, r.edit) {
                (WriteCause::Save, reader::OriginModel::File(p), Some(e)) => self.with_doc(
                    reader::ReaderModel {
                        last_meta: meta,
                        edit: Some(reader::EditModel { dirty: false, discard_pending: false, ..e }),
                        ..r
                    },
                ).told("Saved "@ + p),
                (
                    WriteCause::Toggle { was_checked },
                    reader::OriginModel::File(_),
                    _,
                ) => self.unselected().with_doc(
                    reader::ReaderModel {
                        last_meta: meta,
                        rendered: None,
                        hover_checkbox: None,
                        hover_link: None,
                        ..r
                    },
                ).told(
                    if was_checked {
                        "Unchecked"@
                    } else {
                        "Checked"@
                    },
                ),
                _ => self,
            },
            None => self,
        }
    }
}

/// Flips the task marker at a byte offset.
pub fn toggle_marker(raw: &str, offset: usize, was_checked: bool) -> (r: Option<String>)
    ensures
        views::opt_view(r) == app::toggled(raw@, offset, was_checked),
{
    let cs = chars_of(raw);
    let len = text::byte_len(raw);
    if len < 3 || offset > len - 3 {
        return None;
    }
    let (a, ab) = locate(&cs, offset);
    let (b, bb) = locate(&cs, offset + 3);
    if ab != offset || bb != offset + 3 {
        return None;
    }
    let n = cs.len();
    proof {
        if b < a {
            bytes::lemma_byte_pos_monotone(cs@, b as int, a as int);
        }
    }
    let mut out = from_chars(&cs, 0, a);
    out.push_str(
        if was_checked {
            "[ ]"
        } else {
            "[x]"
        },
    );
    out.push_str(&from_chars(&cs, b, n));
    assert(cs@.subrange(0, a as int) =~= cs@.take(a as int));
    assert(cs@.subrange(b as int, n as int) =~= cs@.skip(b as int));
    Some(out)
}

fn same_meta(a: Option<FileMeta>, b: FileMeta) -> (r: bool)
    ensures
        r == (a == Some(b)),
{
    match a {
        Some(m) => m.secs == b.secs && m.nanos == b.nanos && m.size == b.size,
        None => false,
    }
}

impl App {
    /// The file to be watched for changes from outside.
    pub fn watched_path(&self) -> (r: Option<&String>)
        ensures
            match r {
                Some(p) => self@.watched() == Some(p@),
                None => self@.watched() is None,
            },
    {
        match &self.view {
            app::View::Reader(r) => if r.edit.is_some() {
                None
            } else {
                match &r.origin {
                    ReaderOrigin::File(p) => Some(p),
                    ReaderOrigin::Stdin => None,
                }
            },
            app::View::Browser(_) => None,
        }
    }

    /// Whether the watched file has to be read again.
    pub fn needs_reload(&self, meta: FileMeta) -> (r: bool)
        ensures
            r == self@.is_stale(meta),
    {
        match &self.view {
            app::View::Reader(r) => {
                if r.edit.is_some() {
                    return false;
                }
                match &r.origin {
                    ReaderOrigin::File(_) => !same_meta(r.last_meta, meta),
                    ReaderOrigin::Stdin => false,
                }
            },
            app::View::Browser(_) => false,
        }
    }

    /// Takes in the watched file after a change from outside. True when the
    /// content on screen changed.
    pub fn poll_external_change(&mut self, meta: FileMeta, new_raw: String) -> (changed: bool)
        ensures
            final(self)@ == old(self)@.reloaded(meta, new_raw@),
            changed == (old(self)@.is_stale(meta) && new_raw@ != old(self)@.doc()->0.raw),
    {
        if !self.needs_reload(meta) {
            return false;
        }
        match &mut self.view {
            app::View::Reader(r) => {
                r.last_meta = Some(meta);
                if same_text(&new_raw, &r.raw) {
                    return false;
                }
                r.raw = new_raw;
                r.rendered = None;
                r.hover_link = None;
                r.hover_checkbox = None;
                r.focus = None;
                match &mut r.doc_search {
                    Some(s) => {
                        s.matches.clear();
                        s.current = 0;
                        assert(s.matches@ =~= Seq::empty());
                    },
                    None => {},
                }
                self.status = "File reloaded".to_string();
                self.selection = None;
                true
            },
            app::View::Browser(_) => false,
        }
    }

    /// Flips the task marker `idx` of the document.
    pub fn toggle_checkbox(&mut self, idx: usize) -> (e: Effect)
        ensures
            (final(self)@, e@) == old(self)@.toggle(idx),
    {
        match &mut self.view {
            app::View::Reader(r) => {
                let path = match &r.origin {
                    ReaderOrigin::File(p) => p.clone(),
                    ReaderOrigin::Stdin => {
                        return Effect::Nothing;
                    },
                };
                let (offset, was_checked): (usize, bool) = match &r.rendered {
                    Some(rd) => if idx < rd.checkbox_map.items.len() {
                        (rd.checkbox_map.items[idx].source_offset, rd.checkbox_map.items[idx].checked)
                    } else {
                        return Effect::Nothing;
                    },
                    None => {
                        return Effect::Nothing;
                    },
                };
                match toggle_marker(&r.raw, offset, was_checked) {
                    Some(raw) => {
                        r.raw = raw.clone();
                        Effect::WriteFile {
                            path,
                            text: raw,
                            cause: WriteCause::Toggle { was_checked },
                        }
                    },
                    None => Effect::Nothing,
                }
            },
            app::View::Browser(_) => Effect::Nothing,
        }
    }

    /// Takes in what came of a write that was asked for: whether it succeeded, and the
    /// fingerprint of the file after it. A write that failed changes nothing.
    pub fn written(&mut self, cause: WriteCause, ok: bool, meta: Option<FileMeta>)
        ensures
            ok ==> final(self)@ == old(self)@.write_settled(cause, meta),
            !ok ==> final(self)@ == old(self)@,
    {
        if !ok {
            return ;
        }
        match &mut self.view {
            app::View::Reader(r) => {
                let path = match &r.origin {
                    ReaderOrigin::File(p) => p.clone(),
                    ReaderOrigin::Stdin => {
                        return ;
                    },
                };
                match cause {
                    WriteCause::Save => match &mut r.edit {
                        Some(e) => {
                            e.dirty = false;
                            e.discard_pending = false;
                            r.last_meta = meta;
                            self.status = joined("Saved ", &path);
                        },
                        None => {},
                    },
                    WriteCause::Toggle { was_checked } => {
                        r.last_meta = meta;
                        r.rendered = None;
                        r.hover_checkbox = None;
                        r.hover_link = None;
                        self.selection = None;
                        self.status = if was_checked {
                            "Unchecked".to_string()
                        } else {
                            "Checked".to_string()
                        };
                    },
                }
            },
            app::View::Browser(_) => {},
        }
    }
}

// ---------------------------------------------------------------------------
// Search
// ---------------------------------------------------------------------------

/// A selection of `current` among `n`, back to the first where it is none.
pub open spec fn kept(current: usize, n: nat) -> usize {
    if current < n {
        current
    } else {
        0
    }
}

impl app::Model {
    /// Opens the search in the document.
    pub open spec fn doc_search_opened(self) -> app::Model {
        match self.doc() {
            Some(r) => self.with_doc(
                reader::ReaderModel {
                    doc_search: Some(
                        reader::DocSearchModel {
                            query: Seq::empty(),
                            matches: Seq::empty(),
                            current: 0,
                            editing: true,
                        },
                    ),
                    ..r
                },
            ).told(Seq::empty()),
            None => self,
        }
    }

    /// Closes the search in the document.
    pub open spec fn doc_search_closed(self) -> app::Model {
        match self.doc() {
            Some(r) => self.with_doc(reader::ReaderModel { doc_search: None, ..r }),
            None => self,
        }
    }

    /// Finds the matches of the query in what is rendered.
    pub open spec fn doc_search_refreshed(self) -> app::Model {
        match self.doc() {
            Some(r) => match (r.rendered, r.doc_search) {
                (Some(rd), Some(s)) => {
                    let matches = if s.query.len() == 0 {
                        Seq::empty()
                    } else {
                        search::doc_matches(rd.lines, s.query, rd.lines.len() as int)
                    };
                    self.with_doc(
                        reader::ReaderModel {
                            doc_search: Some(
                                reader::DocSearchModel {
                                    matches,
                                    current: kept(s.current, matches.len()),
                                    ..s
                                },
                            ),
                            ..r
                        },
                    )
                },
                _ => self,
            },
            None => self,
        }
    }

    /// Scrolls the current match to the middle of the body.
    pub open spec fn match_centered(self) -> app::Model {
        match self.doc() {
            Some(r) => match r.doc_search {
                Some(s) => if s.current < s.matches.len() {
                    let h = self.viewport.height as int;
                    let top = app::max_scroll(s.matches[s.current as int].line as int, h / 2);
                    self.with_doc(
                        reader::ReaderModel {
                            scroll: scroll_of(
                                app::clamped(top, app::max_scroll(r.total() as int, h)),
                            ),
                            ..r
                        },
                    )
                } else {
                    self
                },
                None => self,
            },
            None => self,
        }
    }

    /// Ends the typing of a query and goes to its first match.
    pub open spec fn doc_search_committed(self) -> app::Model {
        match self.doc() {
            Some(r) => match r.doc_search {
                Some(s) => {
                    let done = reader::DocSearchModel { editing: false, ..s };
                    if s.matches.len() == 0 {
                        self.with_doc(
                            reader::ReaderModel { doc_search: Some(done), ..r },
                        ).told("No matches"@)
                    } else {
                        self.with_doc(
                            reader::ReaderModel {
                                doc_search: Some(
                                    reader::DocSearchModel { current: 0, ..done },
                                ),
                                ..r
                            },
                        ).match_centered()
                    }
                },
                None => self,
            },
            None => self,
        }
    }

    /// Goes to the next or the previous match, around the ends.
    pub open spec fn doc_search_stepped(self, forward: bool) -> app::Model {
        match self.doc() {
            Some(r) => match r.doc_search {
                Some(s) => if s.matches.len() == 0 {
                    self
                } else {
                    let delta: int = if forward {
                        1
                    } else {
                        -1
                    };
                    self.with_doc(
                        reader::ReaderModel {
                            doc_search: Some(
                                reader::DocSearchModel {
                                    current: ((s.current + delta) % (s.matches.len() as int))
                                        as usize,
                                    ..s
                                },
                            ),
                            ..r
                        },
                    ).match_centered()
                },
                None => self,
            },
            None => self,
        }
    }

    /// The document search with another query, matched anew.
    pub open spec fn doc_query(self, q: Seq<char>) -> app::Model {
        match self.doc() {
            Some(r) => match r.doc_search {
                Some(s) => self.with_doc(
                    reader::ReaderModel {
                        doc_search: Some(reader::DocSearchModel { query: q, ..s }),
                        ..r
                    },
                ).doc_search_refreshed(),
                None => self,
            },
            None => self,
        }
    }
}

impl App {
    /// Asks for the search index.
    pub fn open_search(&mut self) -> (e: Effect)
        ensures
            final(self)@ == old(self)@,
            e@ == app::EffectModel::BuildIndex,
    {
        Effect::BuildIndex
    }

    /// Opens the file search on an index of paths.
    pub fn show_search(&mut self, index: Vec<IndexedPath>)
        ensures
            final(self)@ == (app::Model {
                search: Some(
                    app::SearchModel {
                        query: Seq::empty(),
                        results: search::found(views::views(index@), Seq::empty()),
                        selected: 0,
                        paths: views::views(index@),
                    },
                ),
                ..old(self)@
            }),
    {
        self.search = Some(Search::build(index));
    }

    /// Closes the file search.
    pub fn close_search(&mut self)
        ensures
            final(self)@ == (app::Model { search: None, ..old(self)@ }),
    {
        self.search = None;
    }

    /// Opens the search in the document.
    pub fn open_doc_search(&mut self)
        ensures
            final(self)@ == old(self)@.doc_search_opened(),
    {
        match &mut self.view {
            app::View::Reader(r) => {
                let s = DocSearch {
                    query: String::new(),
                    matches: Vec::new(),
                    current: 0,
                    editing: true,
                };
                assert(s.query@ =~= Seq::empty());
                r.doc_search = Some(s);
                self.status = String::new();
                assert(self.status@ =~= Seq::empty());
            },
            app::View::Browser(_) => {},
        }
    }

    /// Closes the search in the document.
    pub fn close_doc_search(&mut self)
        ensures
            final(self)@ == old(self)@.doc_search_closed(),
    {
        match &mut self.view {
            app::View::Reader(r) => {
                r.doc_search = None;
            },
            app::View::Browser(_) => {},
        }
    }

    /// Finds the matches of the current query.
    pub fn doc_search_refresh(&mut self)
        ensures
            final(self)@ == old(self)@.doc_search_refreshed(),
    {
        match &mut self.view {
            app::View::Reader(r) => match (&r.rendered, &mut r.doc_search) {
                (Some(rd), Some(s)) => {
                    s.matches = find_doc_matches(&rd.lines, &s.query);
                    if s.current >= s.matches.len() {
                        s.current = 0;
                    }
                },
                _ => {},
            },
            app::View::Browser(_) => {},
        }
    }

    fn center_on_doc_match(&mut self)
        ensures
            final(self)@ == old(self)@.match_centered(),
    {
        let h = self.viewport.height as usize;
        match &mut self.view {
            app::View::Reader(r) => match &r.doc_search {
                Some(s) => if s.current < s.matches.len() {
                    let top = max_scroll(s.matches[s.current].line, h / 2);
                    let total: usize = match &r.rendered {
                        Some(rd) => rd.lines.len(),
                        None => 0,
                    };
                    let max = max_scroll(total, h);
                    r.scroll = to_scroll(
                        if top > max {
                            max
                        } else {
                            top
                        },
                    );
                },
                None => {},
            },
            app::View::Browser(_) => {},
        }
    }

    /// Ends the typing of a query and goes to its first match.
    pub fn doc_search_commit(&mut self)
        ensures
            final(self)@ == old(self)@.doc_search_committed(),
    {
        let mut center = false;
        match &mut self.view {
            app::View::Reader(r) => match &mut r.doc_search {
                Some(s) => {
                    s.editing = false;
                    if s.matches.len() == 0 {
                        self.status = "No matches".to_string();
                    } else {
                        s.current = 0;
                        center = true;
                    }
                },
                None => {},
            },
            app::View::Browser(_) => {},
        }
        if center {
            self.center_on_doc_match();
        }
    }

    /// Goes to the next or the previous match.
    pub fn doc_search_step(&mut self, forward: bool)
        ensures
            final(self)@ == old(self)@.doc_search_stepped(forward),
    {
        let mut center = false;
        match &mut self.view {
            app::View::Reader(r) => match &mut r.doc_search {
                Some(s) => {
                    let n = s.matches.len();
                    if n > 0 {
                        s.current = search::wrap_index(
                            s.current,
                            if forward {
                                1
                            } else {
                                -1
                            },
                            n,
                        );
                        center = true;
                    }
                },
                None => {},
            },
            app::View::Browser(_) => {},
        }
        if center {
            self.center_on_doc_match();
        }
    }
}

// ---------------------------------------------------------------------------
// Git lens
// ---------------------------------------------------------------------------

impl app::Model {
    /// Closes the diff, or asks for that of the open file. There is none while
    /// editing, for standard input and for directories.
    pub open spec fn git_lens_toggled(self) -> (app::Model, app::EffectModel) {
        match self.doc() {
            Some(r) if r.edit is Some => (
                self.told("Git lens unavailable while editing"@),
                app::EffectModel::Nothing,
            ),
            doc => if self.git_lens is Some {
                (
                    app::Model { git_lens: None, ..self }.told(Seq::empty()),
                    app::EffectModel::Nothing,
                )
            } else {
                match doc {
                    Some(r) => match r.origin {
                        reader::OriginModel::File(p) => (
                            self,
                            app::EffectModel::GitDiff { path: p },
                        ),
                        reader::OriginModel::Stdin => (
                            self.told("Git lens unavailable for stdin"@),
                            app::EffectModel::Nothing,
                        ),
                    },
                    None => (self, app::EffectModel::Nothing),
                }
            },
        }
    }

    /// Shows a diff, or says why there is none.
    pub open spec fn diff_shown(self, ok: bool, out: Seq<char>) -> app::Model {
        if ok {
            app::Model {
                git_lens: Some(
                    app::LensModel {
                        rows: diff::shown_rows(diff::diff_rows(diff::lines_from(out, 0))),
                        scroll: 0,
                    },
                ),
                ..self
            }
        } else {
            self.told("git diff: "@ + out)
        }
    }

    /// Scrolls the diff.
    pub open spec fn lens_scrolled(self, delta: int) -> app::Model {
        match self.git_lens {
            Some(g) => app::Model {
                git_lens: Some(
                    app::LensModel {
                        scroll: scroll_of(
                            app::clamped(
                                g.scroll + delta,
                                app::max_scroll(
                                    g.rows.len() as int,
                                    self.viewport.height as int,
                                ),
                            ),
                        ),
                        ..g
                    },
                ),
                ..self
            },
            None => self,
        }
    }
}

impl App {
    /// Opens or closes the diff of the open file.
    pub fn toggle_git_lens(&mut self) -> (e: Effect)
        ensures
            (final(self)@, e@) == old(self)@.git_lens_toggled(),
    {
        match &self.view {
            app::View::Reader(r) => {
                if r.edit.is_some() {
                    self.status = "Git lens unavailable while editing".to_string();
                    return Effect::Nothing;
                }
            },
            app::View::Browser(_) => {},
        }
        if self.git_lens.is_some() {
            self.git_lens = None;
            self.status = String::new();
            assert(self.status@ =~= Seq::empty());
            return Effect::Nothing;
        }
        match &self.view {
            app::View::Reader(r) => match &r.origin {
                ReaderOrigin::File(p) => Effect::GitDiff { path: p.clone() },
                ReaderOrigin::Stdin => {
                    self.status = "Git lens unavailable for stdin".to_string();
                    Effect::Nothing
                },
            },
            app::View::Browser(_) => Effect::Nothing,
        }
    }

    /// Shows what a diff printed: its output, or its error.
    pub fn show_diff(&mut self, ok: bool, out: &str)
        ensures
            final(self)@ == old(self)@.diff_shown(ok, out@),
    {
        if ok {
            self.git_lens = Some(GitLensState { rows: lens_rows(out), scroll: 0 });
        } else {
            self.status = joined("git diff: ", out);
        }
    }

    /// Scrolls the diff by `delta` rows.
    pub fn git_lens_scroll(&mut self, delta: i32)
        ensures
            final(self)@ == old(self)@.lens_scrolled(delta as int),
    {
        let h = self.viewport.height as usize;
        match &mut self.git_lens {
            Some(g) => {
                let max = max_scroll(g.rows.len(), h);
                g.scroll = to_scroll(clamp_shift(g.scroll as usize, delta as i64, max));
            },
            None => {},
        }
    }
}

// ---------------------------------------------------------------------------
// Editing
// ---------------------------------------------------------------------------

/// An edit that was just begun.
pub open spec fn fresh_edit() -> reader::EditModel {
    reader::EditModel {
        cursor: 0,
        dirty: false,
        discard_pending: false,
        mode: EditMode::Inline,
        undo: Seq::empty(),
        redo: Seq::empty(),
    }
}

impl app::Model {
    /// Begins an edit of the open file.
    pub open spec fn edit_entered(self) -> app::Model {
        match self.doc() {
            Some(r) => match r.origin {
                reader::OriginModel::Stdin => self.told("Cannot edit: source is stdin"@),
                reader::OriginModel::File(_) => self.unselected().with_doc(
                    r.with_edit(fresh_edit()),
                ).told(Seq::empty()),
            },
            None => self,
        }
    }

    /// Ends an edit without keeping its changes; the file has to be read anew.
    pub open spec fn edit_discarded(self) -> (app::Model, app::EffectModel) {
        match self.doc() {
            Some(r) if r.edit is Some => (
                self.unselected().with_doc(
                    reader::ReaderModel { edit: None, rendered: None, ..r },
                ).told("Edit discarded"@),
                match r.origin {
                    reader::OriginModel::File(p) => app::EffectModel::ReadBack { path: p },
                    reader::OriginModel::Stdin => app::EffectModel::Nothing,
                },
            ),
            _ => (self, app::EffectModel::Nothing),
        }
    }

    /// Puts the content of the file back on screen.
    pub open spec fn restored(self, raw: Seq<char>, meta: Option<FileMeta>) -> app::Model {
        match self.doc() {
            Some(r) => self.unselected().with_doc(
                reader::ReaderModel { raw, last_meta: meta, rendered: None, ..r },
            ),
            None => self,
        }
    }

    /// Ends an edit and keeps the buffer.
    pub open spec fn edit_left(self) -> app::Model {
        match self.doc() {
            Some(r) => self.unselected().with_doc(
                reader::ReaderModel { edit: None, rendered: None, ..r },
            ),
            None => self,
        }
    }

    /// Saves an edit: the buffer is to be written. Nothing changes before that is done.
    pub open spec fn edit_saved(self) -> (app::Model, app::EffectModel) {
        (
            self,
            match self.doc() {
                Some(r) => match (r.edit, r.origin) {
                    (Some(_), reader::OriginModel::File(p)) => app::EffectModel::WriteFile {
                        path: p,
                        text: r.raw,
                        cause: WriteCause::Save,
                    },
                    _ => app::EffectModel::Nothing,
                },
                None => app::EffectModel::Nothing,
            },
        )
    }

    /// The width that the document is rendered at on a body of `width` columns.
    pub open spec fn render_width(self, width: u16) -> u16 {
        if self.opts.width == 0 || self.opts.width > width {
            width
        } else {
            self.opts.width
        }
    }

    /// Scrolls to the anchor of the link that led here, once the document is rendered.
    pub open spec fn anchor_settled(self) -> app::Model {
        match (self.doc(), self.pending_anchor) {
            (Some(r), Some(slug)) => if r.rendered is Some {
                app::Model { pending_anchor: None, ..self.to_anchor(slug) }
            } else {
                self
            },
            _ => self,
        }
    }

    /// The document in its rendering, at the place where a link led.
    pub open spec fn ensured(self, width: u16, hl: Highlighter) -> app::Model {
        self.rendered_for(width, hl).anchor_settled()
    }

    /// Renders the document where that is due: at the first time, at another
    /// width, and at each step of an edit.
    pub open spec fn rendered_for(self, width: u16, hl: Highlighter) -> app::Model {
        match self.doc() {
            Some(r) => {
                let w = self.render_width(width);
                let due = match r.rendered {
                    Some(rd) => rd.width != w || r.edit is Some,
                    None => true,
                };
                if due {
                    let rd = r.rendering(w, self.opts.theme, hl);
                    let last = scroll_of(app::max_scroll(rd.lines.len() as int, 1));
                    self.with_doc(
                        reader::ReaderModel {
                            rendered: Some(rd),
                            scroll: if r.scroll > last {
                                last
                            } else {
                                r.scroll
                            },
                            ..r
                        },
                    )
                } else {
                    self
                }
            },
            None => self,
        }
    }

    /// Applies an edit to the document.
    pub open spec fn edited(self, r: reader::ReaderModel) -> app::Model {
        match self.doc() {
            Some(_) => self.unselected().with_doc(r),
            None => self,
        }
    }
}

impl reader::ReaderModel {
    /// The rendering of a document.
    pub open spec fn rendering(
        self,
        width: u16,
        theme: Theme,
        hl: Highlighter,
    ) -> markdown::RenderedView {
        let evs = parse::document_events(self.raw);
        let base = match self.origin {
            reader::OriginModel::File(p) => paths::parent_of(p),
            reader::OriginModel::Stdin => None,
        };
        match self.edit {
            Some(e) if e.mode is Inline => markdown::rendered(
                markdown::with_source(evs, self.raw, e.cursor),
                base,
                width,
                theme,
                hl,
                Some(e.cursor),
            ),
            _ => markdown::rendered(evs, base, width, theme, hl, None),
        }
    }
}

fn render_reader(r: &Reader, width: u16, theme: &Theme, hl: &Highlighter) -> (rd: markdown::Rendered)
    ensures
        rd@ == r@.rendering(width, *theme, *hl),
        markdown::boxes_marked(rd@.boxes, r.raw@),
        markdown::rows_stand(rd@.row_source, r.raw@),
{
    let base: Option<String> = match &r.origin {
        ReaderOrigin::File(p) => paths::parent(p),
        ReaderOrigin::Stdin => None,
    };
    let edit = match &r.edit {
        Some(e) => if matches!(e.mode, EditMode::Inline) {
            Some(EditCtx { cursor: e.cursor })
        } else {
            None
        },
        None => None,
    };
    let rd = match &base {
        Some(b) => render_with_edit(&r.raw, Some(b.as_str()), width, theme, hl, edit),
        None => render_with_edit(&r.raw, None, width, theme, hl, edit),
    };
    proof {
        markdown::lemma_boxes_marked(rd@.boxes, r.raw@);
    }
    rd
}

impl App {
    /// Begins an edit of the open file.
    pub fn enter_edit(&mut self)
        ensures
            final(self)@ == old(self)@.edit_entered(),
    {
        match &mut self.view {
            app::View::Reader(r) => match &r.origin {
                ReaderOrigin::Stdin => {
                    self.status = "Cannot edit: source is stdin".to_string();
                },
                ReaderOrigin::File(_) => {
                    let e = EditState {
                        cursor: 0,
                        dirty: false,
                        discard_pending: false,
                        mode: EditMode::Inline,
                        undo: Vec::new(),
                        redo: Vec::new(),
                    };
                    assert(e@ =~= fresh_edit());
                    r.edit = Some(e);
                    r.rendered = None;
                    self.selection = None;
                    self.status = String::new();
                    assert(self.status@ =~= Seq::empty());
                },
            },
            app::View::Browser(_) => {},
        }
    }

    /// Ends an edit without keeping its changes.
    pub fn exit_edit_discard(&mut self) -> (e: Effect)
        ensures
            (final(self)@, e@) == old(self)@.edit_discarded(),
    {
        match &mut self.view {
            app::View::Reader(r) => {
                if r.edit.is_none() {
                    return Effect::Nothing;
                }
                r.edit = None;
                r.rendered = None;
                self.selection = None;
                self.status = "Edit discarded".to_string();
                match &r.origin {
                    ReaderOrigin::File(p) => Effect::ReadBack { path: p.clone() },
                    ReaderOrigin::Stdin => Effect::Nothing,
                }
            },
            app::View::Browser(_) => Effect::Nothing,
        }
    }

    /// Puts the content of the file back on screen.
    pub fn restore(&mut self, raw: String, meta: Option<FileMeta>)
        ensures
            final(self)@ == old(self)@.restored(raw@, meta),
    {
        match &mut self.view {
            app::View::Reader(r) => {
                r.raw = raw;
                r.last_meta = meta;
                r.rendered = None;
                self.selection = None;
            },
            app::View::Browser(_) => {},
        }
    }

    /// Ends an edit and keeps the buffer.
    pub fn exit_edit(&mut self)
        ensures
            final(self)@ == old(self)@.edit_left(),
    {
        match &mut self.view {
            app::View::Reader(r) => {
                r.edit = None;
                r.rendered = None;
                self.selection = None;
            },
            app::View::Browser(_) => {},
        }
    }

    /// Saves the buffer: it is to be written, and [`App::written`] takes in the outcome.
    pub fn save_edit(&mut self) -> (e: Effect)
        ensures
            (final(self)@, e@) == old(self)@.edit_saved(),
    {
        match &self.view {
            app::View::Reader(r) => match (&r.edit, &r.origin) {
                (Some(_), ReaderOrigin::File(p)) => Effect::WriteFile {
                    path: p.clone(),
                    text: r.raw.clone(),
                    cause: WriteCause::Save,
                },
                _ => Effect::Nothing,
            },
            app::View::Browser(_) => Effect::Nothing,
        }
    }

    /// Renders the document for a body of `width` columns, where that is due, and
    /// scrolls to the anchor of the link that led to it.
    pub fn ensure_rendered(&mut self, width: u16, hl: &Highlighter)
        ensures
            final(self)@ == old(self)@.ensured(width, *hl),
            old(self)@.marks_stand() ==> final(self)@.marks_stand(),
    {
        self.render_for(width, hl);
        let shown = match &self.view {
            app::View::Reader(r) => r.rendered.is_some(),
            app::View::Browser(_) => false,
        };
        if shown {
            match self.pending_anchor.take() {
                Some(slug) => self.scroll_to_anchor(&slug),
                None => {},
            }
        }
    }

    fn render_for(&mut self, width: u16, hl: &Highlighter)
        ensures
            final(self)@ == old(self)@.rendered_for(width, *hl),
            old(self)@.marks_stand() ==> final(self)@.marks_stand(),
    {
        let w: u16 = if self.opts.width == 0 || self.opts.width > width {
            width
        } else {
            self.opts.width
        };
        match &mut self.view {
            app::View::Reader(r) => {
                let due = match &r.rendered {
                    Some(rd) => rd.width != w || r.edit.is_some(),
                    None => true,
                };
                if !due {
                    return ;
                }
                let rd = render_reader(r, w, &self.opts.theme, hl);
                let last = to_scroll(max_scroll(rd.lines.len(), 1));
                r.rendered = Some(rd);
                if r.scroll > last {
                    r.scroll = last;
                }
            },
            app::View::Browser(_) => {},
        }
    }

    /// Inserts text at the edit cursor.
    pub fn edit_insert(&mut self, what: &str)
        ensures
            final(self)@ == old(self)@.edited(old(self)@.doc()->0.edit_insert(what@)),
    {
        if let app::View::Reader(r) = &mut self.view {
            r.edit_insert(what);
            self.selection = None;
        }
    }

    /// Removes the character before the edit cursor.
    pub fn edit_backspace(&mut self)
        ensures
            final(self)@ == old(self)@.edited(old(self)@.doc()->0.edit_backspace()),
    {
        if let app::View::Reader(r) = &mut self.view {
            r.edit_backspace();
            self.selection = None;
        }
    }

    /// Removes the character at the edit cursor.
    pub fn edit_delete(&mut self)
        ensures
            final(self)@ == old(self)@.edited(old(self)@.doc()->0.edit_delete()),
    {
        if let app::View::Reader(r) = &mut self.view {
            r.edit_delete();
            self.selection = None;
        }
    }

    /// Undoes the last change.
    pub fn edit_undo(&mut self)
        ensures
            final(self)@ == old(self)@.edited(old(self)@.doc()->0.edit_undo()),
    {
        if let app::View::Reader(r) = &mut self.view {
            r.edit_undo();
            self.selection = None;
        }
    }

    /// Makes an undone change again.
    pub fn edit_redo(&mut self)
        ensures
            final(self)@ == old(self)@.edited(old(self)@.doc()->0.edit_redo()),
    {
        if let app::View::Reader(r) = &mut self.view {
            r.edit_redo();
            self.selection = None;
        }
    }

    /// Moves the edit cursor by one character.
    pub fn edit_move_horizontal(&mut self, delta: i32)
        ensures
            final(self)@ == old(self)@.edited(
                old(self)@.doc()->0.edit_move_horizontal(delta as int),
            ),
    {
        if let app::View::Reader(r) = &mut self.view {
            r.edit_move_horizontal(delta);
            self.selection = None;
        }
    }

    /// Moves the edit cursor by rows.
    pub fn edit_move_vertical(&mut self, delta: i32)
        ensures
            final(self)@ == old(self)@.edited(
                old(self)@.doc()->0.edit_move_vertical(delta as int),
            ),
    {
        if let app::View::Reader(r) = &mut self.view {
            r.edit_move_vertical(delta);
            self.selection = None;
        }
    }

    /// Moves the edit cursor to an end of its line.
    pub fn edit_move_line_edge(&mut self, eol: bool)
        ensures
            final(self)@ == old(self)@.edited(old(self)@.doc()->0.edit_move_line_edge(eol)),
    {
        if let app::View::Reader(r) = &mut self.view {
            r.edit_move_line_edge(eol);
            self.selection = None;
        }
    }

    /// Moves the edit cursor by a word.
    pub fn edit_move_word(&mut self, forward: bool)
        ensures
            final(self)@ == old(self)@.edited(old(self)@.doc()->0.edit_move_word(forward)),
    {
        if let app::View::Reader(r) = &mut self.view {
            r.edit_move_word(forward);
            self.selection = None;
        }
    }

    /// Removes a word at the edit cursor.
    pub fn edit_delete_word(&mut self, forward: bool)
        ensures
            final(self)@ == old(self)@.edited(old(self)@.doc()->0.edit_delete_word(forward)),
    {
        if let app::View::Reader(r) = &mut self.view {
            r.edit_delete_word(forward);
            self.selection = None;
        }
    }
}

// ---------------------------------------------------------------------------
// Drawing and reading on
// ---------------------------------------------------------------------------

impl app::Model {
    /// Takes note of the areas of the screen and renders the document for a body
    /// that leaves a column to the scrollbar.
    pub open spec fn prepared(self, body: Rect, status: Rect, hl: Highlighter) -> app::Model {
        app::Model { viewport: body, statusline_area: status, ..self }.ensured(
            if body.width > 0 {
                (body.width - 1) as u16
            } else {
                0
            },
            hl,
        )
    }

    /// The file that has been read to its end: its last line is on screen, and it
    /// is not being edited.
    pub open spec fn finished(self) -> Option<Seq<char>> {
        match self.doc() {
            Some(r) => match r.origin {
                reader::OriginModel::File(p) => if r.rendered is Some && r.edit is None && r.scroll
                    + self.viewport.height >= r.total() {
                    Some(p)
                } else {
                    None
                },
                reader::OriginModel::Stdin => None,
            },
            None => None,
        }
    }
}

impl App {
    /// Prepares the state for a screen with these areas.
    pub fn prepare(&mut self, body: Rect, status: Rect, hl: &Highlighter)
        ensures
            final(self)@ == old(self)@.prepared(body, status, *hl),
            old(self)@.marks_stand() ==> final(self)@.marks_stand(),
    {
        self.viewport = body;
        self.statusline_area = status;
        self.ensure_rendered(body.width.saturating_sub(1), hl);
    }

    /// The file that has been read to its end.
    pub fn finished_path(&self) -> (r: Option<&String>)
        ensures
            match r {
                Some(p) => self@.finished() == Some(p@),
                None => self@.finished() is None,
            },
    {
        match &self.view {
            app::View::Reader(r) => match (&r.origin, &r.rendered) {
                (ReaderOrigin::File(p), Some(rd)) => if r.edit.is_none() && r.scroll as usize
                    + self.viewport.height as usize >= rd.lines.len() {
                    Some(p)
                } else {
                    None
                },
                _ => None,
            },
            app::View::Browser(_) => None,
        }
    }
}

} // verus!
