//! A document being read or edited.

use vstd::prelude::*;
use crate::bytes;
use crate::editor;
use crate::editor::{
    floor_char_boundary, insert_text, next_char_boundary, prev_char_boundary, remove_between,
    source_line_col, source_line_end, source_line_start, source_offset_at_col, source_offset_for,
    word_offset,
};
use crate::markdown;
use crate::markdown::Rendered;
use crate::order;
use crate::order::{sort_order, Key};
use crate::search::DocMatch;
use crate::text;
use crate::views;

verus! {

broadcast use crate::views::group_views;

/// Where a document comes from.
#[derive(Debug)]
pub enum ReaderOrigin {
    File(String),
    Stdin,
}

/// What a [`ReaderOrigin`] holds.
pub enum OriginModel {
    File(Seq<char>),
    Stdin,
}

impl View for ReaderOrigin {
    type V = OriginModel;

    open spec fn view(&self) -> OriginModel {
        match self {
            ReaderOrigin::File(p) => OriginModel::File(p@),
            ReaderOrigin::Stdin => OriginModel::Stdin,
        }
    }
}

/// Modification time and size of a file: its fingerprint.
#[derive(Clone, Copy, Debug, PartialEq, Eq, Structural)]
pub struct FileMeta {
    /// Time in seconds and nanoseconds, relative to the Unix epoch.
    pub secs: i64,
    pub nanos: u32,
    pub size: u64,
}

/// What the keyboard cursor stands on.
#[derive(Clone, Copy, Debug, PartialEq, Eq, Structural)]
pub enum Focus {
    Link(usize),
    Checkbox(usize),
}

/// In-document search.
#[derive(Debug)]
pub struct DocSearch {
    pub query: String,
    pub matches: Vec<DocMatch>,
    pub current: usize,
    /// True while the query is still being typed.
    pub editing: bool,
}

/// What a [`DocSearch`] holds.
#[verifier::ext_equal]
pub struct DocSearchModel {
    pub query: Seq<char>,
    pub matches: Seq<DocMatch>,
    pub current: usize,
    pub editing: bool,
}

impl View for DocSearch {
    type V = DocSearchModel;

    open spec fn view(&self) -> DocSearchModel {
        DocSearchModel {
            query: self.query@,
            matches: self.matches@,
            current: self.current,
            editing: self.editing,
        }
    }
}

/// A buffer and a cursor to go back to.
#[derive(Debug)]
pub struct EditSnapshot {
    pub raw: String,
    pub cursor: usize,
}

impl View for EditSnapshot {
    type V = (Seq<char>, usize);

    open spec fn view(&self) -> (Seq<char>, usize) {
        (self.raw@, self.cursor)
    }
}

/// How an edit is shown: in the document, or beside it.
#[derive(Clone, Copy, Debug, PartialEq, Eq, Structural)]
pub enum EditMode {
    Inline,
    Split,
}

/// The state of an edit.
#[derive(Debug)]
pub struct EditState {
    /// Cursor as a byte offset into the buffer.
    pub cursor: usize,
    /// True after a change since the last save or load.
    pub dirty: bool,
    /// Set by the first Esc; the second discards.
    pub discard_pending: bool,
    pub mode: EditMode,
    /// Buffers to go back to, the latest last.
    pub undo: Vec<EditSnapshot>,
    /// Buffers that were gone back from, the latest last.
    pub redo: Vec<EditSnapshot>,
}

/// What an [`EditState`] holds.
#[verifier::ext_equal]
pub struct EditModel {
    pub cursor: usize,
    pub dirty: bool,
    pub discard_pending: bool,
    pub mode: EditMode,
    pub undo: Seq<(Seq<char>, usize)>,
    pub redo: Seq<(Seq<char>, usize)>,
}

impl View for EditState {
    type V = EditModel;

    open spec fn view(&self) -> EditModel {
        EditModel {
            cursor: self.cursor,
            dirty: self.dirty,
            discard_pending: self.discard_pending,
            mode: self.mode,
            undo: views::views(self.undo@),
            redo: views::views(self.redo@),
        }
    }
}

/// How many buffers an edit can go back to.
pub const UNDO_LIMIT: usize = 200;

/// A document on screen.
#[derive(Debug)]
pub struct Reader {
    pub origin: ReaderOrigin,
    pub raw: String,
    pub rendered: Option<Rendered>,
    pub scroll: u16,
    /// The keyboard cursor, on a link or a task marker.
    pub focus: Option<Focus>,
    pub hover_link: Option<usize>,
    pub hover_checkbox: Option<usize>,
    pub doc_search: Option<DocSearch>,
    pub edit: Option<EditState>,
    /// Fingerprint of the file when it was last read or written.
    pub last_meta: Option<FileMeta>,
    /// First row of the preview beside a split edit.
    pub preview_scroll: u16,
}

/// What a [`Reader`] holds.
#[verifier::ext_equal]
pub struct ReaderModel {
    pub origin: OriginModel,
    pub raw: Seq<char>,
    pub rendered: Option<markdown::RenderedView>,
    pub scroll: u16,
    pub focus: Option<Focus>,
    pub hover_link: Option<usize>,
    pub hover_checkbox: Option<usize>,
    pub doc_search: Option<DocSearchModel>,
    pub edit: Option<EditModel>,
    pub last_meta: Option<FileMeta>,
    pub preview_scroll: u16,
}

impl View for Reader {
    type V = ReaderModel;

    open spec fn view(&self) -> ReaderModel {
        ReaderModel {
            origin: self.origin@,
            raw: self.raw@,
            rendered: views::opt_view(self.rendered),
            scroll: self.scroll,
            focus: self.focus,
            hover_link: self.hover_link,
            hover_checkbox: self.hover_checkbox,
            doc_search: views::opt_view(self.doc_search),
            edit: views::opt_view(self.edit),
            last_meta: self.last_meta,
            preview_scroll: self.preview_scroll,
        }
    }
}

/// A document that was just opened.
pub open spec fn opened(origin: OriginModel, raw: Seq<char>, meta: Option<FileMeta>) -> ReaderModel {
    ReaderModel {
        origin,
        raw,
        rendered: None,
        scroll: 0,
        focus: None,
        hover_link: None,
        hover_checkbox: None,
        doc_search: None,
        edit: None,
        last_meta: meta,
        preview_scroll: 0,
    }
}

/// `base + delta`, at least zero.
pub open spec fn shifted(base: int, delta: int) -> int {
    if base + delta < 0 {
        0
    } else {
        base + delta
    }
}

fn shift(base: usize, delta: i32) -> (r: usize)
    ensures
        r == text::sat(shifted(base as int, delta as int)),
{
    if delta >= 0 {
        base.saturating_add(delta as usize)
    } else {
        base.saturating_sub((-(delta as i64)) as usize)
    }
}

/// An undo list with one more buffer, the oldest dropped past the limit.
pub open spec fn stacked(s: Seq<(Seq<char>, usize)>, x: (Seq<char>, usize)) -> Seq<
    (Seq<char>, usize),
> {
    if s.len() + 1 > UNDO_LIMIT {
        s.push(x).skip(1)
    } else {
        s.push(x)
    }
}

/// The smaller of a cursor and the length of a buffer.
pub open spec fn within(cursor: usize, raw: Seq<char>) -> usize {
    if cursor > bytes::byte_count(raw) {
        bytes::byte_count(raw) as usize
    } else {
        cursor
    }
}

impl ReaderModel {
    /// Whether the task markers and the rows of source text on screen stand in the
    /// text of the document.
    pub open spec fn marks_stand(self) -> bool {
        match self.rendered {
            Some(rd) => markdown::boxes_marked(rd.boxes, self.raw) && markdown::rows_stand(
                rd.row_source,
                self.raw,
            ),
            None => true,
        }
    }

    /// The document with a changed edit, to be rendered anew.
    pub open spec fn with_edit(self, e: EditModel) -> ReaderModel {
        ReaderModel { edit: Some(e), rendered: None, ..self }
    }

    /// Puts the buffer on the undo list; what was undone is forgotten.
    pub open spec fn remembered(self) -> ReaderModel {
        match self.edit {
            Some(e) => ReaderModel {
                edit: Some(
                    EditModel {
                        undo: stacked(e.undo, (self.raw, e.cursor)),
                        redo: Seq::empty(),
                        ..e
                    },
                ),
                ..self
            },
            None => self,
        }
    }

    /// The document after a change to its buffer.
    pub open spec fn changed(self, raw: Seq<char>, cursor: usize) -> ReaderModel {
        match self.remembered().edit {
            Some(e) => ReaderModel {
                raw,
                edit: Some(EditModel { cursor, dirty: true, discard_pending: false, ..e }),
                rendered: None,
                ..self
            },
            None => self,
        }
    }

    /// Inserts text at the cursor.
    pub open spec fn edit_insert(self, t: Seq<char>) -> ReaderModel {
        match self.edit {
            Some(e) => {
                let k = editor::cursor_index(self.raw, e.cursor);
                let raw = editor::replaced(self.raw, k, k, t);
                self.changed(raw, bytes::byte_pos(raw, k + t.len()) as usize)
            },
            None => self,
        }
    }

    /// Removes the character before the cursor.
    pub open spec fn edit_backspace(self) -> ReaderModel {
        match self.edit {
            Some(e) if e.cursor > 0 => {
                let end = editor::cursor_index(self.raw, e.cursor);
                let start = if end > 0 {
                    end - 1
                } else {
                    0
                };
                self.changed(
                    editor::replaced(self.raw, start, end, Seq::empty()),
                    bytes::byte_pos(self.raw, start) as usize,
                )
            },
            _ => self,
        }
    }

    /// Removes the character at the cursor.
    pub open spec fn edit_delete(self) -> ReaderModel {
        match self.edit {
            Some(e) => {
                let k = editor::cursor_index(self.raw, e.cursor);
                if k < self.raw.len() {
                    self.changed(editor::replaced(self.raw, k, k + 1, Seq::empty()), e.cursor)
                } else {
                    self
                }
            },
            None => self,
        }
    }

    /// Goes back to the buffer before the last change.
    pub open spec fn edit_undo(self) -> ReaderModel {
        match self.edit {
            Some(e) if e.undo.len() > 0 => {
                let (raw, cursor) = e.undo.last();
                ReaderModel { raw, ..self }.with_edit(
                    EditModel {
                        undo: e.undo.drop_last(),
                        redo: e.redo.push((self.raw, e.cursor)),
                        cursor: within(cursor, raw),
                        dirty: true,
                        discard_pending: false,
                        ..e
                    },
                )
            },
            _ => self,
        }
    }

    /// Makes the change again that was last undone.
    pub open spec fn edit_redo(self) -> ReaderModel {
        match self.edit {
            Some(e) if e.redo.len() > 0 => {
                let (raw, cursor) = e.redo.last();
                ReaderModel { raw, ..self }.with_edit(
                    EditModel {
                        redo: e.redo.drop_last(),
                        undo: stacked(e.undo, (self.raw, e.cursor)),
                        cursor: within(cursor, raw),
                        dirty: true,
                        discard_pending: false,
                        ..e
                    },
                )
            },
            _ => self,
        }
    }

    /// Puts the cursor at `to`; the document is rendered anew if it moved.
    pub open spec fn cursor_to(self, to: int) -> ReaderModel {
        match self.edit {
            Some(e) => {
                let calm = EditModel { discard_pending: false, ..e };
                if to != e.cursor {
                    self.with_edit(EditModel { cursor: to as usize, ..calm })
                } else {
                    ReaderModel { edit: Some(calm), ..self }
                }
            },
            None => self,
        }
    }

    /// Moves the cursor by one character, left for a negative `delta`.
    pub open spec fn edit_move_horizontal(self, delta: int) -> ReaderModel {
        match self.edit {
            Some(e) => {
                let k = editor::cursor_index(self.raw, e.cursor);
                let to = if delta < 0 {
                    if k > 0 {
                        k - 1
                    } else {
                        0
                    }
                } else if k < self.raw.len() {
                    k + 1
                } else {
                    k
                };
                self.cursor_to(bytes::byte_pos(self.raw, to))
            },
            None => self,
        }
    }

    /// The source bytes of the display row `delta` below the cursor's, and the
    /// cursor's column, where both are known.
    pub open spec fn row_towards(self, delta: int) -> Option<(usize, usize, u16)> {
        match self.rendered {
            Some(rd) => match rd.cursor_xy {
                Some((col, row)) => {
                    let target = shifted(row as int, delta);
                    if target < rd.row_source.len() {
                        match rd.row_source[target] {
                            Some((from, to)) => Some((from, to, col)),
                            None => None,
                        }
                    } else {
                        None
                    }
                },
                None => None,
            },
            None => None,
        }
    }

    /// Moves the cursor by display rows of source text, and by source lines where
    /// the row it would reach shows no source.
    pub open spec fn edit_move_vertical(self, delta: int) -> ReaderModel {
        match self.edit {
            Some(e) => match self.row_towards(delta) {
                Some((from, to, col)) => self.cursor_to(
                    editor::offset_at_col(self.raw, from, to, col as usize),
                ),
                None => {
                    let k = editor::cursor_index(self.raw, e.cursor);
                    let line = text::sat(
                        shifted(editor::newlines_before(self.raw, k), delta),
                    );
                    let col = k - editor::line_begin(self.raw, k);
                    self.cursor_to(
                        bytes::byte_pos(
                            self.raw,
                            editor::line_col_index(self.raw, line as int, col),
                        ),
                    )
                },
            },
            None => self,
        }
    }

    /// Moves the cursor to the start or the end of its source line.
    pub open spec fn edit_move_line_edge(self, eol: bool) -> ReaderModel {
        match self.edit {
            Some(e) => {
                let k = editor::cursor_index(self.raw, e.cursor);
                let start = editor::line_start_index(
                    self.raw,
                    editor::newlines_before(self.raw, k),
                    0,
                );
                self.cursor_to(
                    bytes::byte_pos(
                        self.raw,
                        if eol {
                            editor::line_end_index(self.raw, start)
                        } else {
                            start
                        },
                    ),
                )
            },
            None => self,
        }
    }

    /// Moves the cursor by a word.
    pub open spec fn edit_move_word(self, forward: bool) -> ReaderModel {
        match self.edit {
            Some(e) => {
                let k = editor::cursor_index(self.raw, e.cursor);
                self.cursor_to(
                    bytes::byte_pos(self.raw, editor::word_step(self.raw, k, forward)),
                )
            },
            None => self,
        }
    }

    /// Removes the word before or behind the cursor, if there is text there.
    pub open spec fn edit_delete_word(self, forward: bool) -> ReaderModel {
        match self.edit {
            Some(e) => {
                let k = editor::cursor_index(self.raw, e.cursor);
                let w = editor::word_step(self.raw, k, forward);
                if w == k {
                    self
                } else if forward {
                    self.changed(
                        editor::replaced(self.raw, k, w, Seq::empty()),
                        bytes::byte_pos(self.raw, k) as usize,
                    )
                } else {
                    self.changed(
                        editor::replaced(self.raw, w, k, Seq::empty()),
                        bytes::byte_pos(self.raw, w) as usize,
                    )
                }
            },
            None => self,
        }
    }

    /// Takes back a pending discard.
    pub open spec fn edit_calmed(self) -> ReaderModel {
        match self.edit {
            Some(e) => ReaderModel {
                edit: Some(EditModel { discard_pending: false, ..e }),
                ..self
            },
            None => self,
        }
    }

    /// Number of display rows.
    pub open spec fn total(self) -> nat {
        match self.rendered {
            Some(rd) => rd.lines.len(),
            None => 0,
        }
    }
}

impl Reader {
    /// A document read from standard input.
    pub fn from_string(raw: String) -> (r: Reader)
        ensures
            r@ == opened(OriginModel::Stdin, raw@, None),
    {
        Reader {
            origin: ReaderOrigin::Stdin,
            raw,
            rendered: None,
            scroll: 0,
            focus: None,
            hover_link: None,
            hover_checkbox: None,
            doc_search: None,
            edit: None,
            last_meta: None,
            preview_scroll: 0,
        }
    }

    /// A document read from a file: its path, its content, and the fingerprint
    /// that was taken before the content.
    pub fn from_file(path: String, raw: String, meta: Option<FileMeta>) -> (r: Reader)
        ensures
            r@ == opened(OriginModel::File(path@), raw@, meta),
    {
        Reader {
            origin: ReaderOrigin::File(path),
            raw,
            rendered: None,
            scroll: 0,
            focus: None,
            hover_link: None,
            hover_checkbox: None,
            doc_search: None,
            edit: None,
            last_meta: meta,
            preview_scroll: 0,
        }
    }

    /// Puts the buffer on the undo list.
    fn push_undo(&mut self)
        ensures
            final(self)@ == old(self)@.remembered(),
    {
        match &mut self.edit {
            Some(e) => {
                let ghost before = views::views(e.undo@);
                e.undo.push(EditSnapshot { raw: self.raw.clone(), cursor: e.cursor });
                if e.undo.len() > UNDO_LIMIT {
                    e.undo.remove(0);
                    proof {
                        let x = (self.raw@, e.cursor);
                        assert(views::views(e.undo@) =~= before.push(x).skip(1));
                    }
                }
                e.redo.clear();
                assert(views::views(e.redo@) =~= Seq::<(Seq<char>, usize)>::empty());
            },
            None => {},
        }
    }

    fn change(&mut self, raw: String, cursor: usize)
        ensures
            final(self)@ == old(self)@.changed(raw@, cursor),
    {
        if self.edit.is_none() {
            return ;
        }
        self.push_undo();
        self.raw = raw;
        match &mut self.edit {
            Some(e) => {
                e.cursor = cursor;
                e.dirty = true;
                e.discard_pending = false;
            },
            None => {},
        }
        self.rendered = None;
    }

    /// Inserts `what` at the cursor and steps behind it.
    pub fn edit_insert(&mut self, what: &str)
        ensures
            final(self)@ == old(self)@.edit_insert(what@),
    {
        let cursor = match &self.edit {
            Some(e) => e.cursor,
            None => {
                return ;
            },
        };
        let (raw, at) = insert_text(&self.raw, cursor, what);
        self.change(raw, at);
    }

    /// Removes the character before the cursor.
    pub fn edit_backspace(&mut self)
        ensures
            final(self)@ == old(self)@.edit_backspace(),
    {
        let cursor = match &self.edit {
            Some(e) => e.cursor,
            None => {
                return ;
            },
        };
        if cursor == 0 {
            return ;
        }
        let end = floor_char_boundary(&self.raw, cursor);
        let start = prev_char_boundary(&self.raw, end);
        proof {
            lemma_prev_of_boundary(self.raw@, cursor);
            let k = editor::cursor_index(self.raw@, cursor);
            bytes::lemma_floor_index(self.raw@, cursor as int);
            bytes::lemma_floor_of_pos(self.raw@, k);
            bytes::lemma_floor_of_pos(
                self.raw@,
                if k > 0 {
                    k - 1
                } else {
                    0
                },
            );
        }
        let (raw, at) = remove_between(&self.raw, start, end);
        self.change(raw, at);
    }

    /// Removes the character at the cursor.
    pub fn edit_delete(&mut self)
        ensures
            final(self)@ == old(self)@.edit_delete(),
    {
        let cursor = match &self.edit {
            Some(e) => e.cursor,
            None => {
                return ;
            },
        };
        let pos = floor_char_boundary(&self.raw, cursor);
        let len = text::byte_len(&self.raw);
        proof {
            let t = self.raw@;
            let k = editor::cursor_index(t, cursor);
            bytes::lemma_floor_index(t, cursor as int);
            bytes::lemma_byte_pos_ends(t);
            bytes::lemma_byte_pos_monotone(t, k, t.len() as int);
            bytes::lemma_floor_of_pos(t, k);
            if k < t.len() {
                bytes::lemma_floor_of_pos(t, k + 1);
            }
        }
        if pos >= len {
            return ;
        }
        let next = next_char_boundary(&self.raw, pos);
        let (raw, _) = remove_between(&self.raw, pos, next);
        self.change(raw, cursor);
    }

    /// Undoes the last change.
    pub fn edit_undo(&mut self)
        ensures
            final(self)@ == old(self)@.edit_undo(),
    {
        match &mut self.edit {
            Some(e) => {
                let snap = match e.undo.pop() {
                    Some(s) => s,
                    None => {
                        return ;
                    },
                };
                let mut raw = snap.raw;
                let len = text::byte_len(&raw);
                std::mem::swap(&mut raw, &mut self.raw);
                e.redo.push(EditSnapshot { raw, cursor: e.cursor });
                e.cursor = if snap.cursor > len {
                    len
                } else {
                    snap.cursor
                };
                e.dirty = true;
                e.discard_pending = false;
                self.rendered = None;
                proof {
                    assert(views::views(old(self).edit->0.undo@).drop_last() =~= views::views(
                        old(self).edit->0.undo@.drop_last(),
                    ));
                }
            },
            None => {},
        }
    }

    /// Makes an undone change again.
    pub fn edit_redo(&mut self)
        ensures
            final(self)@ == old(self)@.edit_redo(),
    {
        match &mut self.edit {
            Some(e) => {
                let snap = match e.redo.pop() {
                    Some(s) => s,
                    None => {
                        return ;
                    },
                };
                let mut raw = snap.raw;
                let len = text::byte_len(&raw);
                std::mem::swap(&mut raw, &mut self.raw);
                let ghost before = views::views(e.undo@);
                let ghost x = (raw@, e.cursor);
                e.undo.push(EditSnapshot { raw, cursor: e.cursor });
                if e.undo.len() > UNDO_LIMIT {
                    e.undo.remove(0);
                    assert(views::views(e.undo@) =~= before.push(x).skip(1));
                }
                e.cursor = if snap.cursor > len {
                    len
                } else {
                    snap.cursor
                };
                e.dirty = true;
                e.discard_pending = false;
                self.rendered = None;
                proof {
                    assert(views::views(old(self).edit->0.redo@).drop_last() =~= views::views(
                        old(self).edit->0.redo@.drop_last(),
                    ));
                }
            },
            None => {},
        }
    }

    fn move_to(&mut self, to: usize)
        ensures
            final(self)@ == old(self)@.cursor_to(to as int),
    {
        match &mut self.edit {
            Some(e) => {
                e.discard_pending = false;
                if to != e.cursor {
                    e.cursor = to;
                    self.rendered = None;
                }
            },
            None => {},
        }
    }

    /// Moves the cursor by one character.
    pub fn edit_move_horizontal(&mut self, delta: i32)
        ensures
            final(self)@ == old(self)@.edit_move_horizontal(delta as int),
    {
        let cursor = match &self.edit {
            Some(e) => e.cursor,
            None => {
                return ;
            },
        };
        let pos = floor_char_boundary(&self.raw, cursor);
        proof {
            let t = self.raw@;
            lemma_prev_of_boundary(t, cursor);
            bytes::lemma_floor_index(t, cursor as int);
            bytes::lemma_floor_of_pos(t, editor::cursor_index(t, cursor));
        }
        let to = if delta < 0 {
            prev_char_boundary(&self.raw, pos)
        } else {
            next_char_boundary(&self.raw, pos)
        };
        self.move_to(to);
    }

    /// Moves the cursor by display rows or source lines.
    pub fn edit_move_vertical(&mut self, delta: i32)
        ensures
            final(self)@ == old(self)@.edit_move_vertical(delta as int),
    {
        let cursor = match &self.edit {
            Some(e) => e.cursor,
            None => {
                return ;
            },
        };
        let mut row: Option<(usize, usize, u16)> = None;
        match &self.rendered {
            Some(rd) => {
                match rd.cursor_xy {
                    Some((col, at)) => {
                        let target = shift(at as usize, delta);
                        if target < rd.row_source.len() {
                            match rd.row_source[target] {
                                Some((from, to)) => {
                                    row = Some((from, to, col));
                                },
                                None => {},
                            }
                        }
                    },
                    None => {},
                }
            },
            None => {},
        }
        assert(row == self@.row_towards(delta as int));
        match row {
            Some((from, to, col)) => {
                let at = source_offset_at_col(&self.raw, from, to, col as usize);
                self.move_to(at);
            },
            None => {
                let (line, col) = source_line_col(&self.raw, cursor);
                let at = source_offset_for(&self.raw, shift(line, delta), col);
                self.move_to(at);
            },
        }
    }

    /// Moves the cursor to an end of its source line.
    pub fn edit_move_line_edge(&mut self, eol: bool)
        ensures
            final(self)@ == old(self)@.edit_move_line_edge(eol),
    {
        let cursor = match &self.edit {
            Some(e) => e.cursor,
            None => {
                return ;
            },
        };
        let (line, _) = source_line_col(&self.raw, cursor);
        let to = if eol {
            source_line_end(&self.raw, line)
        } else {
            source_line_start(&self.raw, line)
        };
        self.move_to(to);
    }

    /// Moves the cursor by a word.
    pub fn edit_move_word(&mut self, forward: bool)
        ensures
            final(self)@ == old(self)@.edit_move_word(forward),
    {
        let cursor = match &self.edit {
            Some(e) => e.cursor,
            None => {
                return ;
            },
        };
        let to = word_offset(&self.raw, cursor, forward);
        self.move_to(to);
    }

    /// Removes the word before or behind the cursor.
    pub fn edit_delete_word(&mut self, forward: bool)
        ensures
            final(self)@ == old(self)@.edit_delete_word(forward),
    {
        let cursor = match &self.edit {
            Some(e) => e.cursor,
            None => {
                return ;
            },
        };
        let pos = floor_char_boundary(&self.raw, cursor);
        let to = word_offset(&self.raw, cursor, forward);
        proof {
            let t = self.raw@;
            let k = editor::cursor_index(t, cursor);
            let w = editor::word_step(t, k, forward);
            bytes::lemma_floor_index(t, cursor as int);
            lemma_word_step(t, k, forward);
            bytes::lemma_floor_of_pos(t, k);
            bytes::lemma_floor_of_pos(t, w);
            if w < k {
                bytes::lemma_byte_pos_monotone(t, w, k);
            } else {
                bytes::lemma_byte_pos_monotone(t, k, w);
            }
        }
        if to == pos {
            return ;
        }
        let (raw, at) = if forward {
            remove_between(&self.raw, pos, to)
        } else {
            remove_between(&self.raw, to, pos)
        };
        self.change(raw, at);
    }

    /// Takes back a pending discard.
    pub fn edit_calm(&mut self)
        ensures
            final(self)@ == old(self)@.edit_calmed(),
    {
        match &mut self.edit {
            Some(e) => {
                e.discard_pending = false;
            },
            None => {},
        }
    }
}

/// What can be focused, with its line and first column: the links, then the task
/// markers.
pub open spec fn focusables(rd: markdown::RenderedView) -> Seq<(Focus, usize, usize)> {
    Seq::new(
        rd.links.len(),
        |i: int| (Focus::Link(i as usize), rd.links[i].line, rd.links[i].col_start),
    ) + Seq::new(
        rd.boxes.len(),
        |i: int| (Focus::Checkbox(i as usize), rd.boxes[i].line, rd.boxes[i].col_start),
    )
}

/// Document order: by line, then by column.
pub open spec fn place_keys(s: Seq<(Focus, usize, usize)>) -> Seq<order::KeyView> {
    Seq::new(
        s.len(),
        |i: int|
            order::KeyView { major: s[i].1 as int, minor: s[i].2 as int, text: Seq::empty() },
    )
}

/// What can be focused, in document order.
pub open spec fn focus_order(rd: markdown::RenderedView) -> Seq<(Focus, usize, usize)> {
    let f = focusables(rd);
    let p = order::order(place_keys(f));
    Seq::new(p.len(), |i: int| f[p[i] as int])
}

impl ReaderModel {
    /// What can be focused, in document order; nothing before the first
    /// rendering.
    pub open spec fn focus_targets(self) -> Seq<(Focus, usize, usize)> {
        match self.rendered {
            Some(rd) => focus_order(rd),
            None => Seq::empty(),
        }
    }

    /// Line and first column of what is focused.
    pub open spec fn focus_position(self) -> Option<(usize, usize)> {
        match (self.rendered, self.focus) {
            (Some(rd), Some(Focus::Link(i))) => if i < rd.links.len() {
                Some((rd.links[i as int].line, rd.links[i as int].col_start))
            } else {
                None
            },
            (Some(rd), Some(Focus::Checkbox(i))) => if i < rd.boxes.len() {
                Some((rd.boxes[i as int].line, rd.boxes[i as int].col_start))
            } else {
                None
            },
            _ => None,
        }
    }
}

impl Reader {
    /// All links and task markers in document order, each with its line and
    /// first column.
    pub fn focus_targets(&self) -> (r: Vec<(Focus, usize, usize)>)
        ensures
            r@ == self@.focus_targets(),
    {
        let mut all: Vec<(Focus, usize, usize)> = Vec::new();
        let rd = match &self.rendered {
            Some(rd) => rd,
            None => {
                return all;
            },
        };
        let ghost f = focusables(rd@);
        let mut keys: Vec<Key> = Vec::new();
        let mut i: usize = 0;
        while i < rd.link_map.links.len()
            invariant
                f == focusables(rd@),
                i <= rd.link_map.links@.len(),
                all@ == f.take(i as int),
                views::views(keys@) == place_keys(f).take(i as int),
            decreases rd.link_map.links@.len() - i,
        {
            let l = &rd.link_map.links[i];
            all.push((Focus::Link(i), l.line, l.col_start));
            keys.push(
                Key { major: l.line as i128, minor: l.col_start as i128, text: Vec::new() },
            );
            i = i + 1;
            assert(all@ =~= f.take(i as int));
            assert(views::views(keys@) =~= place_keys(f).take(i as int));
        }
        let n = i;
        let mut j: usize = 0;
        while j < rd.checkbox_map.items.len()
            invariant
                f == focusables(rd@),
                n == rd.link_map.links@.len(),
                j <= rd.checkbox_map.items@.len(),
                all@ == f.take(n + j),
                views::views(keys@) == place_keys(f).take(n + j),
            decreases rd.checkbox_map.items@.len() - j,
        {
            let c = &rd.checkbox_map.items[j];
            all.push((Focus::Checkbox(j), c.line, c.col_start));
            keys.push(
                Key { major: c.line as i128, minor: c.col_start as i128, text: Vec::new() },
            );
            j = j + 1;
            assert(all@ =~= f.take(n + j));
            assert(views::views(keys@) =~= place_keys(f).take(n + j));
        }
        assert(all@ =~= f);
        assert(views::views(keys@) =~= place_keys(f));
        let p = sort_order(&keys);
        let ghost sorted = focus_order(rd@);
        let mut out: Vec<(Focus, usize, usize)> = Vec::new();
        let mut k: usize = 0;
        while k < p.len()
            invariant
                all@ == f,
                f == focusables(rd@),
                sorted == focus_order(rd@),
                p@ == order::order(place_keys(f)),
                order::is_order(place_keys(f), p@),
                k <= p@.len(),
                out@ == sorted.take(k as int),
            decreases p@.len() - k,
        {
            out.push(all[p[k]]);
            k = k + 1;
            assert(out@ =~= sorted.take(k as int));
        }
        assert(sorted.take(k as int) =~= sorted);
        out
    }

    /// Line and first column of the focused element.
    pub fn focus_position(&self) -> (r: Option<(usize, usize)>)
        ensures
            r == self@.focus_position(),
    {
        let rd = match &self.rendered {
            Some(rd) => rd,
            None => {
                return None;
            },
        };
        match self.focus {
            Some(Focus::Link(i)) => if i < rd.link_map.links.len() {
                let l = &rd.link_map.links[i];
                Some((l.line, l.col_start))
            } else {
                None
            },
            Some(Focus::Checkbox(i)) => if i < rd.checkbox_map.items.len() {
                let c = &rd.checkbox_map.items[i];
                Some((c.line, c.col_start))
            } else {
                None
            },
            None => None,
        }
    }
}

/// Focus targets are all links and task markers, and they come in document order.
pub proof fn law_focus_targets_in_document_order(rd: markdown::RenderedView, i: int, j: int)
    requires
        rd.links.len() + rd.boxes.len() <= usize::MAX,
        0 <= i < j < focus_order(rd).len(),
    ensures
        focus_order(rd).len() == rd.links.len() + rd.boxes.len(),
        ({
            let f = focus_order(rd);
            f[i].1 < f[j].1 || (f[i].1 == f[j].1 && f[i].2 <= f[j].2)
        }),
{
    let keys = place_keys(focusables(rd));
    order::law_order_exists(keys);
    let p = order::order(keys);
    assert(order::before(keys, p[i] as int, p[j] as int));
}

/// The boundary before that of a cursor is the character position before it.
proof fn lemma_prev_of_boundary(t: Seq<char>, cursor: usize)
    ensures
        ({
            let k = editor::cursor_index(t, cursor);
            let b = bytes::byte_pos(t, k);
            &&& 0 <= b <= cursor
            &&& editor::prev_index(t, b as usize) == if k > 0 {
                k - 1
            } else {
                0
            }
        }),
{
    let k = editor::cursor_index(t, cursor);
    bytes::lemma_floor_index(t, cursor as int);
    bytes::lemma_byte_pos_ends(t);
    if k > 0 {
        bytes::lemma_byte_pos_step(t, k - 1);
        let b = bytes::byte_pos(t, k);
        bytes::lemma_byte_pos_monotone(t, 0, k - 1);
        bytes::lemma_floor_index(t, b - 1);
        let f = bytes::floor_index(t, b - 1);
        if f < k - 1 {
            bytes::lemma_byte_pos_monotone(t, f + 1, k - 1);
        } else if f > k - 1 {
            bytes::lemma_byte_pos_monotone(t, k, f);
        }
    }
}

proof fn lemma_word_step(t: Seq<char>, k: int, forward: bool)
    requires
        0 <= k <= t.len(),
    ensures
        0 <= editor::word_step(t, k, forward) <= t.len(),
        forward ==> k <= editor::word_step(t, k, forward),
        !forward ==> editor::word_step(t, k, forward) <= k,
{
    if forward {
        lemma_right_space(t, k);
        lemma_right_word(t, editor::right_over_space(t, k));
    } else {
        lemma_left_space(t, k);
        lemma_left_word(t, editor::left_over_space(t, k));
    }
}

proof fn lemma_right_space(t: Seq<char>, k: int)
    requires
        0 <= k <= t.len(),
    ensures
        k <= editor::right_over_space(t, k) <= t.len(),
    decreases t.len() - k,
{
    if k < t.len() && text::is_space(t[k]) {
        lemma_right_space(t, k + 1);
    }
}

proof fn lemma_right_word(t: Seq<char>, k: int)
    requires
        0 <= k <= t.len(),
    ensures
        k <= editor::right_over_word(t, k) <= t.len(),
    decreases t.len() - k,
{
    if k < t.len() && !text::is_space(t[k]) {
        lemma_right_word(t, k + 1);
    }
}

proof fn lemma_left_space(t: Seq<char>, k: int)
    requires
        0 <= k <= t.len(),
    ensures
        0 <= editor::left_over_space(t, k) <= k,
    decreases k,
{
    if k > 0 && text::is_space(t[k - 1]) {
        lemma_left_space(t, k - 1);
    }
}

proof fn lemma_left_word(t: Seq<char>, k: int)
    requires
        0 <= k <= t.len(),
    ensures
        0 <= editor::left_over_word(t, k) <= k,
    decreases k,
{
    if k > 0 && !text::is_space(t[k - 1]) {
        lemma_left_word(t, k - 1);
    }
}

} // verus!
