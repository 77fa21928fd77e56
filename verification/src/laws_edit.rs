//! What holds of edits as a whole.

use vstd::prelude::*;
use crate::actions;
use crate::app;
use crate::app::WriteCause;
use crate::bytes;
use crate::editor;
use crate::keys::{KeyCode, KeyInput};
use crate::reader;
use crate::reader::{FileMeta, UNDO_LIMIT};
use crate::text;

verus! {

/// A cursor stands where a character begins or at the end.
pub open spec fn cursor_ok(raw: Seq<char>, cursor: usize) -> bool {
    bytes::on_boundary(raw, cursor as int)
}

/// A well-formed edit: its cursor and all cursors it can go back to stand on
/// characters of their buffers, and it can go back only so far.
pub open spec fn edit_ok(r: reader::ReaderModel) -> bool {
    match r.edit {
        Some(e) => {
            &&& cursor_ok(r.raw, e.cursor)
            &&& e.undo.len() <= UNDO_LIMIT
            &&& forall|i: int|
                0 <= i < e.undo.len() ==> cursor_ok((#[trigger] e.undo[i]).0, e.undo[i].1)
            &&& forall|i: int|
                0 <= i < e.redo.len() ==> cursor_ok((#[trigger] e.redo[i]).0, e.redo[i].1)
        },
        None => true,
    }
}

proof fn lemma_boundary(raw: Seq<char>, k: int)
    requires
        0 <= k <= raw.len(),
        bytes::byte_count(raw) <= usize::MAX,
    ensures
        0 <= bytes::byte_pos(raw, k) <= bytes::byte_count(raw),
        cursor_ok(raw, bytes::byte_pos(raw, k) as usize),
{
    bytes::lemma_byte_pos_ends(raw);
    bytes::lemma_byte_pos_monotone(raw, 0, k);
    bytes::lemma_byte_pos_monotone(raw, k, raw.len() as int);
}

proof fn lemma_cursor_within(raw: Seq<char>, cursor: usize)
    requires
        cursor_ok(raw, cursor),
    ensures
        cursor <= bytes::byte_count(raw),
        reader::within(cursor, raw) == cursor,
        bytes::byte_pos(raw, editor::cursor_index(raw, cursor)) == cursor,
        0 <= editor::cursor_index(raw, cursor) <= raw.len(),
{
    let k = choose|k: int| 0 <= k <= raw.len() && cursor == #[trigger] bytes::byte_pos(raw, k);
    bytes::lemma_byte_pos_ends(raw);
    bytes::lemma_byte_pos_monotone(raw, k, raw.len() as int);
    bytes::lemma_floor_of_pos(raw, k);
}

// ---------------------------------------------------------------------------
// Undo and redo
// ---------------------------------------------------------------------------

/// Undo takes back a change: buffer and cursor are what they were, the change can
/// be made again, and as much as fits can be undone further.
pub proof fn law_undo_takes_back_a_change(r: reader::ReaderModel, raw: Seq<char>, cursor: usize)
    requires
        r.edit is Some,
        edit_ok(r),
    ensures
        ({
            let e = r.edit->0;
            let back = r.changed(raw, cursor).edit_undo();
            &&& back.raw == r.raw
            &&& back.edit is Some
            &&& back.edit->0.cursor == e.cursor
            &&& back.edit->0.redo == seq![(raw, cursor)]
            &&& e.undo.len() < UNDO_LIMIT ==> back.edit->0.undo == e.undo
            &&& e.undo.len() == UNDO_LIMIT ==> back.edit->0.undo == e.undo.skip(1)
        }),
{
    let e = r.edit->0;
    lemma_cursor_within(r.raw, e.cursor);
    let x = (r.raw, e.cursor);
    let s = reader::stacked(e.undo, x);
    assert(s.last() == x);
    let back = r.changed(raw, cursor).edit_undo();
    assert(back.edit->0.redo =~= seq![(raw, cursor)]);
    if e.undo.len() < UNDO_LIMIT {
        assert(s.drop_last() =~= e.undo);
    } else {
        assert(s.drop_last() =~= e.undo.skip(1));
    }
}

/// Redo makes again what was undone, and undo takes back what was made again.
pub proof fn law_undo_and_redo_are_inverse(r: reader::ReaderModel)
    requires
        r.edit is Some,
        edit_ok(r),
    ensures
        r.edit->0.undo.len() > 0 ==> ({
            let there = r.edit_undo().edit_redo();
            &&& there.raw == r.raw
            &&& there.edit is Some
            &&& there.edit->0.cursor == r.edit->0.cursor
            &&& there.edit->0.undo == r.edit->0.undo
            &&& there.edit->0.redo == r.edit->0.redo
        }),
        r.edit->0.redo.len() > 0 && r.edit->0.undo.len() < UNDO_LIMIT ==> ({
            let there = r.edit_redo().edit_undo();
            &&& there.raw == r.raw
            &&& there.edit is Some
            &&& there.edit->0.cursor == r.edit->0.cursor
            &&& there.edit->0.undo == r.edit->0.undo
            &&& there.edit->0.redo == r.edit->0.redo
        }),
{
    let e = r.edit->0;
    lemma_cursor_within(r.raw, e.cursor);
    if e.undo.len() > 0 {
        let (raw, cursor) = e.undo.last();
        assert(cursor_ok(e.undo[e.undo.len() - 1].0, e.undo[e.undo.len() - 1].1));
        lemma_cursor_within(raw, cursor);
        let there = r.edit_undo().edit_redo();
        assert(e.undo.drop_last().push((raw, cursor)) =~= e.undo);
        assert(e.redo.push((r.raw, e.cursor)).drop_last() =~= e.redo);
    }
    if e.redo.len() > 0 && e.undo.len() < UNDO_LIMIT {
        let (raw, cursor) = e.redo.last();
        assert(cursor_ok(e.redo[e.redo.len() - 1].0, e.redo[e.redo.len() - 1].1));
        lemma_cursor_within(raw, cursor);
        assert(e.redo.drop_last().push((raw, cursor)) =~= e.redo);
        assert(e.undo.push((r.raw, e.cursor)).drop_last() =~= e.undo);
    }
}

/// A change that diverges forgets what was undone, and marks the buffer as dirty.
pub proof fn law_change_forgets_redo(r: reader::ReaderModel, raw: Seq<char>, cursor: usize)
    requires
        r.edit is Some,
    ensures
        r.changed(raw, cursor).edit is Some,
        r.changed(raw, cursor).edit->0.redo.len() == 0,
        r.changed(raw, cursor).edit->0.dirty,
        r.changed(raw, cursor).raw == raw,
{
}

// ---------------------------------------------------------------------------
// What every key keeps
// ---------------------------------------------------------------------------

proof fn lemma_changed_ok(r: reader::ReaderModel, raw: Seq<char>, cursor: usize)
    requires
        edit_ok(r),
        cursor_ok(raw, cursor),
    ensures
        edit_ok(r.changed(raw, cursor)),
{
    if r.edit is Some {
        let e = r.edit->0;
        let s = reader::stacked(e.undo, (r.raw, e.cursor));
        assert forall|i: int| 0 <= i < s.len() implies cursor_ok((#[trigger] s[i]).0, s[i].1) by {
            let j = if e.undo.len() + 1 > UNDO_LIMIT {
                i + 1
            } else {
                i
            };
            if j < e.undo.len() {
                assert(s[i] == e.undo[j]);
            }
        }
    }
}

proof fn lemma_replaced_bytes(raw: Seq<char>, a: int, b: int, t: Seq<char>)
    requires
        0 <= a <= b <= raw.len(),
    ensures
        editor::replaced(raw, a, b, t).len() == raw.len() - (b - a) + t.len(),
        bytes::byte_pos(editor::replaced(raw, a, b, t), a) == bytes::byte_pos(raw, a),
{
    let out = editor::replaced(raw, a, b, t);
    assert(out.take(a) =~= raw.take(a));
}

proof fn lemma_line_start(t: Seq<char>, n: int, i: int)
    requires
        0 <= i <= t.len(),
    ensures
        i <= editor::line_start_index(t, n, i) <= t.len(),
    decreases t.len() - i,
{
    if n > 0 && i < t.len() {
        lemma_line_start(t, n - 1, i + 1);
        lemma_line_start(t, n, i + 1);
    }
}

proof fn lemma_line_end(t: Seq<char>, i: int)
    requires
        0 <= i <= t.len(),
    ensures
        i <= editor::line_end_index(t, i) <= t.len(),
{
    text::lemma_first_char(t, '\n', i);
}

proof fn lemma_col_index(t: Seq<char>, i: int, used: int, col: int)
    requires
        0 <= i <= t.len(),
    ensures
        i <= bytes::col_index(t, i, used, col) <= t.len(),
    decreases t.len() - i,
{
    if i < t.len() {
        lemma_col_index(t, i + 1, used + text::cols(t[i]), col);
    }
}

proof fn lemma_right(t: Seq<char>, k: int)
    requires
        0 <= k <= t.len(),
    ensures
        k <= editor::right_over_space(t, k) <= t.len(),
        k <= editor::right_over_word(t, k) <= t.len(),
    decreases t.len() - k,
{
    if k < t.len() {
        lemma_right(t, k + 1);
    }
}

proof fn lemma_left(t: Seq<char>, k: int)
    requires
        0 <= k <= t.len(),
    ensures
        0 <= editor::left_over_space(t, k) <= k,
        0 <= editor::left_over_word(t, k) <= k,
    decreases k,
{
    if k > 0 {
        lemma_left(t, k - 1);
    }
}

proof fn lemma_word_step(t: Seq<char>, k: int, forward: bool)
    requires
        0 <= k <= t.len(),
    ensures
        0 <= editor::word_step(t, k, forward) <= t.len(),
        forward ==> k <= editor::word_step(t, k, forward),
        !forward ==> editor::word_step(t, k, forward) <= k,
{
    if forward {
        lemma_right(t, k);
        lemma_right(t, editor::right_over_space(t, k));
    } else {
        lemma_left(t, k);
        lemma_left(t, editor::left_over_space(t, k));
    }
}

proof fn lemma_cursor_to_ok(r: reader::ReaderModel, k: int)
    requires
        edit_ok(r),
        0 <= k <= r.raw.len(),
        bytes::byte_count(r.raw) <= usize::MAX,
    ensures
        edit_ok(r.cursor_to(bytes::byte_pos(r.raw, k))),
{
    lemma_boundary(r.raw, k);
}

proof fn lemma_removed_ok(r: reader::ReaderModel, a: int, b: int)
    requires
        edit_ok(r),
        0 <= a <= b <= r.raw.len(),
        bytes::byte_count(r.raw) <= usize::MAX,
        bytes::byte_count(editor::replaced(r.raw, a, b, Seq::empty())) <= usize::MAX,
    ensures
        edit_ok(
            r.changed(
                editor::replaced(r.raw, a, b, Seq::empty()),
                bytes::byte_pos(r.raw, a) as usize,
            ),
        ),
{
    let raw = editor::replaced(r.raw, a, b, Seq::empty());
    lemma_replaced_bytes(r.raw, a, b, Seq::empty());
    lemma_boundary(raw, a);
    lemma_changed_ok(r, raw, bytes::byte_pos(r.raw, a) as usize);
}

proof fn lemma_vertical_ok(r: reader::ReaderModel, delta: int)
    requires
        edit_ok(r),
        r.marks_stand(),
        bytes::byte_count(r.raw) <= usize::MAX,
    ensures
        edit_ok(r.edit_move_vertical(delta)),
{
    if r.edit is Some {
        let e = r.edit->0;
        match r.row_towards(delta) {
            Some((from, to, col)) => {
                let rd = r.rendered->0;
                let (_, row) = rd.cursor_xy->0;
                let target = reader::shifted(row as int, delta);
                assert(rd.row_source[target] == Some((from, to)));
                let a = bytes::floor_index(r.raw, from as int);
                let b = bytes::floor_index(r.raw, to as int);
                bytes::lemma_floor_index(r.raw, from as int);
                bytes::lemma_floor_index(r.raw, to as int);
                if b < a {
                    bytes::lemma_byte_pos_monotone(r.raw, b, a);
                    bytes::lemma_floor_of_pos(r.raw, a);
                }
                let t = r.raw.subrange(a, b);
                lemma_col_index(t, 0, 0, col as int);
                lemma_cursor_to_ok(r, a + bytes::col_index(t, 0, 0, col as int));
            },
            None => {
                lemma_cursor_within(r.raw, e.cursor);
                let k = editor::cursor_index(r.raw, e.cursor);
                let line = text::sat(
                    reader::shifted(editor::newlines_before(r.raw, k), delta),
                );
                lemma_line_start(r.raw, line as int, 0);
                let start = editor::line_start_index(r.raw, line as int, 0);
                lemma_line_end(r.raw, start);
                lemma_line_begin(r.raw, k);
                lemma_cursor_to_ok(
                    r,
                    editor::line_col_index(
                        r.raw,
                        line as int,
                        k - editor::line_begin(r.raw, k),
                    ),
                );
            },
        }
    }
}

proof fn lemma_line_begin(t: Seq<char>, k: int)
    requires
        0 <= k <= t.len(),
    ensures
        0 <= editor::line_begin(t, k) <= k,
    decreases k,
{
    if k > 0 && t[k - 1] != '\n' {
        lemma_line_begin(t, k - 1);
    }
}

proof fn lemma_insert_ok(r: reader::ReaderModel, t: Seq<char>)
    requires
        edit_ok(r),
        bytes::byte_count(r.edit_insert(t).raw) <= usize::MAX,
    ensures
        edit_ok(r.edit_insert(t)),
{
    if r.edit is Some {
        let e = r.edit->0;
        lemma_cursor_within(r.raw, e.cursor);
        let k = editor::cursor_index(r.raw, e.cursor);
        let raw = editor::replaced(r.raw, k, k, t);
        lemma_replaced_bytes(r.raw, k, k, t);
        lemma_boundary(raw, k + t.len());
        lemma_changed_ok(r, raw, bytes::byte_pos(raw, k + t.len()) as usize);
    }
}

proof fn lemma_forward_delete_ok(r: reader::ReaderModel)
    requires
        edit_ok(r),
        bytes::byte_count(r.raw) <= usize::MAX,
        bytes::byte_count(r.edit_delete().raw) <= usize::MAX,
    ensures
        edit_ok(r.edit_delete()),
{
    if r.edit is Some {
        let e = r.edit->0;
        lemma_cursor_within(r.raw, e.cursor);
        let k = editor::cursor_index(r.raw, e.cursor);
        if k < r.raw.len() {
            lemma_removed_ok(r, k, k + 1);
        }
    }
}

proof fn lemma_backspace_ok(r: reader::ReaderModel)
    requires
        edit_ok(r),
        bytes::byte_count(r.raw) <= usize::MAX,
        bytes::byte_count(r.edit_backspace().raw) <= usize::MAX,
    ensures
        edit_ok(r.edit_backspace()),
{
    if r.edit is Some {
        let e = r.edit->0;
        lemma_cursor_within(r.raw, e.cursor);
        let k = editor::cursor_index(r.raw, e.cursor);
        if e.cursor > 0 {
            if k == 0 {
                bytes::lemma_byte_pos_ends(r.raw);
            }
            lemma_removed_ok(r, k - 1, k);
        }
    }
}

proof fn lemma_word_ok(r: reader::ReaderModel, forward: bool)
    requires
        edit_ok(r),
        bytes::byte_count(r.raw) <= usize::MAX,
    ensures
        edit_ok(r.edit_move_word(forward)),
        bytes::byte_count(r.edit_delete_word(forward).raw) <= usize::MAX ==> edit_ok(
            r.edit_delete_word(forward),
        ),
{
    if r.edit is Some {
        let e = r.edit->0;
        lemma_cursor_within(r.raw, e.cursor);
        let k = editor::cursor_index(r.raw, e.cursor);
        lemma_word_step(r.raw, k, forward);
        let w = editor::word_step(r.raw, k, forward);
        lemma_cursor_to_ok(r, w);
        if bytes::byte_count(r.edit_delete_word(forward).raw) <= usize::MAX && w != k {
            if forward {
                lemma_removed_ok(r, k, w);
            } else {
                lemma_removed_ok(r, w, k);
            }
        }
    }
}

proof fn lemma_moves_ok(r: reader::ReaderModel)
    requires
        edit_ok(r),
        bytes::byte_count(r.raw) <= usize::MAX,
    ensures
        edit_ok(r.edit_move_horizontal(-1)),
        edit_ok(r.edit_move_horizontal(1)),
        edit_ok(r.edit_move_line_edge(false)),
        edit_ok(r.edit_move_line_edge(true)),
{
    if r.edit is Some {
        let e = r.edit->0;
        lemma_cursor_within(r.raw, e.cursor);
        let k = editor::cursor_index(r.raw, e.cursor);
        lemma_cursor_to_ok(
            r,
            if k > 0 {
                k - 1
            } else {
                0
            },
        );
        lemma_cursor_to_ok(
            r,
            if k < r.raw.len() {
                k + 1
            } else {
                k
            },
        );
        let n = editor::newlines_before(r.raw, k);
        lemma_line_start(r.raw, n, 0);
        let start = editor::line_start_index(r.raw, n, 0);
        lemma_line_end(r.raw, start);
        lemma_cursor_to_ok(r, start);
        lemma_cursor_to_ok(r, editor::line_end_index(r.raw, start));
    }
}

proof fn lemma_undo_ok(r: reader::ReaderModel)
    requires
        edit_ok(r),
    ensures
        edit_ok(r.edit_undo()),
        edit_ok(r.edit_redo()),
{
    if r.edit is Some {
        let e = r.edit->0;
        if e.undo.len() > 0 {
            let x = e.undo[e.undo.len() - 1];
            assert(cursor_ok(x.0, x.1));
            lemma_cursor_within(x.0, x.1);
            let u = r.edit_undo().edit->0;
            assert forall|i: int| 0 <= i < u.undo.len() implies cursor_ok(
                (#[trigger] u.undo[i]).0,
                u.undo[i].1,
            ) by {
                assert(u.undo[i] == e.undo[i]);
            }
            assert forall|i: int| 0 <= i < u.redo.len() implies cursor_ok(
                (#[trigger] u.redo[i]).0,
                u.redo[i].1,
            ) by {
                if i < e.redo.len() {
                    assert(u.redo[i] == e.redo[i]);
                }
            }
        }
        if e.redo.len() > 0 {
            let x = e.redo[e.redo.len() - 1];
            assert(cursor_ok(x.0, x.1));
            lemma_cursor_within(x.0, x.1);
            let u = r.edit_redo().edit->0;
            assert forall|i: int| 0 <= i < u.undo.len() implies cursor_ok(
                (#[trigger] u.undo[i]).0,
                u.undo[i].1,
            ) by {
                let j = if e.undo.len() + 1 > UNDO_LIMIT {
                    i + 1
                } else {
                    i
                };
                if j < e.undo.len() {
                    assert(u.undo[i] == e.undo[j]);
                }
            }
            assert forall|i: int| 0 <= i < u.redo.len() implies cursor_ok(
                (#[trigger] u.redo[i]).0,
                u.redo[i].1,
            ) by {
                assert(u.redo[i] == e.redo[i]);
            }
        }
    }
}

/// Every key of an edit keeps it well-formed: the cursor stays on a character, and
/// at most as many buffers are remembered as the limit says. Both buffers must be
/// small enough for byte offsets to exist.
pub proof fn law_keys_keep_edit_well_formed(r: reader::ReaderModel, k: KeyInput)
    requires
        edit_ok(r),
        r.marks_stand(),
        bytes::byte_count(r.raw) <= usize::MAX,
        bytes::byte_count(r.after_edit_key(k).raw) <= usize::MAX,
    ensures
        edit_ok(r.after_edit_key(k)),
{
    lemma_moves_ok(r);
    lemma_vertical_ok(r, -1);
    lemma_vertical_ok(r, 1);
    lemma_word_ok(r, true);
    lemma_word_ok(r, false);
    lemma_undo_ok(r);
    match k.code {
        KeyCode::Char(c) => {
            if !k.ctrl {
                lemma_insert_ok(r, seq![c]);
            }
        },
        KeyCode::Enter => lemma_insert_ok(r, "\n"@),
        KeyCode::Tab => lemma_insert_ok(r, "  "@),
        KeyCode::Backspace => {
            if !(k.alt || k.ctrl) {
                lemma_backspace_ok(r);
            }
        },
        KeyCode::Delete => {
            if !(k.alt || k.ctrl) {
                lemma_forward_delete_ok(r);
            }
        },
        _ => {},
    }
}

/// An edit that was just begun is well-formed.
pub proof fn law_fresh_edit_is_well_formed(r: reader::ReaderModel)
    ensures
        edit_ok(r.with_edit(actions::fresh_edit())),
{
    bytes::lemma_byte_pos_ends(r.raw);
    assert(bytes::byte_pos(r.raw, 0) == 0);
}

// ---------------------------------------------------------------------------
// Keys that belong together
// ---------------------------------------------------------------------------

/// Backspace takes back a typed character, with the cursor.
pub proof fn law_backspace_removes_what_was_typed(r: reader::ReaderModel, c: char)
    requires
        r.edit is Some,
        edit_ok(r),
        bytes::byte_count(r.edit_insert(seq![c]).raw) <= usize::MAX,
    ensures
        ({
            let there = r.edit_insert(seq![c]).edit_backspace();
            there.raw == r.raw && there.edit is Some && there.edit->0.cursor == r.edit->0.cursor
        }),
{
    let e = r.edit->0;
    lemma_cursor_within(r.raw, e.cursor);
    let k = editor::cursor_index(r.raw, e.cursor);
    let typed = r.edit_insert(seq![c]);
    let raw = typed.raw;
    assert(raw == editor::replaced(r.raw, k, k, seq![c]));
    lemma_replaced_bytes(r.raw, k, k, seq![c]);
    lemma_boundary(raw, k + 1);
    bytes::lemma_floor_of_pos(raw, k + 1);
    bytes::lemma_byte_pos_step(raw, k);
    bytes::lemma_byte_pos_ends(raw);
    bytes::lemma_byte_pos_monotone(raw, 0, k);
    bytes::lemma_utf8_width(raw[k]);
    assert(typed.edit->0.cursor > 0);
    assert(editor::replaced(raw, k, k + 1, Seq::empty()) =~= r.raw);
}

/// Esc twice leaves an edit without its changes: the file is to be read anew.
pub proof fn law_two_escapes_discard(m: app::Model, now: u64, later: u64)
    requires
        m.doc() is Some,
        m.doc()->0.edit is Some,
        m.doc()->0.origin is File,
        !m.doc()->0.edit->0.discard_pending,
        m.doc()->0.doc_search is None,
        !m.help_open,
        m.git_lens is None,
        m.search is None,
    ensures
        ({
            let esc = KeyInput { code: KeyCode::Esc, ctrl: false, alt: false };
            let (asked, first) = m.key(esc, now);
            let (left, second) = asked.key(esc, later);
            &&& first is Nothing
            &&& asked.doc() is Some
            &&& asked.doc()->0.raw == m.doc()->0.raw
            &&& left.doc() is Some
            &&& left.doc()->0.edit is None
            &&& second == (app::EffectModel::ReadBack { path: m.doc()->0.origin->File_0 })
        }),
{
}

/// Any key but Esc and a save takes back the question whether to discard an edit, whether
/// or not it changes anything else.
pub proof fn law_other_keys_take_the_question_back(m: app::Model, k: KeyInput, now: u64)
    requires
        m.doc() is Some,
        m.doc()->0.edit is Some,
        !(m.doc()->0.doc_search is Some && m.doc()->0.doc_search->0.editing),
        !m.help_open,
        m.git_lens is None,
        m.search is None,
        !(k.code is Esc),
        !k.is_ctrl('s'),
        !k.is_ctrl('w'),
    ensures
        ({
            let after = m.key(k, now).0;
            &&& after.doc() is Some
            &&& after.doc()->0.edit is Some
            &&& !after.doc()->0.edit->0.discard_pending
        }),
{
}

/// Saving hands out the buffer as it is, to the file it came from. A write that succeeds
/// leaves the edit open and clean, with the buffer and the cursor as they were; until then
/// nothing changes.
pub proof fn law_save_writes_the_buffer(m: app::Model, meta: Option<FileMeta>)
    requires
        m.doc() is Some,
        m.doc()->0.edit is Some,
        m.doc()->0.origin is File,
    ensures
        ({
            let r = m.doc()->0;
            let (asked, e) = m.edit_saved();
            let saved = asked.write_settled(WriteCause::Save, meta);
            &&& asked == m
            &&& e == (app::EffectModel::WriteFile {
                path: r.origin->File_0,
                text: r.raw,
                cause: WriteCause::Save,
            })
            &&& saved.status == "Saved "@ + r.origin->File_0
            &&& saved.doc() == Some(
                reader::ReaderModel {
                    last_meta: meta,
                    edit: Some(
                        reader::EditModel { dirty: false, discard_pending: false, ..r.edit->0 },
                    ),
                    ..r
                },
            )
        }),
{
}

} // verus!
