//! What single keys stand for.

use vstd::prelude::*;
use crate::app;
use crate::app::{EffectModel, Screen};
use crate::bytes;
use crate::keys::{KeyCode, KeyInput};
use crate::laws_cursor;
use crate::laws_cursor::{
    is_countable,
    is_line_end,
    is_line_start,
    is_word_after,
    is_word_before,
    stands_before,
};
use crate::laws_motion::{ctrl, is_at_view, plain};
use crate::markdown;
use crate::reader;
use crate::reader::Focus;
use crate::search;
use crate::text;

verus! {

// ---------------------------------------------------------------------------
// Editing
// ---------------------------------------------------------------------------

/// Whether an edit has come to a text with the cursor before character `k`.
pub open spec fn is_now(a: reader::ReaderModel, t: Seq<char>, k: int) -> bool {
    a.raw == t && stands_before(a, k)
}

proof fn lemma_calmed(r: reader::ReaderModel, k: int)
    requires
        stands_before(r, k),
    ensures
        is_now(r.edit_calmed(), r.raw, k),
{
}

/// A character, Enter and Tab put text before the cursor: the character, a newline, two
/// spaces.
pub proof fn law_keys_type(r: reader::ReaderModel, k: int, c: char)
    requires
        stands_before(r, k),
        is_countable(r.raw.take(k) + seq![c] + r.raw.skip(k)),
        is_countable(r.raw.take(k) + seq!['\n'] + r.raw.skip(k)),
        is_countable(r.raw.take(k) + seq![' ', ' '] + r.raw.skip(k)),
    ensures
        is_now(
            r.after_edit_key(plain(KeyCode::Char(c))),
            r.raw.take(k) + seq![c] + r.raw.skip(k),
            k + 1,
        ),
        is_now(
            r.after_edit_key(plain(KeyCode::Enter)),
            r.raw.take(k) + seq!['\n'] + r.raw.skip(k),
            k + 1,
        ),
        is_now(
            r.after_edit_key(plain(KeyCode::Tab)),
            r.raw.take(k) + seq![' ', ' '] + r.raw.skip(k),
            k + 2,
        ),
{
    reveal_strlit("\n");
    reveal_strlit("  ");
    assert("\n"@ =~= seq!['\n']);
    assert("  "@ =~= seq![' ', ' ']);
    lemma_types(r, k, seq![c]);
    lemma_types(r, k, seq!['\n']);
    lemma_types(r, k, seq![' ', ' ']);
}

proof fn lemma_types(r: reader::ReaderModel, k: int, s: Seq<char>)
    requires
        stands_before(r, k),
        is_countable(r.raw.take(k) + s + r.raw.skip(k)),
    ensures
        is_now(
            r.edit_insert(s).edit_calmed(),
            r.raw.take(k) + s + r.raw.skip(k),
            k + s.len(),
        ),
{
    bytes::lemma_floor_of_pos(r.raw, k);
    assert(r.edit_insert(s).raw == r.raw.take(k) + s + r.raw.skip(k));
    laws_cursor::law_typing_inserts(r, k, s);
    lemma_calmed(r.edit_insert(s), k + s.len());
}

/// Backspace and Delete take off the character before or behind the cursor.
pub proof fn law_keys_remove(r: reader::ReaderModel, k: int)
    requires
        stands_before(r, k),
    ensures
        k > 0 ==> is_now(
            r.after_edit_key(plain(KeyCode::Backspace)),
            r.raw.take(k - 1) + r.raw.skip(k),
            k - 1,
        ),
        k < r.raw.len() ==> is_now(
            r.after_edit_key(plain(KeyCode::Delete)),
            r.raw.take(k) + r.raw.skip(k + 1),
            k,
        ),
{
    laws_cursor::law_backspace_removes(r, k);
    laws_cursor::law_delete_removes(r, k);
    if k > 0 {
        lemma_calmed(r.edit_backspace(), k - 1);
    }
    if k < r.raw.len() {
        lemma_calmed(r.edit_delete(), k);
    }
}

/// The arrows move the cursor by one character, and by a word with Ctrl or Alt; Home and End
/// move it to the edges of its line. None of them changes the text.
pub proof fn law_keys_move(r: reader::ReaderModel, k: int)
    requires
        stands_before(r, k),
        is_countable(r.raw),
    ensures
        k < r.raw.len() ==> is_now(r.after_edit_key(plain(KeyCode::Right)), r.raw, k + 1),
        k > 0 ==> is_now(r.after_edit_key(plain(KeyCode::Left)), r.raw, k - 1),
        exists|w: int|
            #[trigger] is_word_after(r.raw, k, w) && is_now(
                r.after_edit_key(KeyInput { code: KeyCode::Right, ctrl: true, alt: false }),
                r.raw,
                w,
            ),
        exists|w: int|
            #[trigger] is_word_before(r.raw, k, w) && is_now(
                r.after_edit_key(KeyInput { code: KeyCode::Left, ctrl: true, alt: false }),
                r.raw,
                w,
            ),
        exists|s: int|
            #[trigger] is_line_start(r.raw, k, s) && is_now(
                r.after_edit_key(plain(KeyCode::Home)),
                r.raw,
                s,
            ),
        exists|e: int|
            #[trigger] is_line_end(r.raw, k, e) && is_now(
                r.after_edit_key(plain(KeyCode::End)),
                r.raw,
                e,
            ),
{
    laws_cursor::law_arrow_moves_by_one(r, k);
    laws_cursor::law_word_keys_move_by_word(r, k);
    laws_cursor::law_edge_keys_stay_on_the_line(r, k);
    if k < r.raw.len() {
        lemma_calmed(r.edit_move_horizontal(1), k + 1);
    }
    if k > 0 {
        lemma_calmed(r.edit_move_horizontal(-1), k - 1);
    }
    let a = choose|w: int|
        #[trigger] is_word_after(r.raw, k, w) && stands_before(r.edit_move_word(true), w);
    let b = choose|w: int|
        #[trigger] is_word_before(r.raw, k, w) && stands_before(r.edit_move_word(false), w);
    let s = choose|s: int|
        #[trigger] is_line_start(r.raw, k, s) && stands_before(r.edit_move_line_edge(false), s);
    let e = choose|e: int|
        #[trigger] is_line_end(r.raw, k, e) && stands_before(r.edit_move_line_edge(true), e);
    lemma_calmed(r.edit_move_word(true), a);
    lemma_calmed(r.edit_move_word(false), b);
    lemma_calmed(r.edit_move_line_edge(false), s);
    lemma_calmed(r.edit_move_line_edge(true), e);
}

/// Ctrl-Z takes back what a key typed, and Ctrl-Y types it again.
pub proof fn law_keys_undo_and_redo(r: reader::ReaderModel, k: int, c: char)
    requires
        stands_before(r, k),
        is_countable(r.raw),
        is_countable(r.raw.take(k) + seq![c] + r.raw.skip(k)),
        r.edit->0.undo.len() < reader::UNDO_LIMIT,
    ensures
        ({
            let typed = r.after_edit_key(plain(KeyCode::Char(c)));
            let back = typed.after_edit_key(ctrl('z'));
            let again = back.after_edit_key(ctrl('y'));
            &&& is_now(back, r.raw, k)
            &&& again.raw == typed.raw
        }),
{
    bytes::lemma_floor_of_pos(r.raw, k);
    bytes::lemma_byte_pos_ends(r.raw);
    bytes::lemma_byte_pos_monotone(r.raw, k, r.raw.len() as int);
}

// ---------------------------------------------------------------------------
// Reading and browsing
// ---------------------------------------------------------------------------

/// What a key of the view begins with.
pub open spec fn by_key(m: app::Model) -> app::Model {
    app::Model { mouse_recent: false, ..m }
}

proof fn lemma_command(m: app::Model, k: KeyInput, now: u64)
    requires
        is_at_view(m),
        !k.is_ctrl('c'),
        !k.is_ctrl('g'),
        m.count_typed(k) is None,
        by_key(m).motion(k, now) is None,
    ensures
        m.key(k, now) == by_key(m).command(k),
{
    let y = by_key(m);
    assert(y.count_typed(k) is None);
    assert(y =~= app::Model { pending_g: None, pending_z: None, ..y });
}

/// Whether a step leads back to the place that was left last, from which one can go ahead
/// again.
pub open spec fn goes_back(m: app::Model, after: (app::Model, EffectModel)) -> bool {
    let last = m.history.last();
    &&& after.0.history == m.history.drop_last()
    &&& after.0.forward == m.forward.push(m.here())
    &&& !(last.kind is Stdin) ==> after.1 == (EffectModel::Load {
        kind: last.kind,
        scroll: last.scroll,
        selected: last.selected,
    })
}

/// Whether a step leads ahead to the place that was come back from.
pub open spec fn goes_ahead(m: app::Model, after: (app::Model, EffectModel)) -> bool {
    let next = m.forward.last();
    &&& after.0.forward == m.forward.drop_last()
    &&& after.0.history == m.history.push(m.here())
    &&& !(next.kind is Stdin) ==> after.1 == (EffectModel::Load {
        kind: next.kind,
        scroll: next.scroll,
        selected: next.selected,
    })
}

/// Backspace, `b` and `h` go back, `f` and `l` ahead.
pub proof fn law_history_keys(m: app::Model, now: u64)
    requires
        is_at_view(m),
    ensures
        m.history.len() > 0 ==> goes_back(m, m.key(plain(KeyCode::Backspace), now)) && goes_back(
            m,
            m.key(plain(KeyCode::Char('b')), now),
        ) && goes_back(m, m.key(plain(KeyCode::Char('h')), now)),
        m.forward.len() > 0 ==> goes_ahead(m, m.key(plain(KeyCode::Char('f')), now)) && goes_ahead(
            m,
            m.key(plain(KeyCode::Char('l')), now),
        ),
{
    lemma_command(m, plain(KeyCode::Backspace), now);
    lemma_command(m, plain(KeyCode::Char('b')), now);
    lemma_command(m, plain(KeyCode::Char('h')), now);
    lemma_command(m, plain(KeyCode::Char('f')), now);
    lemma_command(m, plain(KeyCode::Char('l')), now);
    let y = by_key(m);
    lemma_back(m, y);
}

proof fn lemma_back(m: app::Model, y: app::Model)
    requires
        y == by_key(m),
    ensures
        m.history.len() > 0 ==> goes_back(m, y.back()),
        m.forward.len() > 0 ==> goes_ahead(m, y.ahead()),
{
    assert(y.here() == m.here());
}

/// `q` quits, `?` opens the help, `/` opens the search in the document, and `e` begins an
/// edit of a file.
pub proof fn law_command_keys(m: app::Model, r: reader::ReaderModel, now: u64)
    requires
        is_at_view(m),
        m.view == Screen::Reader(r),
    ensures
        m.key(plain(KeyCode::Char('q')), now).0.should_quit,
        m.key(plain(KeyCode::Char('?')), now).0.help_open,
        ({
            let a = m.key(plain(KeyCode::Char('/')), now).0;
            &&& a.view is Reader
            &&& a.view->Reader_0.doc_search matches Some(s) && s.editing && s.query.len() == 0
            &&& a.view->Reader_0.raw == r.raw
        }),
        r.origin is File ==> ({
            let a = m.key(plain(KeyCode::Char('e')), now).0;
            &&& a.view is Reader
            &&& a.view->Reader_0.edit is Some
            &&& a.view->Reader_0.raw == r.raw
            &&& !a.view->Reader_0.edit->0.dirty
        }),
{
    lemma_command(m, plain(KeyCode::Char('q')), now);
    lemma_command(m, plain(KeyCode::Char('?')), now);
    lemma_command(m, plain(KeyCode::Char('/')), now);
    lemma_command(m, plain(KeyCode::Char('e')), now);
}

/// Enter follows the focused link, or flips the focused task marker.
pub proof fn law_enter_takes_the_focus(
    m: app::Model,
    r: reader::ReaderModel,
    rd: markdown::RenderedView,
    i: usize,
    now: u64,
)
    requires
        is_at_view(m),
        m.view == Screen::Reader(r),
        r.rendered == Some(rd),
    ensures
        r.focus == Some(Focus::Link(i)) && i < rd.links.len() ==> m.key(
            plain(KeyCode::Enter),
            now,
        ) == by_key(m).follow(rd.links[i as int].target),
        r.focus == Some(Focus::Checkbox(i)) ==> m.key(plain(KeyCode::Enter), now) == by_key(
            m,
        ).toggle(i),
        r.focus is None ==> m.key(plain(KeyCode::Enter), now) == (by_key(m), EffectModel::Nothing),
{
    lemma_command(m, plain(KeyCode::Enter), now);
    assert(by_key(m).doc() == Some(r));
}

// ---------------------------------------------------------------------------
// Prompts
// ---------------------------------------------------------------------------

/// Whether the query of the search in the document is being typed.
pub open spec fn is_typing(m: app::Model, r: reader::ReaderModel, s: reader::DocSearchModel) -> bool {
    &&& !m.help_open
    &&& m.git_lens is None
    &&& m.search is None
    &&& m.view == Screen::Reader(r)
    &&& r.doc_search == Some(s)
    &&& s.editing
}

proof fn lemma_typing(
    m: app::Model,
    r: reader::ReaderModel,
    s: reader::DocSearchModel,
    k: KeyInput,
    now: u64,
)
    requires
        is_typing(m, r, s),
        !k.is_ctrl('c'),
        !k.is_ctrl('g'),
    ensures
        m.key(k, now) == (by_key(m).doc_search_key(k), EffectModel::Nothing),
{
    assert(by_key(m).doc() == Some(r));
}

/// In the prompt of the search in the document a character is put behind the query, and
/// Backspace takes the last one off; what is found is what the new query finds. Enter ends
/// the prompt, and Esc the search.
pub proof fn law_prompt_keys(
    m: app::Model,
    r: reader::ReaderModel,
    s: reader::DocSearchModel,
    c: char,
    now: u64,
)
    requires
        is_typing(m, r, s),
    ensures
        m.key(plain(KeyCode::Char(c)), now).0 == by_key(m).doc_query(s.query.push(c)),
        s.query.len() > 0 ==> m.key(plain(KeyCode::Backspace), now).0 == by_key(m).doc_query(
            s.query.drop_last(),
        ),
        m.key(plain(KeyCode::Enter), now).0 == by_key(m).doc_search_committed(),
        ({
            let a = m.key(plain(KeyCode::Esc), now).0.view;
            &&& a is Reader
            &&& a->Reader_0 == (reader::ReaderModel { doc_search: None, ..r })
        }),
{
    lemma_typing(m, r, s, plain(KeyCode::Char(c)), now);
    lemma_typing(m, r, s, plain(KeyCode::Backspace), now);
    lemma_typing(m, r, s, plain(KeyCode::Enter), now);
    lemma_typing(m, r, s, plain(KeyCode::Esc), now);
    assert(by_key(m).doc() == Some(r));
}

/// `r` marks the selected entry of a list read: a file, or a directory with all that is in
/// it, and never the way up.
pub proof fn law_read_key_marks_the_entry(m: app::Model, b: app::BrowserModel, now: u64)
    requires
        is_at_view(m),
        m.view == Screen::Browser(b),
        b.selected < b.entries.len(),
    ensures
        ({
            let e = b.entries[b.selected as int];
            let (a, effect) = m.key(plain(KeyCode::Char('r')), now);
            &&& a.view == m.view
            &&& e.kind is ParentDir ==> effect == EffectModel::Nothing
            &&& !(e.kind is ParentDir) ==> effect == (EffectModel::MarkRead {
                path: e.path,
                dir: e.kind is Dir,
            })
        }),
{
    lemma_command(m, plain(KeyCode::Char('r')), now);
}

// ---------------------------------------------------------------------------
// Ranking
// ---------------------------------------------------------------------------

/// Whether `k` is where a text first holds another.
pub open spec fn first_stands(t: Seq<char>, p: Seq<char>, k: int) -> bool {
    &&& 0 <= k
    &&& k + p.len() <= t.len()
    &&& t.subrange(k, k + p.len()) == p
    &&& forall|j: int| 0 <= j < k ==> #[trigger] t.subrange(j, j + p.len()) != p
}

/// Whether position `k` lies in the last component of a path.
pub open spec fn in_last(t: Seq<char>, k: int) -> bool {
    forall|x: int| k <= x < t.len() ==> #[trigger] t[x] != '/'
}

/// Whether a word begins at position `k`.
pub open spec fn at_word(t: Seq<char>, k: int) -> bool {
    k == 0 || search::is_separator(t[k - 1])
}

proof fn lemma_first(t: Seq<char>, p: Seq<char>, k: int)
    requires
        first_stands(t, p, k),
    ensures
        text::first_from(t, p, 0) == Some(k),
{
    text::lemma_first_from(t, p, 0);
    assert(text::occurs_at(t, p, k));
    let j = text::first_from(t, p, 0)->0;
    if j < k {
        assert(t.subrange(j, j + p.len()) == p);
    }
}

proof fn lemma_last_slash(t: Seq<char>, n: int)
    requires
        0 <= n <= t.len(),
    ensures
        match search::last_slash(t, n) {
            Some(s) => 0 <= s < n && t[s] == '/' && forall|x: int| s < x < n ==> t[x] != '/',
            None => forall|x: int| 0 <= x < n ==> t[x] != '/',
        },
    decreases n,
{
    if n > 0 && t[n - 1] != '/' {
        lemma_last_slash(t, n - 1);
    }
}

/// A path ranks no lower than another in which the query stands no earlier, which is no
/// shorter, and in which the query begins a word, or lies in the last component, only if it
/// does so in the first; and it ranks higher where its match is earlier.
pub proof fn law_better_match_ranks_higher(
    t: Seq<char>,
    u: Seq<char>,
    p: Seq<char>,
    k: int,
    j: int,
)
    requires
        first_stands(t, p, k),
        first_stands(u, p, j),
        bytes::byte_pos(t, k) <= bytes::byte_pos(u, j),
        bytes::byte_count(t) <= bytes::byte_count(u),
        j == 0 ==> k == 0,
        at_word(u, j) ==> at_word(t, k),
        in_last(u, j) ==> in_last(t, k),
    ensures
        search::score_of(t, p) matches Some(a) && search::score_of(u, p) matches Some(b) && a >= b
            && (bytes::byte_pos(t, k) < bytes::byte_pos(u, j) ==> a > b),
{
    lemma_first(t, p, k);
    lemma_first(u, p, j);
    lemma_last_slash(t, t.len() as int);
    lemma_last_slash(u, u.len() as int);
    if let Some(s) = search::last_slash(t, t.len() as int) {
        assert(in_last(t, k) ==> s < k) by {
            if in_last(t, k) && s >= k {
                assert(t[s] != '/');
            }
        }
    }
    if let Some(s) = search::last_slash(u, u.len() as int) {
        assert(s < j ==> in_last(u, j));
    } else {
        assert(in_last(u, j));
    }
}

} // verus!
