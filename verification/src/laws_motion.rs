//! What the keys that move through a document or a list do.

use vstd::prelude::*;
use crate::app;
use crate::app::{EffectModel, Screen};
use crate::keys::{KeyCode, KeyInput};
use crate::reader;
use crate::reader::Focus;
use crate::scroll;
use crate::scroll::ViewportTarget;

verus! {

/// Whether keys go to the view: no prompt, overlay or edit takes them, and no chord has
/// begun.
pub open spec fn is_at_view(m: app::Model) -> bool {
    &&& !m.help_open
    &&& m.git_lens is None
    &&& m.search is None
    &&& m.pending_g is None
    &&& m.pending_z is None
    &&& m.doc() matches Some(r) ==> r.edit is None && (r.doc_search matches Some(s)
        ==> !s.editing)
}

/// Whether a document of so many lines is read on a screen of height `h`, from a place
/// within it, and its lines can be counted by scroll positions.
pub open spec fn is_reading(m: app::Model, r: reader::ReaderModel, h: int, last: int) -> bool {
    &&& is_at_view(m)
    &&& m.view == Screen::Reader(r)
    &&& m.viewport.height == h
    &&& last == (if r.total() > h {
        r.total() - h
    } else {
        0
    })
    &&& r.scroll <= last <= u16::MAX
}

/// The count that is typed before a motion.
pub open spec fn count_of(m: app::Model) -> int {
    match m.count_prefix {
        Some(n) => if n == 0 {
            1
        } else {
            n as int
        },
        None => 1,
    }
}

/// Whether a key brings the document to a line, leaves it as it is otherwise, and uses up
/// the count.
pub open spec fn comes_to(m: app::Model, r: reader::ReaderModel, k: KeyInput, line: int) -> bool {
    forall|now: u64|
        {
            let (a, e) = #[trigger] m.key(k, now);
            &&& e == EffectModel::Nothing
            &&& a.count_prefix is None
            &&& a.view is Reader
            &&& a.view->Reader_0.scroll == line
            &&& a.view->Reader_0.raw == r.raw
            &&& a.view->Reader_0.rendered == r.rendered
            &&& a.history == m.history
        }
}

pub open spec fn plain(code: KeyCode) -> KeyInput {
    KeyInput { code, ctrl: false, alt: false }
}

pub open spec fn ctrl(c: char) -> KeyInput {
    KeyInput { code: KeyCode::Char(c), ctrl: true, alt: false }
}

pub open spec fn at_most(x: int, last: int) -> int {
    if x < last {
        x
    } else {
        last
    }
}

pub open spec fn at_least_zero(x: int) -> int {
    if x > 0 {
        x
    } else {
        0
    }
}

/// The state that a key of the view begins with.
spec fn fresh(m: app::Model) -> app::Model {
    app::Model { mouse_recent: false, ..m }
}

/// A key that no chord, count or overlay takes is a motion, where it stands for one.
proof fn lemma_view_key(m: app::Model, k: KeyInput, now: u64)
    requires
        is_at_view(m),
        !k.is_ctrl('c'),
        !k.is_ctrl('g'),
        m.count_typed(k) is None,
    ensures
        m.key(k, now) == fresh(m).view_key(k, now),
        fresh(m).motion(k, now) matches Some(a) ==> m.key(k, now) == (a, EffectModel::Nothing),
{
    let y = fresh(m);
    assert(y.count_typed(k) is None);
    assert(y =~= app::Model { pending_g: None, pending_z: None, ..y });
}

spec fn clamp(x: int, last: int) -> int {
    if x < 0 {
        0
    } else if x > last {
        last
    } else {
        x
    }
}

proof fn lemma_scrolled(m: app::Model, r: reader::ReaderModel, h: int, last: int, d: int)
    requires
        is_reading(m, r, h, last),
    ensures
        ({
            let a = fresh(m).counted().scrolled(d);
            &&& a.count_prefix is None
            &&& a.view is Reader
            &&& a.view->Reader_0.scroll == clamp(r.scroll + d, last)
            &&& a.view->Reader_0.raw == r.raw
            &&& a.view->Reader_0.rendered == r.rendered
            &&& a.history == m.history
        }),
{
}

/// Whether a key is a motion by so many lines.
spec fn moves_by(m: app::Model, k: KeyInput, d: int) -> bool {
    forall|now: u64|
        #[trigger] fresh(m).motion(k, now) == Some(fresh(m).counted().scrolled(d))
}

proof fn lemma_moves(
    m: app::Model,
    r: reader::ReaderModel,
    k: KeyInput,
    h: int,
    last: int,
    d: int,
)
    requires
        is_reading(m, r, h, last),
        !k.is_ctrl('c'),
        !k.is_ctrl('g'),
        m.count_typed(k) is None,
        moves_by(m, k, d),
    ensures
        comes_to(m, r, k, clamp(r.scroll + d, last)),
{
    lemma_scrolled(m, r, h, last, d);
    assert forall|now: u64|
        {
            let (a, e) = #[trigger] m.key(k, now);
            &&& e == EffectModel::Nothing
            &&& a.count_prefix is None
            &&& a.view is Reader
            &&& a.view->Reader_0.scroll == clamp(r.scroll + d, last)
            &&& a.view->Reader_0.raw == r.raw
            &&& a.view->Reader_0.rendered == r.rendered
            &&& a.history == m.history
        } by {
        lemma_view_key(m, k, now);
        assert(fresh(m).motion(k, now) == Some(fresh(m).counted().scrolled(d)));
    }
}

/// `j` and `k` and the arrows move by as many lines as the count says, up to the ends of
/// the document.
pub proof fn law_line_keys_move_by_lines(m: app::Model, r: reader::ReaderModel, h: int, last: int)
    requires
        is_reading(m, r, h, last),
    ensures
        comes_to(m, r, plain(KeyCode::Char('j')), at_most(r.scroll + count_of(m), last)),
        comes_to(m, r, plain(KeyCode::Down), at_most(r.scroll + count_of(m), last)),
        comes_to(m, r, plain(KeyCode::Char('k')), at_least_zero(r.scroll - count_of(m))),
        comes_to(m, r, plain(KeyCode::Up), at_least_zero(r.scroll - count_of(m))),
{
    let n = count_of(m);
    lemma_moves(m, r, plain(KeyCode::Char('j')), h, last, n);
    lemma_moves(m, r, plain(KeyCode::Down), h, last, n);
    lemma_moves(m, r, plain(KeyCode::Char('k')), h, last, -n);
    lemma_moves(m, r, plain(KeyCode::Up), h, last, -n);
}

/// The page keys move by screens of which one line stays, as many as the count says.
pub proof fn law_page_keys_move_by_pages(m: app::Model, r: reader::ReaderModel, h: int, last: int)
    requires
        is_reading(m, r, h, last),
        h > 1,
    ensures
        comes_to(
            m,
            r,
            plain(KeyCode::PageDown),
            at_most(r.scroll + count_of(m) * (h - 1), last),
        ),
        comes_to(
            m,
            r,
            plain(KeyCode::Char(' ')),
            at_most(r.scroll + count_of(m) * (h - 1), last),
        ),
        comes_to(m, r, ctrl('f'), at_most(r.scroll + count_of(m) * (h - 1), last)),
        comes_to(
            m,
            r,
            plain(KeyCode::PageUp),
            at_least_zero(r.scroll - count_of(m) * (h - 1)),
        ),
        comes_to(m, r, ctrl('b'), at_least_zero(r.scroll - count_of(m) * (h - 1))),
{
    let d = count_of(m) * (h - 1);
    assert(0 <= d) by (nonlinear_arith)
        requires
            d == count_of(m) * (h - 1),
            count_of(m) >= 1,
            h > 1,
    ;
    lemma_moves(m, r, plain(KeyCode::PageDown), h, last, d);
    lemma_moves(m, r, plain(KeyCode::Char(' ')), h, last, d);
    lemma_moves(m, r, ctrl('f'), h, last, d);
    lemma_moves(m, r, plain(KeyCode::PageUp), h, last, -d);
    lemma_moves(m, r, ctrl('b'), h, last, -d);
}

/// `d` and `u` move by half screens, as many as the count says.
pub proof fn law_half_page_keys_move_by_halves(
    m: app::Model,
    r: reader::ReaderModel,
    h: int,
    last: int,
)
    requires
        is_reading(m, r, h, last),
        h > 1,
    ensures
        comes_to(
            m,
            r,
            plain(KeyCode::Char('d')),
            at_most(r.scroll + count_of(m) * (h / 2), last),
        ),
        comes_to(
            m,
            r,
            plain(KeyCode::Char('u')),
            at_least_zero(r.scroll - count_of(m) * (h / 2)),
        ),
{
    let half = h / 2;
    let d = count_of(m) * half;
    assert(0 <= d) by (nonlinear_arith)
        requires
            d == count_of(m) * half,
            count_of(m) >= 1,
            half >= 0,
    ;
    lemma_moves(m, r, plain(KeyCode::Char('d')), h, last, d);
    lemma_moves(m, r, plain(KeyCode::Char('u')), h, last, -d);
}

proof fn lemma_scrolled_to(
    m: app::Model,
    y: app::Model,
    r: reader::ReaderModel,
    h: int,
    last: int,
    line: u16,
)
    requires
        is_reading(m, r, h, last),
        y.view == m.view,
        y.viewport == m.viewport,
        y.history == m.history,
        y.count_prefix is None,
    ensures
        ({
            let a = y.scrolled_to(line);
            &&& a.count_prefix is None
            &&& a.view is Reader
            &&& a.view->Reader_0.scroll == at_most(line as int, last)
            &&& a.view->Reader_0.raw == r.raw
            &&& a.view->Reader_0.rendered == r.rendered
            &&& a.history == m.history
        }),
{
}

proof fn lemma_jumps(
    m: app::Model,
    r: reader::ReaderModel,
    k: KeyInput,
    h: int,
    last: int,
    line: u16,
)
    requires
        is_reading(m, r, h, last),
        !k.is_ctrl('c'),
        !k.is_ctrl('g'),
        m.count_typed(k) is None,
        forall|now: u64|
            #[trigger] fresh(m).motion(k, now) == Some(fresh(m).counted().scrolled_to(line)),
    ensures
        comes_to(m, r, k, at_most(line as int, last)),
{
    lemma_scrolled_to(m, fresh(m).counted(), r, h, last, line);
    assert forall|now: u64|
        {
            let (a, e) = #[trigger] m.key(k, now);
            &&& e == EffectModel::Nothing
            &&& a.count_prefix is None
            &&& a.view is Reader
            &&& a.view->Reader_0.scroll == at_most(line as int, last)
            &&& a.view->Reader_0.raw == r.raw
            &&& a.view->Reader_0.rendered == r.rendered
            &&& a.history == m.history
        } by {
        lemma_view_key(m, k, now);
        assert(fresh(m).motion(k, now) == Some(fresh(m).counted().scrolled_to(line)));
    }
}

/// `G` leads to the end of the document, or to the line that the count names, counted from
/// one. `Home` leads to the start.
pub proof fn law_jump_keys_reach_the_ends(m: app::Model, r: reader::ReaderModel, h: int, last: int)
    requires
        is_reading(m, r, h, last),
    ensures
        m.count_prefix is None ==> comes_to(m, r, plain(KeyCode::Char('G')), last),
        m.count_prefix is None ==> comes_to(m, r, plain(KeyCode::End), last),
        m.count_prefix matches Some(n) ==> n > 0 ==> comes_to(
            m,
            r,
            plain(KeyCode::Char('G')),
            at_most(n - 1, last),
        ),
        m.count_prefix is None ==> comes_to(m, r, plain(KeyCode::Home), 0),
{
    let line = m.line_asked();
    assert(fresh(m).line_asked() == line);
    lemma_jumps(m, r, plain(KeyCode::Char('G')), h, last, line);
    lemma_jumps(m, r, plain(KeyCode::End), h, last, line);
    if m.count_prefix is None {
        assert(fresh(m).counted() =~= fresh(m));
        lemma_jumps(m, r, plain(KeyCode::Home), h, last, 0);
    }
}

/// A double `g` leads to the start of the document, if the second follows within the time of
/// a chord.
pub proof fn law_double_g_reaches_the_start(
    m: app::Model,
    r: reader::ReaderModel,
    h: int,
    last: int,
    now: u64,
    later: u64,
)
    requires
        is_reading(m, r, h, last),
        now <= later <= now + 700,
    ensures
        ({
            let g = plain(KeyCode::Char('g'));
            let a = m.key(g, now).0.key(g, later).0;
            &&& a.view is Reader
            &&& a.view->Reader_0.scroll == 0
            &&& a.view->Reader_0.raw == r.raw
        }),
{
    let g = plain(KeyCode::Char('g'));
    lemma_view_key(m, g, now);
    let b = app::Model { pending_g: Some(now), ..fresh(m) };
    assert(m.key(g, now).0 == b);
    assert(fresh(b) =~= b);
    assert(b.key(g, later) == b.view_key(g, later)) by {
        lemma_open(b, g, later);
    }
}

/// A key goes to the view where nothing else takes it, whatever chord has begun.
proof fn lemma_open(m: app::Model, k: KeyInput, now: u64)
    requires
        !m.help_open,
        m.git_lens is None,
        m.search is None,
        m.doc() matches Some(r) ==> r.edit is None && (r.doc_search matches Some(s)
            ==> !s.editing),
        !k.is_ctrl('c'),
        !k.is_ctrl('g'),
    ensures
        m.key(k, now) == fresh(m).view_key(k, now),
{
}

/// Digits make up a count, the largest of which is 99999: a digit is put behind those
/// before it. A zero begins none.
pub proof fn law_digits_make_a_count(m: app::Model, c: char, now: u64)
    requires
        is_at_view(m),
        '0' <= c <= '9',
        m.count_prefix is None ==> c != '0',
    ensures
        ({
            let (a, e) = m.key(plain(KeyCode::Char(c)), now);
            let before = match m.count_prefix {
                Some(n) => n as int,
                None => 0,
            };
            let n = before * 10 + (c as int - '0' as int);
            &&& e == EffectModel::Nothing
            &&& a.view == m.view
            &&& a.count_prefix matches Some(x) && x == at_most(n, 99999)
        }),
{
}

// ---------------------------------------------------------------------------
// Lists
// ---------------------------------------------------------------------------

proof fn lemma_list_motion(y: app::Model, now: u64)
    requires
        y.count_prefix is None,
        y.counted() == y,
    ensures
        y.motion(plain(KeyCode::Char('j')), now) == Some(y.scrolled(1)),
        y.motion(plain(KeyCode::Char('k')), now) == Some(y.scrolled(-1)),
{
}

proof fn lemma_list_moves(y: app::Model, b: app::BrowserModel)
    requires
        y.view == Screen::Browser(b),
        b.selected < b.entries.len() <= usize::MAX,
    ensures
        ({
            let n = b.entries.len() as int;
            let down = y.scrolled(1).view;
            let up = y.scrolled(-1).view;
            &&& down is Browser && up is Browser
            &&& down->Browser_0.entries == b.entries && up->Browser_0.entries == b.entries
            &&& down->Browser_0.selected == (if b.selected + 1 < n {
                b.selected + 1
            } else {
                0
            })
            &&& up->Browser_0.selected == (if b.selected > 0 {
                b.selected - 1
            } else {
                n - 1
            })
        }),
{
    let n = b.entries.len() as int;
    if b.selected + 1 < n {
        vstd::arithmetic::div_mod::lemma_small_mod((b.selected + 1) as nat, n as nat);
    } else {
        vstd::arithmetic::div_mod::lemma_mod_self_0(n);
    }
    if b.selected > 0 {
        vstd::arithmetic::div_mod::lemma_small_mod((b.selected - 1) as nat, n as nat);
    } else {
        vstd::arithmetic::div_mod::lemma_mod_add_multiples_vanish(-1, n);
        vstd::arithmetic::div_mod::lemma_small_mod((n - 1) as nat, n as nat);
    }
}

/// In a list `j` selects the next entry and `k` the one before it, the first behind the last
/// and the last before the first, and leave the entries as they are.
pub proof fn law_line_keys_select_the_next(m: app::Model, b: app::BrowserModel, now: u64)
    requires
        is_at_view(m),
        m.view == Screen::Browser(b),
        m.count_prefix is None,
        b.selected < b.entries.len() <= usize::MAX,
    ensures
        ({
            let n = b.entries.len() as int;
            let down = m.key(plain(KeyCode::Char('j')), now).0.view;
            let up = m.key(plain(KeyCode::Char('k')), now).0.view;
            &&& down is Browser && up is Browser
            &&& down->Browser_0.entries == b.entries && up->Browser_0.entries == b.entries
            &&& down->Browser_0.selected == (if b.selected + 1 < n {
                b.selected + 1
            } else {
                0
            })
            &&& up->Browser_0.selected == (if b.selected > 0 {
                b.selected - 1
            } else {
                n - 1
            })
        }),
{
    lemma_view_key(m, plain(KeyCode::Char('j')), now);
    lemma_view_key(m, plain(KeyCode::Char('k')), now);
    let y = fresh(m);
    assert(y.counted() =~= y);
    lemma_list_motion(y, now);
    lemma_list_moves(y, b);
}

// ---------------------------------------------------------------------------
// Focus
// ---------------------------------------------------------------------------

proof fn lemma_walk_motion(y: app::Model, back: bool, now: u64)
    ensures
        y.motion(
            plain(
                if back {
                    KeyCode::BackTab
                } else {
                    KeyCode::Tab
                },
            ),
            now,
        ) == Some(
            y.focus_walked(
                if back {
                    -1
                } else {
                    1
                },
            ),
        ),
{
}

proof fn lemma_walk(y: app::Model, r: reader::ReaderModel, d: int, i: int)
    requires
        y.view == Screen::Reader(r),
        y.viewport.height > 0,
        r.focus_targets().len() > 0,
        i == r.focus_after(d),
        0 <= i < r.focus_targets().len(),
        r.focus_targets()[i].1 <= u16::MAX,
    ensures
        ({
            let a = y.focus_walked(d);
            let t = r.focus_targets()[i];
            &&& a.view is Reader
            &&& a.view->Reader_0.focus == Some(t.0)
            &&& a.view->Reader_0.scroll <= t.1
            &&& t.1 < a.view->Reader_0.scroll + y.viewport.height
        }),
{
    let t = r.focus_targets()[i];
    let w = y.with_doc(reader::ReaderModel { focus: Some(t.0), ..r });
    assert(y.focus_walked(d) == w.showing_line(t.1 as int));
    lemma_showing(w, reader::ReaderModel { focus: Some(t.0), ..r }, t.1 as int);
}

proof fn lemma_showing(w: app::Model, r: reader::ReaderModel, line: int)
    requires
        w.view == Screen::Reader(r),
        w.viewport.height > 0,
        0 <= line <= u16::MAX,
    ensures
        ({
            let a = w.showing_line(line);
            &&& a.view is Reader
            &&& a.view->Reader_0.focus == r.focus
            &&& a.view->Reader_0.scroll <= line
            &&& line < a.view->Reader_0.scroll + w.viewport.height
        }),
{
}

/// Tab and its opposite focus a link or a task marker of the document and bring its line on
/// screen.
pub proof fn law_walk_shows_the_focus(m: app::Model, r: reader::ReaderModel, back: bool, now: u64)
    requires
        is_at_view(m),
        m.view == Screen::Reader(r),
        m.viewport.height > 0,
        0 < r.focus_targets().len(),
        forall|i: int|
            0 <= i < r.focus_targets().len() ==> (#[trigger] r.focus_targets()[i]).1 <= u16::MAX,
    ensures
        exists|i: int|
            {
                let a = m.key(
                    plain(
                        if back {
                            KeyCode::BackTab
                        } else {
                            KeyCode::Tab
                        },
                    ),
                    now,
                ).0;
                let t = #[trigger] r.focus_targets()[i];
                &&& 0 <= i < r.focus_targets().len()
                &&& a.view is Reader
                &&& a.view->Reader_0.focus == Some(t.0)
                &&& a.view->Reader_0.scroll <= t.1
                &&& t.1 < a.view->Reader_0.scroll + m.viewport.height
            },
{
    let ts = r.focus_targets();
    let n = ts.len() as int;
    let d: int = if back {
        -1
    } else {
        1
    };
    let i = r.focus_after(d);
    if let Some(j) = r.focus_index() {
        vstd::arithmetic::div_mod::lemma_mod_bound(j + d, n);
    }
    let y = fresh(m);
    assert(y.doc() == Some(r));
    let k = plain(
        if back {
            KeyCode::BackTab
        } else {
            KeyCode::Tab
        },
    );
    lemma_view_key(m, k, now);
    lemma_walk_motion(y, back, now);
    assert(ts[i].1 <= u16::MAX);
    lemma_walk(y, r, d, i);
    let t = ts[i];
    assert(0 <= i < n);
}

/// How far apart two lines are.
pub open spec fn apart(a: int, b: int) -> int {
    if a < b {
        b - a
    } else {
        a - b
    }
}

/// The first of the nearest among the first `n` targets.
proof fn lemma_closest(ts: Seq<(Focus, usize, usize)>, line: int, n: int) -> (i: int)
    requires
        0 < n <= ts.len(),
    ensures
        0 <= i < n,
        forall|j: int|
            0 <= j < n ==> scroll::distance(ts[i], line) <= #[trigger] scroll::distance(
                ts[j],
                line,
            ),
        forall|j: int|
            0 <= j < i ==> scroll::distance(ts[i], line) < #[trigger] scroll::distance(ts[j], line),
    decreases n,
{
    if n == 1 {
        0
    } else {
        let i = lemma_closest(ts, line, n - 1);
        if scroll::distance(ts[n - 1], line) < scroll::distance(ts[i], line) {
            n - 1
        } else {
            i
        }
    }
}

proof fn lemma_nearest(y: app::Model, r: reader::ReaderModel, target: ViewportTarget, line: int)
    requires
        y.view == Screen::Reader(r),
        r.focus_targets().len() > 0,
        line == r.line_on_screen(target, y.viewport.height as int),
    ensures
        is_nearest(r, y.focus_on_screen(target), line),
{
    let ts = r.focus_targets();
    let i = lemma_closest(ts, line, ts.len() as int);
    assert(scroll::is_closest(ts, line, i));
    let c = scroll::closest(ts, line);
    assert(scroll::is_closest(ts, line, c));
    assert forall|j: int| 0 <= j < ts.len() implies apart(ts[c].1 as int, line) <= apart(
        #[trigger] ts[j].1 as int,
        line,
    ) by {
        assert(scroll::distance(ts[c], line) <= scroll::distance(ts[j], line));
    }
    let a = y.focus_on_screen(target);
    assert(a.view is Reader && a.view->Reader_0.focus == Some(ts[c].0));
}

/// Whether the link or task marker in focus is one of those nearest to a line, and nothing
/// was scrolled.
pub open spec fn is_nearest(r: reader::ReaderModel, a: app::Model, line: int) -> bool {
    &&& a.view is Reader
    &&& a.view->Reader_0.scroll == r.scroll
    &&& exists|i: int|
        {
            &&& 0 <= i < r.focus_targets().len()
            &&& a.view->Reader_0.focus == Some((#[trigger] r.focus_targets()[i]).0)
            &&& forall|j: int|
                0 <= j < r.focus_targets().len() ==> apart(
                    r.focus_targets()[i].1 as int,
                    line,
                ) <= apart(#[trigger] r.focus_targets()[j].1 as int, line)
        }
}

/// `H`, `M` and `L` focus what is nearest to the first, the middle and the last line on
/// screen.
pub proof fn law_screen_keys_focus_the_nearest(
    m: app::Model,
    r: reader::ReaderModel,
    h: int,
    last: int,
    now: u64,
)
    requires
        is_reading(m, r, h, last),
        0 < h <= r.total(),
        r.focus_targets().len() > 0,
    ensures
        is_nearest(r, m.key(plain(KeyCode::Char('H')), now).0, r.scroll as int),
        is_nearest(r, m.key(plain(KeyCode::Char('M')), now).0, r.scroll + h / 2),
        is_nearest(r, m.key(plain(KeyCode::Char('L')), now).0, r.scroll + h - 1),
{
    let y = fresh(m);
    lemma_view_key(m, plain(KeyCode::Char('H')), now);
    lemma_view_key(m, plain(KeyCode::Char('M')), now);
    lemma_view_key(m, plain(KeyCode::Char('L')), now);
    lemma_screen_motion(y, now);
    lemma_nearest(y, r, ViewportTarget::Top, r.scroll as int);
    lemma_nearest(y, r, ViewportTarget::Middle, r.scroll + h / 2);
    lemma_nearest(y, r, ViewportTarget::Bottom, r.scroll + h - 1);
}

proof fn lemma_screen_motion(y: app::Model, now: u64)
    ensures
        y.motion(plain(KeyCode::Char('H')), now) == Some(y.focus_on_screen(ViewportTarget::Top)),
        y.motion(plain(KeyCode::Char('M')), now) == Some(
            y.focus_on_screen(ViewportTarget::Middle),
        ),
        y.motion(plain(KeyCode::Char('L')), now) == Some(
            y.focus_on_screen(ViewportTarget::Bottom),
        ),
{
}

/// Centering puts the line of the focus in the middle of the screen, as far as the ends of
/// the document let it.
pub proof fn law_centering_puts_the_focus_in_the_middle(
    m: app::Model,
    r: reader::ReaderModel,
    h: int,
    last: int,
    line: usize,
    col: usize,
)
    requires
        is_reading(m, r, h, last),
        r.focus_position() == Some((line, col)),
    ensures
        ({
            let a = m.focus_centered();
            &&& a.view is Reader
            &&& a.view->Reader_0.scroll == at_most(at_least_zero(line - h / 2), last)
            &&& a.view->Reader_0.focus == r.focus
        }),
{
}

/// The match that the search in the document is at comes to the middle of the screen, as far
/// as the ends of the document let it.
pub proof fn law_match_comes_to_the_middle(
    m: app::Model,
    r: reader::ReaderModel,
    s: reader::DocSearchModel,
    h: int,
    last: int,
)
    requires
        is_reading(m, r, h, last),
        r.doc_search == Some(s),
        s.current < s.matches.len(),
    ensures
        ({
            let a = m.match_centered();
            let line = s.matches[s.current as int].line;
            &&& a.view is Reader
            &&& a.view->Reader_0.scroll == at_most(at_least_zero(line - h / 2), last)
            &&& a.view->Reader_0.doc_search == Some(s)
        }),
{
}

} // verus!
