//! What holds of reading and browsing as a whole.

use vstd::prelude::*;
use crate::actions;
use crate::app;
use crate::app::Selection;
use crate::browser;
use crate::bytes;
use crate::editor;
use crate::keys;
use crate::keys::{KeyCode, KeyInput};
use crate::links;
use crate::paths;
use crate::reader;
use crate::reader::FileMeta;
use crate::scroll;
use crate::syntax::Highlighter;
use crate::text;
use crate::views;

verus! {

broadcast use crate::views::group_views;

// ---------------------------------------------------------------------------
// Task markers
// ---------------------------------------------------------------------------

/// Whether the marker of a task stands at character `a` of a text.
pub open spec fn has_marker(t: Seq<char>, a: int, checked: bool) -> bool {
    text::occurs_at(
        t,
        if checked {
            "[x]"@
        } else {
            "[ ]"@
        },
        a,
    )
}

proof fn lemma_marker_bytes(t: Seq<char>, a: int, checked: bool)
    requires
        has_marker(t, a, checked),
    ensures
        0 <= a,
        a + 3 <= t.len(),
        bytes::byte_pos(t, a + 3) == bytes::byte_pos(t, a) + 3,
{
    reveal_strlit("[x]");
    reveal_strlit("[ ]");
    assert(t[a] == t.subrange(a, a + 3)[0]);
    assert(t[a + 1] == t.subrange(a, a + 3)[1]);
    assert(t[a + 2] == t.subrange(a, a + 3)[2]);
    bytes::lemma_byte_pos_step(t, a);
    bytes::lemma_byte_pos_step(t, a + 1);
    bytes::lemma_byte_pos_step(t, a + 2);
    bytes::lemma_utf8_width(t[a]);
    bytes::lemma_utf8_width(t[a + 1]);
    bytes::lemma_utf8_width(t[a + 2]);
}

/// Flipping a task marker writes the other marker there and changes nothing else;
/// flipping it once more gives back the text as it was.
pub proof fn law_toggle_twice_is_nothing(t: Seq<char>, a: int, checked: bool)
    requires
        has_marker(t, a, checked),
        bytes::byte_count(t) <= usize::MAX,
    ensures
        ({
            let offset = bytes::byte_pos(t, a) as usize;
            let once = app::toggled(t, offset, checked);
            &&& once is Some
            &&& has_marker(once->0, a, !checked)
            &&& once->0.len() == t.len()
            &&& forall|i: int|
                0 <= i < t.len() && !(a <= i < a + 3) ==> (#[trigger] once->0[i]) == t[i]
            &&& app::toggled(once->0, offset, !checked) == Some(t)
        }),
{
    reveal_strlit("[x]");
    reveal_strlit("[ ]");
    lemma_marker_bytes(t, a, checked);
    bytes::lemma_byte_pos_ends(t);
    bytes::lemma_byte_pos_monotone(t, 0, a);
    bytes::lemma_byte_pos_monotone(t, a + 3, t.len() as int);
    bytes::lemma_floor_of_pos(t, a);
    bytes::lemma_floor_of_pos(t, a + 3);
    let offset = bytes::byte_pos(t, a) as usize;
    let other = if checked {
        "[ ]"@
    } else {
        "[x]"@
    };
    let u = editor::replaced(t, a, a + 3, other);
    assert(app::toggled(t, offset, checked) == Some(u));
    assert(u.subrange(a, a + 3) =~= other);
    assert(has_marker(u, a, !checked));
    assert(u.take(a) =~= t.take(a));
    assert(bytes::byte_pos(u, a) == bytes::byte_pos(t, a));
    lemma_marker_bytes(u, a, !checked);
    bytes::lemma_byte_pos_ends(u);
    bytes::lemma_byte_pos_monotone(u, a + 3, u.len() as int);
    bytes::lemma_floor_of_pos(u, a);
    bytes::lemma_floor_of_pos(u, a + 3);
    let mine = t.subrange(a, a + 3);
    assert(editor::replaced(u, a, a + 3, mine) =~= t);
}

// ---------------------------------------------------------------------------
// Files that change
// ---------------------------------------------------------------------------

/// A file that was taken in is not stale until its fingerprint moves again.
pub proof fn law_reload_settles(m: app::Model, meta: FileMeta, raw: Seq<char>)
    ensures
        !m.reloaded(meta, raw).is_stale(meta),
        m.is_stale(meta) ==> m.reloaded(meta, raw).doc()->0.raw == raw,
{
}

/// A file whose content is the same after all leaves the document, its rendering
/// and the status as they are.
pub proof fn law_touch_changes_nothing_on_screen(m: app::Model, meta: FileMeta)
    requires
        m.doc() is Some,
    ensures
        ({
            let r = m.doc()->0;
            let after = m.reloaded(meta, r.raw);
            &&& after.status == m.status
            &&& after.doc() == Some(
                reader::ReaderModel { last_meta: after.doc()->0.last_meta, ..r },
            )
        }),
{
}

/// A write of the program's own is not taken for one from outside: not that of a flipped
/// task marker, nor that of an edit once it is left.
pub proof fn law_own_write_is_not_stale(m: app::Model, idx: usize, meta: FileMeta)
    ensures
        m.toggle(idx).1 matches app::EffectModel::WriteFile { cause, .. } ==> !m.toggle(
            idx,
        ).0.write_settled(cause, Some(meta)).is_stale(meta),
        m.edit_saved().1 matches app::EffectModel::WriteFile { cause, .. }
            ==> !m.edit_saved().0.write_settled(cause, Some(meta)).edit_left().is_stale(meta),
{
}

/// An edit is never overwritten by what happens to its file.
pub proof fn law_edit_is_not_reloaded(m: app::Model, meta: FileMeta, raw: Seq<char>)
    requires
        m.doc() is Some,
        m.doc()->0.edit is Some,
    ensures
        m.watched() is None,
        m.reloaded(meta, raw) == m,
{
}

// ---------------------------------------------------------------------------
// History
// ---------------------------------------------------------------------------

/// What a history entry asks to be shown.
pub open spec fn asked(h: app::HistoryModel) -> app::EffectModel {
    match h.kind {
        app::KindModel::Stdin(_) => app::EffectModel::Nothing,
        kind => app::EffectModel::Load { kind, scroll: h.scroll, selected: h.selected },
    }
}

/// Going back from a place that was gone to leads to the place before, with its
/// scroll position and selection, and the history is as it was.
pub proof fn law_back_returns(
    m: app::Model,
    kind: app::KindModel,
    to: u16,
    there: app::Screen,
)
    ensures
        ({
            let gone = m.navigate(kind, to).0;
            let (back, e) = app::Model { view: there, ..gone }.back();
            &&& back.history == m.history
            &&& e == asked(m.here())
            &&& back.forward.len() == 1
        }),
{
    assert(m.history.push(m.here()).drop_last() =~= m.history);
}

/// Going forward undoes going back, and the other way round.
pub proof fn law_forward_undoes_back(m: app::Model, there: app::Screen)
    requires
        m.history.len() > 0,
    ensures
        ({
            let gone = m.back().0;
            let (again, e) = app::Model { view: there, ..gone }.ahead();
            &&& e == asked(m.here())
            &&& again.forward == m.forward
            &&& again.history == m.history.drop_last().push(
                app::Model { view: there, ..gone }.here(),
            )
        }),
{
    assert(m.forward.push(m.here()).drop_last() =~= m.forward);
}

/// A file that is shown again stands where it was left.
pub proof fn law_file_comes_back_where_it_was(
    m: app::Model,
    r: reader::ReaderModel,
    path: Seq<char>,
    raw: Seq<char>,
    meta: Option<FileMeta>,
)
    requires
        m.view == app::Screen::Reader(r),
        r.origin == reader::OriginModel::File(path),
    ensures
        m.here().kind == app::KindModel::File(path),
        m.show_file(path, raw, meta, m.here().scroll).doc()->0.scroll == r.scroll,
{
}

/// A directory that is shown again has the same line selected, as long as there
/// is one.
pub proof fn law_directory_comes_back_where_it_was(
    m: app::Model,
    b: app::BrowserModel,
    items: Seq<browser::ItemView>,
)
    requires
        m.view == app::Screen::Browser(b),
        b.selected < browser::listing(b.dir, items).len(),
    ensures
        ({
            let h = m.here();
            let again = m.show_dir(b.dir, items, h.scroll, h.selected);
            again.view is Browser && again.view->Browser_0.selected == b.selected
                && again.view->Browser_0.scroll == b.scroll
        }),
{
}

/// A selection does not outlive the view that it was made in: going back, forward or
/// anywhere else drops it, and so does showing another file or directory.
pub proof fn law_selection_ends_with_its_view(
    m: app::Model,
    kind: app::KindModel,
    to: u16,
    path: Seq<char>,
    raw: Seq<char>,
    meta: Option<FileMeta>,
    items: Seq<browser::ItemView>,
    selected: Option<usize>,
)
    ensures
        m.navigate(kind, to).0.selection is None,
        m.history.len() > 0 ==> m.back().0.selection is None,
        m.forward.len() > 0 ==> m.ahead().0.selection is None,
        m.show_file(path, raw, meta, to).selection is None,
        m.show_dir(path, items, to, selected).selection is None,
{
}

/// A link with an anchor ends at the anchor: when the file that it leads to is first
/// rendered, the document scrolls to the heading with that slug.
pub proof fn law_file_link_ends_at_its_anchor(
    m: app::Model,
    path: Seq<char>,
    slug: Seq<char>,
    file: Seq<char>,
    raw: Seq<char>,
    meta: Option<FileMeta>,
    width: u16,
    hl: Highlighter,
)
    requires
        paths::is_markdown_path(file),
    ensures
        ({
            let (there, e) = m.found(path, Some(slug), Some((file, false)));
            let shown = there.show_file(file, raw, meta, 0);
            let r = shown.rendered_for(width, hl).doc()->0;
            let read = shown.ensured(width, hl);
            &&& e == (app::EffectModel::Load {
                kind: app::KindModel::File(file),
                scroll: 0,
                selected: None,
            })
            &&& r.rendered is Some
            &&& r.rendered->0.anchors.contains_key(slug) ==> read.doc() == Some(
                reader::ReaderModel {
                    scroll: actions::scroll_of(r.rendered->0.anchors[slug] as int),
                    ..r
                },
            )
            &&& read.pending_anchor is None
        }),
{
}

/// Going somewhere new forgets what lay ahead.
pub proof fn law_new_place_ends_forward(m: app::Model, kind: app::KindModel, to: u16)
    ensures
        m.navigate(kind, to).0.forward.len() == 0,
        m.navigate(kind, to).0.history == m.history.push(m.here()),
{
}

// ---------------------------------------------------------------------------
// Scrolling
// ---------------------------------------------------------------------------

/// Scrolling stays within the document, as long as its lines can be counted by
/// scroll positions.
pub proof fn law_scroll_stays_inside(m: app::Model, delta: int)
    requires
        m.doc() is Some,
        m.last_scroll(m.doc()->0) <= u16::MAX,
    ensures
        m.scrolled(delta).doc() is Some,
        m.scrolled(delta).doc()->0.scroll == app::clamped(
            m.doc()->0.scroll + delta,
            m.last_scroll(m.doc()->0),
        ),
        m.scrolled(delta).doc()->0.scroll <= m.last_scroll(m.doc()->0),
{
}

/// Scrolling down and up by the same amount changes nothing where no end is in
/// the way.
pub proof fn law_scroll_back_and_forth(m: app::Model, delta: int)
    requires
        m.doc() is Some,
        m.last_scroll(m.doc()->0) <= u16::MAX,
        m.doc()->0.scroll <= m.last_scroll(m.doc()->0),
        0 <= m.doc()->0.scroll + delta <= m.last_scroll(m.doc()->0),
    ensures
        m.scrolled(delta).scrolled(-delta).doc() == m.doc(),
{
}

/// Moving the selection of a list keeps it among the entries and on screen, as
/// long as those can be counted by scroll positions.
pub proof fn law_selection_stays_on_screen(m: app::Model, b: app::BrowserModel, delta: int)
    requires
        m.view == app::Screen::Browser(b),
        0 < b.entries.len() <= u16::MAX,
    ensures
        ({
            let after = m.scrolled(delta).view->Browser_0;
            &&& m.scrolled(delta).view is Browser
            &&& after.selected < b.entries.len()
            &&& after.scroll <= after.selected
            &&& after.selected < after.scroll + scroll::list_rows(m.viewport.height)
        }),
{
    let n = b.entries.len() as int;
    vstd::arithmetic::div_mod::lemma_mod_bound(b.selected + delta, n);
}

/// The selection of a list goes around: past the last entry comes the first, and
/// before the first the last.
pub proof fn law_selection_goes_around(m: app::Model, b: app::BrowserModel)
    requires
        m.view == app::Screen::Browser(b),
        0 < b.entries.len() <= usize::MAX,
    ensures
        b.selected == b.entries.len() - 1 ==> m.scrolled(1).view->Browser_0.selected == 0,
        b.selected == 0 ==> m.scrolled(-1).view->Browser_0.selected == b.entries.len() - 1,
{
    let n = b.entries.len() as int;
    if b.selected == n - 1 {
        vstd::arithmetic::div_mod::lemma_mod_self_0(n);
    }
    if b.selected == 0 {
        vstd::arithmetic::div_mod::lemma_mod_add_multiples_vanish(-1, n);
        vstd::arithmetic::div_mod::lemma_small_mod((n - 1) as nat, n as nat);
    }
}

// ---------------------------------------------------------------------------
// Focus
// ---------------------------------------------------------------------------

/// Stepping through the links and task markers visits them one after the other:
/// from one in the middle the next follows it.
pub proof fn law_focus_steps_to_neighbour(r: reader::ReaderModel, i: int)
    requires
        r.focus_index() == Some(i),
        0 <= i,
        i + 1 < r.focus_targets().len(),
    ensures
        r.focus_after(1) == i + 1,
{
    vstd::arithmetic::div_mod::lemma_small_mod(
        (i + 1) as nat,
        r.focus_targets().len(),
    );
}

// ---------------------------------------------------------------------------
// Selections
// ---------------------------------------------------------------------------

/// A selection covers the same text whichever way the mouse was dragged.
pub proof fn law_drag_direction_does_not_matter(r: reader::ReaderModel, s: Selection)
    ensures
        ({
            let turned = Selection {
                anchor_line: s.focus_line,
                anchor_col: s.focus_col,
                focus_line: s.anchor_line,
                focus_col: s.anchor_col,
                ..s
            };
            &&& turned.ordered() == s.ordered()
            &&& r.selected_text(turned) == r.selected_text(s)
        }),
{
}

/// A click without a drag is a click: pressing and releasing the button on one
/// cell does what a click there does.
pub proof fn law_press_and_release_is_a_click(m: app::Model, col: u16, row: u16, now: u64)
    requires
        !m.is_double(col, row, now),
        m.place_at(col, row) is Some,
    ensures
        ({
            let down = m.pressed(col, row, now).0;
            down.released() == (app::Model {
                last_click: Some((now, col, row)),
                pending_click: None,
                selection: None,
                ..m
            }).clicked(col, row)
        }),
{
}

/// A drag is no click: once the mouse has moved with the button down, releasing it
/// follows no link, whether or not there was text to copy.
pub proof fn law_drag_is_no_click(m: app::Model, col: u16, row: u16)
    requires
        m.selection is Some,
        !m.selection->0.dragged,
        m.place_at(col, row) is Some,
        m.place_at(col, row) != Some(m.selection->0.anchor()),
    ensures
        m.dragged(col, row).pending_click is None,
        m.dragged(col, row).released().1 is Copy || m.dragged(col, row).released().1 is Nothing,
{
}

// ---------------------------------------------------------------------------
// Links
// ---------------------------------------------------------------------------

/// What a hit test finds covers the place, and nothing before it in the list does.
pub proof fn law_hit_is_the_first_that_covers(
    all: Seq<links::LinkSpanView>,
    line: usize,
    col: usize,
)
    ensures
        match views::first_where(all, links::link_covers(line, col), 0) {
            Some(i) => {
                &&& 0 <= i < all.len()
                &&& all[i].line == line
                &&& all[i].col_start <= col < all[i].col_end
                &&& forall|j: int|
                    0 <= j < i ==> !((#[trigger] all[j]).line == line && all[j].col_start <= col
                        < all[j].col_end)
            },
            None => forall|j: int|
                0 <= j < all.len() ==> !((#[trigger] all[j]).line == line && all[j].col_start
                    <= col < all[j].col_end),
        },
{
    views::lemma_first_where(all, links::link_covers(line, col), 0);
    match views::first_where(all, links::link_covers(line, col), 0) {
        Some(i) => {
            assert(links::link_covers(line, col)(all[i]));
            assert forall|j: int| 0 <= j < i implies !((#[trigger] all[j]).line == line
                && all[j].col_start <= col < all[j].col_end) by {
                assert(!links::link_covers(line, col)(all[j]));
            }
        },
        None => {
            assert forall|j: int| 0 <= j < all.len() implies !((#[trigger] all[j]).line == line
                && all[j].col_start <= col < all[j].col_end) by {
                assert(!links::link_covers(line, col)(all[j]));
            }
        },
    }
}

/// Whether a text is ASCII.
pub open spec fn is_ascii(s: Seq<char>) -> bool {
    forall|i: int| 0 <= i < s.len() ==> #[trigger] s[i] <= '\u{7f}'
}

/// The letters and digits of an ASCII text in lower case.
pub open spec fn letters(s: Seq<char>) -> Seq<char> {
    s.filter(|c: char| text::ascii_alphanumeric(c)).map_values(|c: char| text::ascii_lower(c))
}

/// A text without its dashes.
pub open spec fn undashed(s: Seq<char>) -> Seq<char> {
    s.filter(|c: char| c != '-')
}

/// Whether a text is made of lower-case ASCII letters, digits and dashes, does not begin
/// with a dash and has no two in a row.
pub open spec fn is_dashed(s: Seq<char>) -> bool {
    &&& forall|i: int|
        0 <= i < s.len() ==> ('a' <= #[trigger] s[i] <= 'z' || '0' <= s[i] <= '9' || s[i] == '-')
    &&& s.len() > 0 ==> s[0] != '-'
    &&& forall|i: int, j: int|
        0 <= i && j == i + 1 && j < s.len() ==> !(#[trigger] s[i] == '-' && #[trigger] s[j] == '-')
}

proof fn lemma_filter_push(s: Seq<char>, c: char, keep: spec_fn(char) -> bool)
    ensures
        s.push(c).filter(keep) == if keep(c) {
            s.filter(keep).push(c)
        } else {
            s.filter(keep)
        },
{
    reveal(Seq::filter);
    assert(s.push(c).drop_last() =~= s);
}

proof fn lemma_slug_raw(s: Seq<char>)
    requires
        is_ascii(s),
    ensures
        ({
            let (t, d) = links::slug_raw(s);
            &&& is_dashed(t)
            &&& d == (t.len() > 0 && t.last() == '-')
            &&& undashed(t) == letters(s)
        }),
    decreases s.len(),
{
    let keep = |c: char| text::ascii_alphanumeric(c);
    let solid = |c: char| c != '-';
    let low = |c: char| text::ascii_lower(c);
    if s.len() == 0 {
        reveal(Seq::filter);
        assert(undashed(Seq::empty()) =~= letters(s));
    } else {
        let init = s.drop_last();
        let c = s.last();
        lemma_slug_raw(init);
        let (t, d) = links::slug_raw(init);
        assert(s =~= init.push(c));
        lemma_filter_push(init, c, keep);
        if text::alphanumeric(c) {
            let l = text::ascii_lower(c);
            assert(t + text::lowercase(c) =~= t.push(l));
            lemma_filter_push(t, l, solid);
            assert(letters(s) =~= letters(init).push(l));
        } else {
            lemma_filter_push(t, '-', solid);
        }
    }
}

/// A slug does not end in a dash.
pub proof fn law_slug_has_no_trailing_dash(s: Seq<char>)
    ensures
        links::slug(s).len() > 0 ==> links::slug(s).last() != '-',
{
    lemma_without_dashes(links::slug_raw(s).0);
}

proof fn lemma_without_dashes(s: Seq<char>)
    ensures
        links::without_dashes(s).len() > 0 ==> links::without_dashes(s).last() != '-',
        undashed(links::without_dashes(s)) == undashed(s),
        is_dashed(s) ==> is_dashed(links::without_dashes(s)),
    decreases s.len(),
{
    if s.len() > 0 && s.last() == '-' {
        lemma_without_dashes(s.drop_last());
        assert(s =~= s.drop_last().push('-'));
        lemma_filter_push(s.drop_last(), '-', |c: char| c != '-');
    }
}

proof fn lemma_slug_of_slug(t: Seq<char>)
    requires
        is_dashed(t),
    ensures
        links::slug_raw(t) == (t, t.len() > 0 && t.last() == '-'),
    decreases t.len(),
{
    if t.len() > 0 {
        let init = t.drop_last();
        let c = t.last();
        lemma_slug_of_slug(init);
        assert(c == '-' && init.len() > 0 ==> init.last() != '-') by {
            if init.len() > 0 {
                assert(t[t.len() - 2] == init.last());
            }
        }
        if c == '-' {
            assert(init.push('-') =~= t);
        } else {
            assert(init + text::lowercase(c) =~= t);
        }
    } else {
        assert(t =~= Seq::<char>::empty());
    }
}

/// The slug of an ASCII text is made of lower-case letters, digits and dashes. It neither
/// begins nor ends with a dash and has no two in a row. Without its dashes it is the
/// letters and digits of the text, in lower case and in their order. It is its own slug.
pub proof fn law_slug_is_clean(s: Seq<char>)
    requires
        is_ascii(s),
    ensures
        is_dashed(links::slug(s)),
        links::slug(s).len() > 0 ==> links::slug(s).last() != '-',
        undashed(links::slug(s)) == letters(s),
        links::slug(links::slug(s)) == links::slug(s),
{
    lemma_slug_raw(s);
    lemma_without_dashes(links::slug_raw(s).0);
    lemma_slug_of_slug(links::slug(s));
}

/// A link to a heading of the same document goes by the slug that the heading's
/// anchor has.
pub proof fn law_anchor_links_name_headings(title: Seq<char>, base: Option<Seq<char>>)
    ensures
        links::resolved("#"@ + title, base) == links::TargetView::Anchor(links::slug(title)),
{
    reveal_strlit("#");
    assert(("#"@ + title).skip(1) =~= title);
}

// ---------------------------------------------------------------------------
// Keys
// ---------------------------------------------------------------------------

/// Ctrl-C quits whatever is on screen.
pub proof fn law_ctrl_c_always_quits(m: app::Model, now: u64)
    ensures
        m.key(KeyInput { code: KeyCode::Char('c'), ctrl: true, alt: false }, now).0.should_quit,
{
}

/// While the help is open, a key closes it or does nothing.
pub proof fn law_help_takes_every_key(m: app::Model, k: KeyInput, now: u64)
    requires
        m.help_open,
        !k.is_ctrl('c'),
    ensures
        ({
            let (after, e) = m.key(k, now);
            &&& e is Nothing
            &&& after == (app::Model {
                mouse_recent: false,
                help_open: after.help_open,
                ..m
            })
        }),
{
}

/// A count stays below its limit however many digits are typed.
pub proof fn law_count_is_capped(m: app::Model, k: KeyInput)
    ensures
        m.count_typed(k) matches Some(n) ==> n <= keys::COUNT_LIMIT,
{
}

/// Turning mouse capture off and on again leaves it as it was.
pub proof fn law_mouse_toggles(m: app::Model)
    ensures
        m.mouse_toggled().0.mouse_toggled().0.mouse_enabled == m.mouse_enabled,
        m.mouse_toggled().1 == app::EffectModel::MouseCapture(!m.mouse_enabled),
{
}

} // verus!
