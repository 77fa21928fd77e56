//! Where following a link, an entry or a search result leads, and how panes go together.

use vstd::prelude::*;
use vstd::utf8::encode_utf8;
use crate::app;
use crate::app::{EffectModel, KindModel, Screen};
use crate::browser;
use crate::bytes;
use crate::keys::KeyCode;
use crate::laws_cursor;
use crate::laws_motion::plain;
use crate::links::TargetView;
use crate::markdown;
use crate::numbers;
use crate::paths;
use crate::pointer;
use crate::raw;
use crate::reader;
use crate::text;
use crate::theme;
use crate::vault;
use crate::views;

verus! {

// ---------------------------------------------------------------------------
// Links
// ---------------------------------------------------------------------------

/// A link within the document brings the line of the heading to the top of the screen and
/// leaves the document as it is; where there is no such heading, nothing moves.
pub proof fn law_anchor_link_shows_the_heading(
    m: app::Model,
    r: reader::ReaderModel,
    rd: markdown::RenderedView,
    slug: Seq<char>,
)
    requires
        m.view == Screen::Reader(r),
        r.rendered == Some(rd),
        rd.anchors.contains_key(slug) ==> rd.anchors[slug] <= u16::MAX,
    ensures
        ({
            let (a, e) = m.follow(TargetView::Anchor(slug));
            &&& e == EffectModel::Nothing
            &&& a.view is Reader
            &&& a.view->Reader_0.raw == r.raw
            &&& a.view->Reader_0.rendered == r.rendered
            &&& rd.anchors.contains_key(slug) ==> a.view->Reader_0.scroll == rd.anchors[slug]
            &&& !rd.anchors.contains_key(slug) ==> a.view->Reader_0.scroll == r.scroll
        }),
{
}

/// Whether a step leads to a new place: it is to be loaded from its start, the present place
/// can be come back to, and nothing lies ahead.
pub open spec fn goes_to(m: app::Model, after: (app::Model, EffectModel), kind: KindModel) -> bool {
    &&& after.1 == (EffectModel::Load { kind, scroll: 0, selected: None })
    &&& after.0.history == m.history.push(m.here())
    &&& after.0.forward.len() == 0
    &&& after.0.view == m.view
}

/// A web address is opened outside. A file link asks for its file. A directory or a markdown
/// file that was found is gone to, with the anchor in mind; anything else is opened outside.
pub proof fn law_link_leads_to_what_is_found(
    m: app::Model,
    path: Seq<char>,
    anchor: Seq<char>,
    hit: Seq<char>,
)
    ensures
        m.follow(TargetView::Url(path)).1 == EffectModel::OpenUrl(path),
        m.follow(TargetView::LocalFile(path)) == (
            m,
            EffectModel::FindFile { path, anchor: None },
        ),
        m.follow(TargetView::FileAnchor(path, anchor)) == (
            m,
            EffectModel::FindFile { path, anchor: Some(anchor) },
        ),
        goes_to(m, m.found(path, None, Some((hit, true))), KindModel::Directory(hit)),
        paths::is_markdown_path(hit) ==> goes_to(
            m,
            m.found(path, None, Some((hit, false))),
            KindModel::File(hit),
        ),
        paths::is_markdown_path(hit) ==> goes_to(
            m,
            m.found(path, Some(anchor), Some((hit, false))),
            KindModel::File(hit),
        ) && m.found(path, Some(anchor), Some((hit, false))).0.pending_anchor == Some(anchor),
        !paths::is_markdown_path(hit) ==> m.found(path, None, Some((hit, false))).1
            == EffectModel::OpenPath(hit),
        m.found(path, None, None).1 == EffectModel::Nothing,
        m.found(path, None, None).0.view == m.view,
{
}

/// Enter on an entry of a list goes to the directory or the file that the entry names.
pub proof fn law_entry_leads_to_its_path(m: app::Model, b: app::BrowserModel)
    requires
        m.view == Screen::Browser(b),
        b.selected < b.entries.len(),
    ensures
        ({
            let e = b.entries[b.selected as int];
            goes_to(
                m,
                m.selected_opened(),
                if e.kind is Markdown {
                    KindModel::File(e.path)
                } else {
                    KindModel::Directory(e.path)
                },
            )
        }),
{
}

/// Enter in the file search closes it and goes to the selected result.
pub proof fn law_result_leads_to_its_path(m: app::Model, s: app::SearchModel)
    requires
        s.selected < s.results.len(),
    ensures
        ({
            let r = s.results[s.selected as int];
            let after = m.search_key(s, plain(KeyCode::Enter));
            &&& after.0.search is None
            &&& r.is_dir ==> goes_to(m, after, KindModel::Directory(r.path))
            &&& !r.is_dir && paths::is_markdown_path(r.path) ==> goes_to(
                m,
                after,
                KindModel::File(r.path),
            )
            &&& !r.is_dir && !paths::is_markdown_path(r.path) ==> after.1 == EffectModel::OpenPath(
                r.path,
            )
        }),
{
}

/// A name without a dot stands for the note of that name: what a walk meets first of the
/// files called so, with or without `.md`.
pub proof fn law_wiki_link_finds_its_note(
    name: Seq<char>,
    items: Seq<browser::ItemView>,
    j: int,
)
    requires
        name.len() > 0,
        !name.contains('/'),
        !name.contains('.'),
        0 <= j < items.len(),
        items[j].is_file,
        items[j].name == name || items[j].name == name + seq!['.', 'm', 'd'],
        forall|i: int|
            0 <= i < j && (#[trigger] items[i]).is_file ==> items[i].name != name
                && items[i].name != name + seq!['.', 'm', 'd'],
    ensures
        vault::wanted(name) is Some,
        views::first_where(items, vault::is_wanted(vault::wanted(name)->0), 0) == Some(j),
{
    let n = name.len() as int;
    reveal_strlit(".md");
    reveal_strlit(".");
    reveal_strlit("..");
    assert(".md"@ =~= seq!['.', 'm', 'd']);
    assert(name.contains(name[n - 1]));
    assert(paths::trimmed(name, n) == n);
    assert forall|k: int| 0 <= k < n implies name[k] != '/' by {
        assert(name.contains(name[k]));
    }
    crate::laws_status::lemma_component_start(name, 0, n);
    assert(name.subrange(0, n) =~= name);
    assert(name != "."@) by {
        assert("."@.contains("."@[0]));
    }
    assert(name != ".."@) by {
        assert(".."@.contains(".."@[0]));
    }
    assert(paths::name_of(name) == Some(name));
    let f = vault::is_wanted(vault::wanted(name)->0);
    views::lemma_first_where(items, f, 0);
    assert(f(items[j]));
    let i = views::first_where(items, f, 0)->0;
    assert(f(items[i]));
}

// ---------------------------------------------------------------------------
// Panes
// ---------------------------------------------------------------------------

/// Whether blocks lie one below the other, in the order of the source.
pub open spec fn are_in_order(bs: Seq<markdown::BlockSpan>) -> bool {
    forall|i: int, j: int|
        0 <= i < j < bs.len() ==> (#[trigger] bs[i]).display_start < (
        #[trigger] bs[j]).display_start && bs[i].source_start < bs[j].source_start
}

/// The preview and the source go together: a byte of the source is found at the first row of
/// the block that holds it, and that row stands for the start of that block.
pub proof fn law_preview_and_source_agree(rd: markdown::RenderedView, k: int, src: usize)
    requires
        are_in_order(rd.blocks),
        0 <= k < rd.blocks.len(),
        rd.blocks[k].source_start <= src,
        k + 1 < rd.blocks.len() ==> src < rd.blocks[k + 1].source_start,
    ensures
        app::preview_row(rd, src) == rd.blocks[k].display_start,
        app::preview_source(rd, rd.blocks[k].display_start) == rd.blocks[k].source_start,
{
    let bs = rd.blocks;
    let n = bs.len() as int;
    let f = app::block_begins_by(src);
    views::lemma_last_where(bs, f, n);
    assert(f(bs[k]));
    let i = views::last_where(bs, f, n)->0;
    assert(f(bs[i]));
    if i > k {
        assert(bs[k + 1].source_start <= bs[i].source_start);
    } else if i < k {
        assert(!f(bs[k]));
    }
    let g = app::block_shown_by(bs[k].display_start);
    views::lemma_last_where(bs, g, n);
    assert(g(bs[k]));
    let j = views::last_where(bs, g, n)->0;
    assert(g(bs[j]));
    if j > k {
        assert(bs[k].display_start < bs[j].display_start);
    } else if j < k {
        assert(!g(bs[k]));
    }
}

proof fn lemma_col_index(t: Seq<char>, i: int, k: int)
    requires
        0 <= i <= k <= t.len(),
        forall|x: int| 0 <= x < t.len() ==> text::cols(#[trigger] t[x]) == 1,
    ensures
        bytes::col_index(t, i, i, k) == k,
    decreases k - i,
{
    if i < k {
        lemma_col_index(t, i + 1, k);
    }
}

/// A click on a row that shows source characters `a..b` meets the character that is drawn
/// there, where each takes one column.
pub proof fn law_source_click_meets_its_character(
    rd: markdown::RenderedView,
    source: Seq<char>,
    line: usize,
    a: int,
    b: int,
    col: usize,
)
    requires
        0 <= a <= b <= source.len(),
        col <= b - a,
        line < rd.row_source.len(),
        rd.row_source[line as int] matches Some((from, to)) && from == encode_utf8(
            source.take(a),
        ).len() && to == encode_utf8(source.take(b)).len(),
        forall|x: int| a <= x < b ==> text::cols(#[trigger] source[x]) == 1,
    ensures
        pointer::source_at(rd, source, line, col) == Some(
            encode_utf8(source.take(a + col)).len() as int,
        ),
{
    bytes::lemma_floor_of_pos(source, a);
    bytes::lemma_floor_of_pos(source, b);
    bytes::lemma_byte_pos_monotone(source, a, b);
    let part = source.subrange(a, b);
    assert forall|x: int| 0 <= x < part.len() implies text::cols(#[trigger] part[x]) == 1 by {
        assert(part[x] == source[a + x]);
    }
    lemma_col_index(part, 0, col as int);
}

/// The cursor of the source pane is drawn on the cell of the character that it stands
/// before, and a click on that cell leads there. The row is one of characters of one column
/// each.
pub proof fn law_source_cursor_is_drawn_at_its_character(
    rows: Seq<raw::RawRowView>,
    k: int,
    c: int,
    src: usize,
    scroll: u16,
    area: app::Rect,
)
    requires
        0 <= k < rows.len() <= usize::MAX,
        forall|i: int, j: int|
            0 <= i < j < rows.len() ==> (#[trigger] rows[i]).start < (#[trigger] rows[j]).start,
        0 <= rows[k].start,
        0 <= c <= rows[k].text.len(),
        rows[k].start + encode_utf8(rows[k].text).len() <= usize::MAX,
        forall|x: int|
            0 <= x < rows[k].text.len() ==> text::cols(#[trigger] rows[k].text[x]) == 1,
        src == rows[k].start + encode_utf8(rows[k].text.take(c)).len(),
        k + 1 < rows.len() ==> src < rows[k + 1].start,
        scroll <= k < scroll + area.height,
        c < area.width,
        area.x + area.width <= u16::MAX,
        area.y + area.height <= u16::MAX,
    ensures
        raw::cell_of_cursor(rows, src, scroll, area) == Some(
            ((area.x + c) as u16, (area.y + (k - scroll)) as u16),
        ),
        raw::clicked(rows, k as usize, c as usize) == src,
{
    let n = rows.len() as int;
    let f = raw::row_begins_by(src);
    views::lemma_last_where(rows, f, n);
    assert(f(rows[k]));
    let i = views::last_where(rows, f, n)->0;
    assert(f(rows[i]));
    if i > k {
        assert(rows[k + 1].start <= rows[i].start);
    } else if i < k {
        assert(!f(rows[k]));
    }
    bytes::lemma_byte_pos_ends(rows[k].text);
    bytes::lemma_byte_pos_monotone(rows[k].text, 0, rows[k].text.len() as int);
    laws_cursor::law_click_finds_the_character(rows[k], c);
    assert(raw::clicked(rows, k as usize, c as usize) == raw::clicked(
        seq![rows[k]],
        0,
        c as usize,
    ));
}

// ---------------------------------------------------------------------------
// The terminal's background
// ---------------------------------------------------------------------------

proof fn lemma_last_field(a: Seq<char>, d: Seq<char>)
    requires
        a.len() == 0 || a.last() == ';',
        !d.contains(';'),
    ensures
        theme::last_field(a + d) == d,
    decreases d.len(),
{
    if d.len() == 0 {
        assert(a + d =~= a);
        assert(d =~= Seq::<char>::empty());
    } else {
        let init = d.drop_last();
        assert(d.contains(d[d.len() - 1]));
        assert(!init.contains(';')) by {
            if init.contains(';') {
                let k = choose|k: int| 0 <= k < init.len() && init[k] == ';';
                assert(d[k] == ';');
            }
        }
        lemma_last_field(a, init);
        assert((a + d).drop_last() =~= a + init);
        assert(init.push(d.last()) =~= d);
    }
}

/// The background is the last number of the variable, and is light from seven on.
pub proof fn law_background_is_the_last_number(front: Seq<char>, n: nat)
    requires
        n <= 255,
    ensures
        theme::light_background(Some(front + seq![';'] + text::decimal(n))) == (n >= 7),
        theme::light_background(Some(text::decimal(n))) == (n >= 7),
        !theme::light_background(None),
{
    let d = text::decimal(n);
    numbers::law_decimal_round_trip(n);
    assert(!d.contains(';')) by {
        if d.contains(';') {
            let k = choose|k: int| 0 <= k < d.len() && d[k] == ';';
            assert(numbers::is_digit(d[k]));
        }
    }
    let a = front + seq![';'];
    lemma_last_field(a, d);
    let none = Seq::<char>::empty();
    lemma_last_field(none, d);
    assert(none + d =~= d);
}

// ---------------------------------------------------------------------------
// The list of results
// ---------------------------------------------------------------------------

/// In the file search the arrows select the next result and the one before, around the ends,
/// and leave the query and the results as they are.
pub proof fn law_arrows_select_results(m: app::Model, s: app::SearchModel)
    requires
        s.selected < s.results.len() <= usize::MAX,
    ensures
        ({
            let n = s.results.len() as int;
            let down = m.search_key(s, plain(KeyCode::Down)).0.search;
            let up = m.search_key(s, plain(KeyCode::Up)).0.search;
            &&& down is Some && up is Some
            &&& down->0.results == s.results && up->0.results == s.results
            &&& down->0.query == s.query && up->0.query == s.query
            &&& down->0.selected == (if s.selected + 1 < n {
                s.selected + 1
            } else {
                0
            })
            &&& up->0.selected == (if s.selected > 0 {
                s.selected - 1
            } else {
                n - 1
            })
        }),
{
    let n = s.results.len() as int;
    if s.selected + 1 < n {
        vstd::arithmetic::div_mod::lemma_small_mod((s.selected + 1) as nat, n as nat);
    } else {
        vstd::arithmetic::div_mod::lemma_mod_self_0(n);
    }
    if s.selected > 0 {
        vstd::arithmetic::div_mod::lemma_small_mod((s.selected - 1) as nat, n as nat);
    } else {
        vstd::arithmetic::div_mod::lemma_mod_add_multiples_vanish(-1, n);
        vstd::arithmetic::div_mod::lemma_small_mod((n - 1) as nat, n as nat);
    }
}

/// Typing in the file search puts a character behind the query, and Backspace takes the last
/// one off.
pub proof fn law_query_is_what_is_typed(m: app::Model, s: app::SearchModel, c: char)
    ensures
        ({
            let typed = m.search_key(s, plain(KeyCode::Char(c))).0.search;
            let back = m.search_key(s, plain(KeyCode::Backspace)).0.search;
            &&& typed matches Some(t) && t.query == s.query.push(c)
            &&& back matches Some(b) && (s.query.len() > 0 ==> b.query == s.query.drop_last())
        }),
{
}

} // verus!
