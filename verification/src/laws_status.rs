//! What stands around a document: the status line, the diff, images and listings.

use vstd::prelude::*;
use crate::app;
use crate::browser;
use crate::frame;
use crate::laws_shown::{lemma_shown_concat, lemma_shown_push, shown};
use crate::links::TargetView;
use crate::markdown;
use crate::panels;
use crate::paths;
use crate::reader;
use crate::search;
use crate::style;
use crate::text;
use crate::theme::Theme;

verus! {

// ---------------------------------------------------------------------------
// The status line
// ---------------------------------------------------------------------------

/// The position in a document that does not fit the screen is a percentage: 0 at its start,
/// 100 where its end is on screen, and in between the part of the way, rounded down.
pub proof fn law_position_is_a_percentage(m: app::Model, r: reader::ReaderModel, last: int)
    requires
        m.view == app::Screen::Reader(r),
        last == r.total() - m.viewport.height,
        0 < last,
        r.scroll <= last,
    ensures
        exists|percent: nat|
            {
                &&& m.position_words() == #[trigger] text::decimal(percent) + seq!['%']
                &&& percent * last <= r.scroll * 100 < (percent + 1) * last
                &&& r.scroll == 0 ==> percent == 0
                &&& r.scroll == last ==> percent == 100
                &&& percent <= 100
            },
{
    let x = r.scroll * 100;
    let q = x / last;
    vstd::arithmetic::div_mod::lemma_fundamental_div_mod(x, last);
    vstd::arithmetic::div_mod::lemma_mod_bound(x, last);
    assert(last * q == q * last) by (nonlinear_arith);
    assert((q + 1) * last == q * last + last) by (nonlinear_arith);
    assert(0 <= q <= 100) by (nonlinear_arith)
        requires
            q * last <= x < q * last + last,
            0 <= x <= 100 * last,
            last > 0,
    ;
    if r.scroll == last {
        assert(q == 100) by (nonlinear_arith)
            requires
                q * last <= x < q * last + last,
                x == 100 * last,
                last > 0,
        ;
    }
    if r.scroll == 0 {
        assert(q == 0) by (nonlinear_arith)
            requires
                q * last <= x < q * last + last,
                x == 0,
                q >= 0,
                last > 0,
        ;
    }
    reveal_strlit("%");
    assert("%"@ =~= seq!['%']);
    assert(m.position_words() == text::decimal(q as nat) + seq!['%']);
}

/// A document that fits the screen is all there.
pub proof fn law_short_document_is_all_there(m: app::Model, r: reader::ReaderModel)
    requires
        m.view == app::Screen::Reader(r),
        r.total() <= m.viewport.height,
    ensures
        m.position_words() == seq!['A', 'l', 'l'],
{
    reveal_strlit("All");
    assert("All"@ =~= seq!['A', 'l', 'l']);
}

/// The status line ends with the position. It shows the path as well, unless the target of
/// a link takes its place.
pub proof fn law_status_line_shows_path_and_position(
    m: app::Model,
    width: u16,
    home: Option<Seq<char>>,
)
    ensures
        exists|front: Seq<char>|
            {
                let t = shown(m.status_spans(width, home));
                &&& t == #[trigger] (front + seq![' '] + m.position_words() + seq![' '])
                &&& !(m.edge_swap() is Left) ==> exists|a: Seq<char>, b: Seq<char>|
                    front == #[trigger] (a + m.path_words(home) + b)
            },
{
    let right = m.right_span();
    let end = seq![' '] + m.position_words() + seq![' '];
    reveal_strlit(" ");
    assert(" "@ =~= seq![' ']);
    assert(right.content == end);
    let all = m.status_spans(width, home);
    let init = all.drop_last();
    assert(all.last() == right);
    lemma_shown_push(init, right);
    assert(init.push(right) =~= all);
    let front = shown(init);
    assert(front + end =~= front + seq![' '] + m.position_words() + seq![' ']);
    if !(m.edge_swap() is Left) {
        let left = m.left_spans(home);
        let name = left.last();
        let before = left.drop_last();
        lemma_shown_push(before, name);
        assert(before.push(name) =~= left);
        let rest = init.skip(left.len() as int);
        assert(left + rest =~= init);
        lemma_shown_concat(left, rest);
        assert(name.content == m.path_words(home));
        assert(front == shown(before) + m.path_words(home) + shown(rest));
    }
}

// ---------------------------------------------------------------------------
// The diff
// ---------------------------------------------------------------------------

/// The rows of a diff are shown from the scroll position on, as far as there are rows and
/// lines, each with its text, and additions look different from removals.
pub proof fn law_lens_shows_the_rows(g: app::LensModel, height: u16, theme: Theme)
    requires
        g.scroll <= g.rows.len(),
    ensures
        ({
            let ls = panels::lens_spans(g, height, theme);
            let left = g.rows.len() - g.scroll;
            &&& ls.len() == (if left < height {
                left
            } else {
                height as int
            })
            &&& forall|i: int|
                0 <= i < ls.len() ==> shown(#[trigger] ls[i]) == g.rows[g.scroll + i].1
            &&& forall|i: int, j: int|
                0 <= i < ls.len() && 0 <= j < ls.len() && g.rows[g.scroll + i].0 is Added
                    && g.rows[g.scroll + j].0 is Removed ==> (#[trigger] ls[i])[0].style != (
                #[trigger] ls[j])[0].style
        }),
{
    let ls = panels::lens_spans(g, height, theme);
    assert forall|i: int| 0 <= i < ls.len() implies shown(#[trigger] ls[i]) == g.rows[g.scroll
        + i].1 by {
        let t = g.rows[g.scroll + i].1;
        assert(ls[i].map_values(|s: style::SpanView| s.content) =~= seq![t]);
        seq![t].lemma_flatten_one_element();
    }
}

// ---------------------------------------------------------------------------
// Images
// ---------------------------------------------------------------------------

/// An image is drawn on the row of its line, if that is on screen, and stays within the
/// body.
pub proof fn law_image_stands_at_its_line(line: usize, scroll: u16, body: app::Rect)
    requires
        body.y + body.height <= u16::MAX,
    ensures
        match frame::image_area(line, scroll, body) {
            Some(a) => {
                &&& scroll <= line < scroll + body.height
                &&& a.y == body.y + (line - scroll)
                &&& a.x == body.x
                &&& a.width <= body.width
                &&& a.height > 0
                &&& a.y + a.height <= body.y + body.height
            },
            None => !(scroll <= line < scroll + body.height),
        },
{
}

// ---------------------------------------------------------------------------
// Listings
// ---------------------------------------------------------------------------

/// Whether a text is lower-case letters.
pub open spec fn is_lower(t: Seq<char>) -> bool {
    forall|k: int| 0 <= k < t.len() ==> 'a' <= #[trigger] t[k] <= 'z'
}

pub proof fn lemma_component_start(p: Seq<char>, d: int, n: int)
    requires
        0 <= d <= n <= p.len(),
        d == 0 || p[d - 1] == '/',
        forall|k: int| d <= k < n ==> p[k] != '/',
    ensures
        paths::component_start(p, n) == d,
    decreases n,
{
    if n > d {
        lemma_component_start(p, d, n - 1);
    }
}

proof fn lemma_extension(name: Seq<char>, s: int, i: int)
    requires
        0 < s <= i < name.len(),
        name[s] == '.',
        forall|k: int| s < k <= i ==> name[k] != '.',
    ensures
        paths::extension_from(name, i) == Some(name.skip(s + 1)),
    decreases i,
{
    if i > s {
        lemma_extension(name, s, i - 1);
    }
}

proof fn lemma_lower(t: Seq<char>)
    requires
        is_lower(t),
    ensures
        text::lower_text(t) == t,
    decreases t.len(),
{
    if t.len() > 0 {
        let init = t.drop_last();
        assert forall|k: int| 0 <= k < init.len() implies 'a' <= #[trigger] init[k] <= 'z' by {
            assert(init[k] == t[k]);
        }
        lemma_lower(init);
        assert('a' <= t[t.len() - 1] <= 'z');
    }
    assert(text::lower_text(t) =~= t);
}

/// A file is taken for markdown by its extension: `md`, `markdown`, `mdown` or `mkd`, and no
/// other in lower case.
pub proof fn law_markdown_is_known_by_its_extension(
    dir: Seq<char>,
    stem: Seq<char>,
    ext: Seq<char>,
)
    requires
        dir.len() == 0 || dir.last() == '/',
        stem.len() > 0,
        !stem.contains('/'),
        ext.len() > 0,
        is_lower(ext),
    ensures
        paths::is_markdown_path(dir + stem + seq!['.'] + ext) == (ext == seq!['m', 'd'] || ext
            == seq!['m', 'a', 'r', 'k', 'd', 'o', 'w', 'n'] || ext == seq![
            'm',
            'd',
            'o',
            'w',
            'n',
        ] || ext == seq!['m', 'k', 'd']),
{
    let name = stem + seq!['.'] + ext;
    let p = dir + stem + seq!['.'] + ext;
    let d = dir.len() as int;
    let n = p.len() as int;
    let s = stem.len() as int;
    assert(p =~= dir + name);
    assert('a' <= ext[ext.len() - 1] <= 'z');
    assert(p[n - 1] == ext[ext.len() - 1]);
    assert(paths::trimmed(p, n) == n);
    assert forall|k: int| d <= k < n implies p[k] != '/' by {
        if k < d + s {
            assert(p[k] == stem[k - d]);
            assert(stem.contains(stem[k - d]));
        } else if k > d + s {
            assert(p[k] == ext[k - d - s - 1]);
        }
    }
    if d > 0 {
        assert(p[d - 1] == dir.last());
    }
    lemma_component_start(p, d, n);
    assert(p.subrange(d, n) =~= name);
    reveal_strlit("..");
    reveal_strlit(".");
    assert(name.last() == ext[ext.len() - 1]);
    assert(paths::name_of(p) == Some(name));
    assert forall|k: int| s < k < name.len() implies name[k] != '.' by {
        assert(name[k] == ext[k - s - 1]);
    }
    lemma_extension(name, s, name.len() - 1);
    assert(name.skip(s + 1) =~= ext);
    lemma_lower(ext);
    reveal_strlit("md");
    reveal_strlit("markdown");
    reveal_strlit("mdown");
    reveal_strlit("mkd");
    assert("md"@ =~= seq!['m', 'd']);
    assert("markdown"@ =~= seq!['m', 'a', 'r', 'k', 'd', 'o', 'w', 'n']);
    assert("mdown"@ =~= seq!['m', 'd', 'o', 'w', 'n']);
    assert("mkd"@ =~= seq!['m', 'k', 'd']);
}

/// A listing holds every directory, with a slash behind its name, and every markdown file,
/// under its name, and whatever it holds beside the way up is one of those.
pub proof fn law_listing_holds_what_can_be_opened(dir: Seq<char>, items: Seq<browser::ItemView>)
    requires
        items.len() <= usize::MAX,
    ensures
        ({
            let l = browser::listing(dir, items);
            &&& forall|j: int|
                0 <= j < items.len() && (#[trigger] items[j]).is_dir ==> exists|i: int|
                    {
                        &&& 0 <= i < l.len()
                        &&& (#[trigger] l[i]).path == items[j].path
                        &&& l[i].display == items[j].name + seq!['/']
                        &&& l[i].kind is Dir
                    }
            &&& forall|j: int|
                0 <= j < items.len() && !(#[trigger] items[j]).is_dir && items[j].is_file
                    && paths::is_markdown_path(items[j].path) ==> exists|i: int|
                    {
                        &&& 0 <= i < l.len()
                        &&& (#[trigger] l[i]).path == items[j].path
                        &&& l[i].display == items[j].name
                        &&& l[i].kind is Markdown
                    }
            &&& forall|i: int|
                0 <= i < l.len() && !((#[trigger] l[i]).kind is ParentDir) ==> exists|j: int|
                    {
                        &&& 0 <= j < items.len()
                        &&& (#[trigger] items[j]).path == l[i].path
                        &&& items[j].is_dir || (items[j].is_file && paths::is_markdown_path(
                            items[j].path,
                        ))
                    }
        }),
{
    browser::law_listing_shows_directories_and_markdown(dir, items);
    let l = browser::listing(dir, items);
    assert forall|j: int| 0 <= j < items.len() && (#[trigger] items[j]).is_dir implies exists|
        i: int,
    |
        {
            &&& 0 <= i < l.len()
            &&& (#[trigger] l[i]).path == items[j].path
            &&& l[i].display == items[j].name + seq!['/']
            &&& l[i].kind is Dir
        } by {
        assert(browser::is_listed(items[j], true));
        let e = browser::entry_of(items[j], true);
        let i = l.index_of(e);
        assert(l[i] == e);
        assert(items[j].name.push('/') =~= items[j].name + seq!['/']);
    }
    assert forall|j: int|
        0 <= j < items.len() && !(#[trigger] items[j]).is_dir && items[j].is_file
            && paths::is_markdown_path(items[j].path) implies exists|i: int|
        {
            &&& 0 <= i < l.len()
            &&& (#[trigger] l[i]).path == items[j].path
            &&& l[i].display == items[j].name
            &&& l[i].kind is Markdown
        } by {
        assert(browser::is_listed(items[j], false));
        let e = browser::entry_of(items[j], false);
        let i = l.index_of(e);
        assert(l[i] == e);
    }
    assert forall|i: int| 0 <= i < l.len() && !((#[trigger] l[i]).kind is ParentDir) implies exists|
        j: int,
    |
        {
            &&& 0 <= j < items.len()
            &&& (#[trigger] items[j]).path == l[i].path
            &&& items[j].is_dir || (items[j].is_file && paths::is_markdown_path(items[j].path))
        } by {
        let dirs = l[i].kind is Dir;
        assert(browser::stands_for(l[i], items, dirs));
        let j = choose|j: int|
            0 <= j < items.len() && browser::is_listed(#[trigger] items[j], dirs) && l[i]
                == browser::entry_of(items[j], dirs);
        assert(items[j].path == l[i].path);
    }
}

// ---------------------------------------------------------------------------
// What is told
// ---------------------------------------------------------------------------

/// The status line tells where the link under the mouse leads, and else where the focused
/// one does.
pub proof fn law_status_tells_the_link(
    m: app::Model,
    r: reader::ReaderModel,
    rd: markdown::RenderedView,
    i: usize,
)
    requires
        m.view == app::Screen::Reader(r),
        r.edit is None,
        r.doc_search is None,
        r.rendered == Some(rd),
        i < rd.links.len(),
        r.hover_link == Some(i) || (r.hover_link is None && r.focus == Some(
            reader::Focus::Link(i),
        )),
    ensures
        m.middle().words() == match rd.links[i as int].target {
            TargetView::Url(u) => u,
            TargetView::LocalFile(p) => p,
            TargetView::Anchor(a) => seq!['#'] + a,
            TargetView::FileAnchor(p, a) => p + seq!['#'] + a,
        },
{
    reveal_strlit("#");
    assert("#"@ =~= seq!['#']);
}

/// The status line tells the query of the search in the document, which match it is at and
/// how many there are.
pub proof fn law_status_tells_the_match(
    m: app::Model,
    r: reader::ReaderModel,
    s: reader::DocSearchModel,
)
    requires
        m.view == app::Screen::Reader(r),
        r.edit is None,
        r.doc_search == Some(s),
        !s.editing,
        s.current < s.matches.len() <= usize::MAX,
    ensures
        m.middle().words() == seq!['/'] + s.query + seq![' ', ' ', '['] + text::decimal(
            (s.current + 1) as nat,
        ) + seq!['/'] + text::decimal(s.matches.len()) + seq![']'],
{
    reveal_strlit("/");
    reveal_strlit("  [");
    reveal_strlit("]");
    assert("/"@ =~= seq!['/']);
    assert("  ["@ =~= seq![' ', ' ', '[']);
    assert("]"@ =~= seq![']']);
}

/// An entry of a list shows its name, with a badge if it is unread and not the way up; a
/// result of the file search shows its path, with a slash if it is a directory.
pub proof fn law_lists_show_names(
    e: browser::EntryView,
    unread: bool,
    x: search::ResultView,
    theme: Theme,
)
    ensures
        shown(panels::entry_spans(e, unread, theme)) == if unread && !(e.kind is ParentDir) {
            e.display + " [unread]"@
        } else {
            e.display
        },
        panels::result_span(x, theme).content == if x.is_dir {
            x.display + seq!['/']
        } else {
            x.display
        },
{
    let name = style::span(e.display, panels::entry_look(e.kind, theme));
    let none = Seq::<style::SpanView>::empty();
    lemma_shown_push(none, name);
    assert(none.push(name) =~= seq![name]);
    assert(shown(none) =~= Seq::<char>::empty());
    assert(Seq::<char>::empty() + e.display =~= e.display);
    let badge = panels::entry_spans(e, true, theme);
    if unread && !(e.kind is ParentDir) {
        lemma_shown_push(seq![name], badge.last());
    }
    reveal_strlit("/");
    assert("/"@ =~= seq!['/']);
}

/// A file counts as read once its last line is on screen, and not while it is edited.
pub proof fn law_file_is_read_at_its_end(m: app::Model, r: reader::ReaderModel, path: Seq<char>)
    requires
        m.view == app::Screen::Reader(r),
        r.origin == reader::OriginModel::File(path),
        r.rendered is Some,
        r.total() > 0,
    ensures
        (m.finished() == Some(path)) == (r.edit is None && r.total() - 1 < r.scroll
            + m.viewport.height),
        m.finished() is Some ==> m.finished() == Some(path),
{
}

/// The width that a document is rendered for: that of the screen without the column of the
/// scrollbar, or the one that was asked for where that is smaller.
pub proof fn law_document_fits_the_screen(m: app::Model, width: u16)
    ensures
        m.render_width(width) <= width,
        m.opts.width == 0 ==> m.render_width(width) == width,
        0 < m.opts.width <= width ==> m.render_width(width) == m.opts.width,
        m.opts.width > width ==> m.render_width(width) == width,
{
}

} // verus!
