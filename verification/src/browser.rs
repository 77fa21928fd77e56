//! The directory browser: one level of directories and markdown files.

use vstd::prelude::*;
use crate::order;
use crate::order::{sort_order, Key};
use crate::paths;
use crate::paths::is_markdown_file;
use crate::text;
use crate::text::{same_text, to_chars, to_lower};
use crate::views;

verus! {

broadcast use crate::views::group_views;

/// What an entry of the browser leads to.
#[derive(Clone, Copy, Debug, PartialEq, Eq, Structural)]
pub enum BrowserEntryKind {
    ParentDir,
    Dir,
    Markdown,
}

/// One line of the browser.
#[derive(Debug)]
pub struct BrowserEntry {
    pub path: String,
    pub display: String,
    pub kind: BrowserEntryKind,
}

/// What a [`BrowserEntry`] holds.
pub struct EntryView {
    pub path: Seq<char>,
    pub display: Seq<char>,
    pub kind: BrowserEntryKind,
}

impl View for BrowserEntry {
    type V = EntryView;

    open spec fn view(&self) -> EntryView {
        EntryView { path: self.path@, display: self.display@, kind: self.kind }
    }
}

impl Clone for BrowserEntry {
    fn clone(&self) -> (r: BrowserEntry)
        ensures
            r@ == self@,
    {
        BrowserEntry { path: self.path.clone(), display: self.display.clone(), kind: self.kind }
    }
}

/// What a directory holds, before it is filtered and sorted.
#[derive(Debug)]
pub struct DirItem {
    pub name: String,
    pub path: String,
    pub is_dir: bool,
    pub is_file: bool,
}

/// What a [`DirItem`] says.
pub struct ItemView {
    pub name: Seq<char>,
    pub path: Seq<char>,
    pub is_dir: bool,
    pub is_file: bool,
}

impl View for DirItem {
    type V = ItemView;

    open spec fn view(&self) -> ItemView {
        ItemView {
            name: self.name@,
            path: self.path@,
            is_dir: self.is_dir,
            is_file: self.is_file,
        }
    }
}

/// Whether an item is listed among the directories, or among the files.
pub open spec fn is_listed(x: ItemView, dirs: bool) -> bool {
    if dirs {
        x.is_dir
    } else {
        !x.is_dir && x.is_file && paths::is_markdown_path(x.path)
    }
}

/// The listed ones of the first `n` items.
pub open spec fn listed(items: Seq<ItemView>, dirs: bool, n: int) -> Seq<ItemView>
    decreases n,
{
    if n <= 0 {
        Seq::empty()
    } else if is_listed(items[n - 1], dirs) {
        listed(items, dirs, n - 1).push(items[n - 1])
    } else {
        listed(items, dirs, n - 1)
    }
}

/// The key that items are sorted by: their name in lower case.
pub open spec fn name_keys(items: Seq<ItemView>) -> Seq<order::KeyView> {
    Seq::new(
        items.len(),
        |i: int| order::KeyView { major: 0, minor: 0, text: text::lower_text(items[i].name) },
    )
}

/// The browser entry of an item.
pub open spec fn entry_of(x: ItemView, dirs: bool) -> EntryView {
    EntryView {
        path: x.path,
        display: if dirs {
            x.name.push('/')
        } else {
            x.name
        },
        kind: if dirs {
            BrowserEntryKind::Dir
        } else {
            BrowserEntryKind::Markdown
        },
    }
}

/// The entries of the directories, or of the markdown files, among `items`,
/// sorted without regard to case.
pub open spec fn sorted_entries(items: Seq<ItemView>, dirs: bool) -> Seq<EntryView> {
    let l = listed(items, dirs, items.len() as int);
    let p = order::order(name_keys(l));
    Seq::new(p.len(), |i: int| entry_of(l[p[i] as int], dirs))
}

/// The entries of a directory's items: directories first, then markdown files.
pub open spec fn children(items: Seq<ItemView>) -> Seq<EntryView> {
    sorted_entries(items, true) + sorted_entries(items, false)
}

/// The listing of a directory: its parent, if it has one, then its children.
pub open spec fn listing(dir: Seq<char>, items: Seq<ItemView>) -> Seq<EntryView> {
    match paths::parent_of(dir) {
        Some(p) if p != dir => seq![
            EntryView { path: p, display: "../"@, kind: BrowserEntryKind::ParentDir },
        ] + children(items),
        _ => children(items),
    }
}

pub open spec fn is_real() -> spec_fn(EntryView) -> bool {
    |e: EntryView| !(e.kind is ParentDir)
}

pub open spec fn has_path(p: Seq<char>) -> spec_fn(EntryView) -> bool {
    |e: EntryView| e.path == p
}

/// The first entry that is not the parent directory, or the first.
pub open spec fn first_real(entries: Seq<EntryView>) -> int {
    match views::first_where(entries, is_real(), 0) {
        Some(i) => i,
        None => 0,
    }
}

/// The entry selected in a new listing: the one with the path selected before,
/// otherwise the first that is not the parent directory.
pub open spec fn reselected(entries: Seq<EntryView>, before: Option<Seq<char>>) -> int {
    match before {
        Some(p) => match views::first_where(entries, has_path(p), 0) {
            Some(i) => i,
            None => first_real(entries),
        },
        None => first_real(entries),
    }
}

fn to_entry(x: &DirItem, dirs: bool) -> (r: BrowserEntry)
    ensures
        r@ == entry_of(x@, dirs),
{
    let mut display = x.name.clone();
    if dirs {
        display.push('/');
    }
    BrowserEntry {
        path: x.path.clone(),
        display,
        kind: if dirs {
            BrowserEntryKind::Dir
        } else {
            BrowserEntryKind::Markdown
        },
    }
}

/// Appends the sorted entries of the directories, or of the markdown files.
fn push_sorted(items: &[DirItem], dirs: bool, out: &mut Vec<BrowserEntry>)
    ensures
        views::views(final(out)@) == views::views(old(out)@) + sorted_entries(
            views::views(items@),
            dirs,
        ),
{
    let ghost iv = views::views(items@);
    let ghost l = listed(iv, dirs, iv.len() as int);
    let mut keys: Vec<Key> = Vec::new();
    let mut picked: Vec<usize> = Vec::new();
    let mut i: usize = 0;
    while i < items.len()
        invariant
            iv == views::views(items@),
            i <= items@.len(),
            picked@.len() == keys@.len(),
            listed(iv, dirs, i as int).len() == picked@.len(),
            views::views(keys@) == name_keys(listed(iv, dirs, i as int)),
            forall|j: int|
                0 <= j < picked@.len() ==> (#[trigger] picked@[j]) < items@.len() && iv[picked@[j] as int]
                    == listed(iv, dirs, i as int)[j],
        decreases items@.len() - i,
    {
        let x = &items[i];
        let take = if dirs {
            x.is_dir
        } else {
            !x.is_dir && x.is_file && is_markdown_file(&x.path)
        };
        let ghost before = listed(iv, dirs, i as int);
        if take {
            let low = to_lower(&x.name);
            keys.push(Key { major: 0, minor: 0, text: to_chars(&low) });
            picked.push(i);
            assert(views::views(keys@) =~= name_keys(before.push(iv[i as int])));
        }
        i = i + 1;
    }
    let p = sort_order(&keys);
    let ghost pv = order::order(name_keys(l));
    let ghost start = views::views(out@);
    let ghost all = sorted_entries(iv, dirs);
    let mut k: usize = 0;
    while k < p.len()
        invariant
            iv == views::views(items@),
            l == listed(iv, dirs, iv.len() as int),
            pv == order::order(name_keys(l)),
            all == sorted_entries(iv, dirs),
            p@ == pv,
            order::is_order(name_keys(l), p@),
            l.len() == picked@.len(),
            forall|j: int|
                0 <= j < picked@.len() ==> (#[trigger] picked@[j]) < items@.len() && iv[picked@[j] as int]
                    == l[j],
            k <= p@.len(),
            views::views(out@) == start + all.take(k as int),
        decreases p@.len() - k,
    {
        let at = picked[p[k]];
        out.push(to_entry(&items[at], dirs));
        k = k + 1;
        assert(start + all.take(k as int) =~= (start + all.take(k - 1)).push(all[k - 1]));
    }
    assert(all.take(k as int) =~= all);
}

/// Appends a directory's children to a listing.
pub fn push_children(items: &[DirItem], out: &mut Vec<BrowserEntry>)
    ensures
        views::views(final(out)@) == views::views(old(out)@) + children(views::views(items@)),
{
    let ghost start = views::views(out@);
    push_sorted(items, true, out);
    push_sorted(items, false, out);
    let ghost iv = views::views(items@);
    assert(start + sorted_entries(iv, true) + sorted_entries(iv, false) =~= start + children(iv));
}

/// A directory listing with a selected line.
#[derive(Debug)]
pub struct Browser {
    pub dir: String,
    pub entries: Vec<BrowserEntry>,
    pub selected: usize,
    pub scroll: u16,
}

impl Browser {
    /// The path of the selected entry.
    pub open spec fn selected_path(&self) -> Option<Seq<char>> {
        if self.selected < self.entries@.len() {
            Some(self.entries@[self.selected as int].path@)
        } else {
            None
        }
    }

    /// Builds the listing of `dir` from its items.
    pub fn scan(dir: &str, items: &[DirItem]) -> (b: Browser)
        ensures
            b.dir@ == dir@,
            b.scroll == 0,
            views::views(b.entries@) == listing(dir@, views::views(items@)),
            b.selected == reselected(listing(dir@, views::views(items@)), None),
    {
        let mut b = Browser { dir: dir.to_string(), entries: Vec::new(), selected: 0, scroll: 0 };
        b.rebuild(items);
        b
    }

    /// Builds the listing anew, keeping the selected path selected where it is
    /// still listed.
    pub fn rebuild(&mut self, items: &[DirItem])
        ensures
            final(self).dir == old(self).dir,
            final(self).scroll == old(self).scroll,
            views::views(final(self).entries@) == listing(
                old(self).dir@,
                views::views(items@),
            ),
            final(self).selected == reselected(
                listing(old(self).dir@, views::views(items@)),
                old(self).selected_path(),
            ),
    {
        let prev: Option<String> = if self.selected < self.entries.len() {
            Some(self.entries[self.selected].path.clone())
        } else {
            None
        };
        let ghost iv = views::views(items@);
        let mut entries: Vec<BrowserEntry> = Vec::new();
        match paths::parent(&self.dir) {
            Some(p) => {
                if !same_text(&p, &self.dir) {
                    entries.push(
                        BrowserEntry {
                            path: p,
                            display: "../".to_string(),
                            kind: BrowserEntryKind::ParentDir,
                        },
                    );
                }
            },
            None => {},
        }
        push_children(items, &mut entries);
        let ghost ev = views::views(entries@);
        assert(ev =~= listing(self.dir@, iv));
        let mut skip: usize = 0;
        let n = entries.len();
        while skip < n && matches!(entries[skip].kind, BrowserEntryKind::ParentDir)
            invariant
                ev == views::views(entries@),
                n == entries@.len(),
                skip <= n,
                views::first_where(ev, is_real(), 0) == views::first_where(
                    ev,
                    is_real(),
                    skip as int,
                ),
            decreases n - skip,
        {
            skip = skip + 1;
        }
        let fallback: usize = if skip < n {
            skip
        } else {
            0
        };
        let mut selected: usize = fallback;
        match &prev {
            Some(p) => {
                let mut i: usize = 0;
                while i < n && !same_text(&entries[i].path, p)
                    invariant
                        ev == views::views(entries@),
                        n == entries@.len(),
                        i <= n,
                        views::first_where(ev, has_path(p@), 0) == views::first_where(
                            ev,
                            has_path(p@),
                            i as int,
                        ),
                    decreases n - i,
                {
                    i = i + 1;
                }
                if i < n {
                    selected = i;
                }
            },
            None => {},
        }
        self.entries = entries;
        self.selected = selected;
    }

    /// The selected entry.
    pub fn selected_entry(&self) -> (r: Option<&BrowserEntry>)
        ensures
            match r {
                Some(e) => self.selected < self.entries@.len() && *e
                    == self.entries@[self.selected as int],
                None => self.selected >= self.entries@.len(),
            },
    {
        if self.selected < self.entries.len() {
            Some(&self.entries[self.selected])
        } else {
            None
        }
    }
}

/// A fresh listing never selects the parent directory while it has another
/// entry, and its selection is an entry if there is any.
pub proof fn law_fresh_selection_skips_parent(dir: Seq<char>, items: Seq<ItemView>)
    ensures
        ({
            let l = listing(dir, items);
            let s = reselected(l, None);
            &&& l.len() > 0 ==> 0 <= s < l.len()
            &&& (exists|i: int| 0 <= i < l.len() && !((#[trigger] l[i]).kind is ParentDir)) ==> !(
            l[s].kind is ParentDir)
        }),
{
    views::lemma_first_where(listing(dir, items), is_real(), 0);
}

proof fn lemma_listed(items: Seq<ItemView>, dirs: bool, n: int)
    requires
        0 <= n <= items.len(),
    ensures
        listed(items, dirs, n).len() <= n,
        forall|k: int|
            0 <= k < listed(items, dirs, n).len() ==> exists|j: int|
                0 <= j < n && is_listed(items[j], dirs) && items[j] == #[trigger] listed(
                    items,
                    dirs,
                    n,
                )[k],
        forall|j: int|
            0 <= j < n && is_listed(#[trigger] items[j], dirs) ==> listed(
                items,
                dirs,
                n,
            ).contains(items[j]),
    decreases n,
{
    if n > 0 {
        lemma_listed(items, dirs, n - 1);
        let before = listed(items, dirs, n - 1);
        let all = listed(items, dirs, n);
        assert forall|k: int| 0 <= k < all.len() implies exists|j: int|
            0 <= j < n && is_listed(items[j], dirs) && items[j] == #[trigger] all[k] by {
            if k < before.len() {
                assert(all[k] == before[k]);
            } else {
                assert(items[n - 1] == all[k]);
            }
        }
        assert forall|j: int| 0 <= j < n && is_listed(
            #[trigger] items[j],
            dirs,
        ) implies all.contains(items[j]) by {
            if j < n - 1 {
                let k = before.index_of(items[j]);
                assert(all[k] == items[j]);
            } else {
                assert(all[all.len() - 1] == items[j]);
            }
        }
    }
}

/// The name that an entry shows, without the slash of a directory.
pub open spec fn bare_name(e: EntryView) -> Seq<char> {
    if e.kind is Dir {
        e.display.drop_last()
    } else {
        e.display
    }
}

/// Whether an entry stands for an item of its kind.
pub open spec fn stands_for(e: EntryView, items: Seq<ItemView>, dirs: bool) -> bool {
    exists|j: int|
        0 <= j < items.len() && is_listed(#[trigger] items[j], dirs) && e == entry_of(
            items[j],
            dirs,
        )
}

proof fn lemma_sorted_entries(items: Seq<ItemView>, dirs: bool)
    requires
        items.len() <= usize::MAX,
    ensures
        ({
            let s = sorted_entries(items, dirs);
            &&& forall|i: int| 0 <= i < s.len() ==> stands_for(#[trigger] s[i], items, dirs)
            &&& forall|j: int|
                0 <= j < items.len() && is_listed(#[trigger] items[j], dirs) ==> s.contains(
                    entry_of(items[j], dirs),
                )
            &&& forall|i: int, j: int|
                0 <= i < j < s.len() ==> !order::text_less(
                    text::lower_text(bare_name(#[trigger] s[j])),
                    text::lower_text(bare_name(#[trigger] s[i])),
                    0,
                )
        }),
{
    let n = items.len() as int;
    let l = listed(items, dirs, n);
    let s = sorted_entries(items, dirs);
    lemma_listed(items, dirs, n);
    order::law_order_exists(name_keys(l));
    let p = order::order(name_keys(l));
    assert forall|i: int| 0 <= i < s.len() implies stands_for(#[trigger] s[i], items, dirs) by {
        let x = l[p[i] as int];
        let j = choose|j: int| 0 <= j < n && is_listed(items[j], dirs) && items[j] == x;
        assert(s[i] == entry_of(items[j], dirs));
    }
    assert forall|j: int| 0 <= j < n && is_listed(#[trigger] items[j], dirs) implies s.contains(
        entry_of(items[j], dirs),
    ) by {
        let k = l.index_of(items[j]);
        order::lemma_order_covers(name_keys(l), p, k);
        let a = choose|a: int| 0 <= a < p.len() && #[trigger] p[a] == k;
        assert(s[a] == entry_of(items[j], dirs));
    }
    assert forall|i: int, j: int| 0 <= i < j < s.len() implies !order::text_less(
        text::lower_text(bare_name(#[trigger] s[j])),
        text::lower_text(bare_name(#[trigger] s[i])),
        0,
    ) by {
        order::lemma_order_ascends(name_keys(l), p, i, j);
        assert(bare_name(s[i]) =~= l[p[i] as int].name);
        assert(bare_name(s[j]) =~= l[p[j] as int].name);
    }
}

/// A listing shows the way up, every directory and every markdown file, and
/// nothing else: the way up first, then the directories, then the files, both
/// sorted without regard to case.
pub proof fn law_listing_shows_directories_and_markdown(dir: Seq<char>, items: Seq<ItemView>)
    requires
        items.len() <= usize::MAX,
    ensures
        ({
            let l = listing(dir, items);
            &&& forall|i: int|
                0 <= i < l.len() ==> match (#[trigger] l[i]).kind {
                    BrowserEntryKind::ParentDir => i == 0 && paths::parent_of(dir) == Some(
                        l[i].path,
                    ),
                    BrowserEntryKind::Dir => stands_for(l[i], items, true),
                    BrowserEntryKind::Markdown => stands_for(l[i], items, false),
                }
            &&& forall|j: int, dirs: bool|
                0 <= j < items.len() && #[trigger] is_listed(items[j], dirs) ==> l.contains(
                    entry_of(items[j], dirs),
                )
            &&& forall|i: int, j: int|
                0 <= i < j < l.len() && (#[trigger] l[i]).kind is Markdown ==> (
                #[trigger] l[j]).kind is Markdown
            &&& forall|i: int, j: int|
                0 <= i < j < l.len() && (#[trigger] l[i]).kind == (#[trigger] l[j]).kind
                    ==> !order::text_less(
                    text::lower_text(bare_name(l[j])),
                    text::lower_text(bare_name(l[i])),
                    0,
                )
        }),
{
    let l = listing(dir, items);
    let ds = sorted_entries(items, true);
    let fs = sorted_entries(items, false);
    lemma_sorted_entries(items, true);
    lemma_sorted_entries(items, false);
    let up = l.len() - ds.len() - fs.len();
    assert(up == 0 || up == 1);
    assert forall|i: int| 0 <= i < l.len() implies match (#[trigger] l[i]).kind {
        BrowserEntryKind::ParentDir => i == 0 && paths::parent_of(dir) == Some(l[i].path),
        BrowserEntryKind::Dir => stands_for(l[i], items, true),
        BrowserEntryKind::Markdown => stands_for(l[i], items, false),
    } by {
        if i >= up {
            if i - up < ds.len() {
                assert(l[i] == ds[i - up]);
            } else {
                assert(l[i] == fs[i - up - ds.len()]);
            }
        }
    }
    assert forall|j: int, dirs: bool|
        0 <= j < items.len() && #[trigger] is_listed(items[j], dirs) implies l.contains(
        entry_of(items[j], dirs),
    ) by {
        let e = entry_of(items[j], dirs);
        let s = sorted_entries(items, dirs);
        assert(s.contains(e));
        let k = s.index_of(e);
        if dirs {
            assert(l[up + k] == e);
        } else {
            assert(l[up + ds.len() + k] == e);
        }
    }
    assert forall|i: int, j: int|
        0 <= i < j < l.len() && (#[trigger] l[i]).kind is Markdown implies (
    #[trigger] l[j]).kind is Markdown by {
        if i >= up && i - up < ds.len() {
            assert(l[i] == ds[i - up]);
        }
        assert(l[j] == fs[j - up - ds.len()]);
    }
    assert forall|i: int, j: int|
        0 <= i < j < l.len() && (#[trigger] l[i]).kind == (
        #[trigger] l[j]).kind implies !order::text_less(
        text::lower_text(bare_name(l[j])),
        text::lower_text(bare_name(l[i])),
        0,
    ) by {
        if i >= up && j - up < ds.len() {
            assert(l[i] == ds[i - up] && l[j] == ds[j - up]);
        } else if i >= up {
            assert(l[j] == fs[j - up - ds.len()]);
            if i - up < ds.len() {
                assert(l[i] == ds[i - up]);
            } else {
                assert(l[i] == fs[i - up - ds.len()]);
            }
        } else {
            if j - up < ds.len() {
                assert(l[j] == ds[j - up]);
            } else {
                assert(l[j] == fs[j - up - ds.len()]);
            }
        }
    }
}

} // verus!
