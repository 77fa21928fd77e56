//! Files found by name: wiki links, relative paths and the search index.

use vstd::prelude::*;
use crate::browser;
use crate::browser::DirItem;
use crate::paths;
use crate::paths::file_name;
use crate::search::IndexedPath;
use crate::text;
use crate::text::{find_char, from_chars, same_text, starts_with, to_chars};
use crate::views;

verus! {

broadcast use crate::views::group_views;

// ---------------------------------------------------------------------------
// Wiki links
// ---------------------------------------------------------------------------

/// The file names that a link target stands for: its own, and with `.md` where it
/// has no dot.
pub open spec fn wanted(target: Seq<char>) -> Option<(Seq<char>, Seq<char>)> {
    match paths::name_of(target) {
        Some(name) => Some(
            (
                name,
                if name.contains('.') {
                    name
                } else {
                    name + ".md"@
                },
            ),
        ),
        None => None,
    }
}

/// The files with one of two names.
pub open spec fn is_wanted(names: (Seq<char>, Seq<char>)) -> spec_fn(browser::ItemView) -> bool {
    |x: browser::ItemView| x.is_file && (x.name == names.0 || x.name == names.1)
}

/// Whether a walk for a link goes into an entry of this name; dotfiles are left
/// out.
pub open spec fn is_walked(name: Seq<char>) -> bool {
    !text::begins_with(name, "."@) || name == "."@ || name == ".."@
}

/// Whether a walk for a link goes into an entry of this name.
pub fn walks_into(name: &str) -> (r: bool)
    ensures
        r == is_walked(name@),
{
    !starts_with(name, ".") || same_text(name, ".") || same_text(name, "..")
}

/// Finds the file that a link target names among those of a walk, the first in
/// its order.
pub fn vault_lookup(target: &str, items: &[DirItem]) -> (r: Option<String>)
    ensures
        views::opt_view(r) == (match wanted(target@) {
            Some(names) => match views::first_where(
                views::views(items@),
                is_wanted(names),
                0,
            ) {
                Some(i) => Some(items@[i].path@),
                None => None,
            },
            None => None,
        }),
{
    let needle = match file_name(target) {
        Some(n) => n,
        None => {
            return None;
        },
    };
    let cs = to_chars(&needle);
    let mut needle_md = needle.clone();
    let dot = find_char(&cs, '.', 0);
    proof {
        text::lemma_first_char(cs@, '.', 0);
        if dot is Some {
            assert(needle@.contains('.'));
        }
    }
    if dot.is_none() {
        needle_md.push_str(".md");
    }
    let ghost names = (needle@, needle_md@);
    let ghost vs = views::views(items@);
    let mut i: usize = 0;
    while i < items.len()
        invariant
            names == (needle@, needle_md@),
            wanted(target@) == Some(names),
            vs == views::views(items@),
            i <= items@.len(),
            views::first_where(vs, is_wanted(names), 0) == views::first_where(
                vs,
                is_wanted(names),
                i as int,
            ),
        decreases items@.len() - i,
    {
        let x = &items[i];
        if x.is_file && (same_text(&x.name, &needle) || same_text(&x.name, &needle_md)) {
            return Some(x.path.clone());
        }
        i = i + 1;
    }
    None
}

// ---------------------------------------------------------------------------
// Paths below a directory
// ---------------------------------------------------------------------------

/// True when a component `.` stands at `i`.
pub open spec fn dot_at(p: Seq<char>, i: int) -> bool {
    0 <= i < p.len() && p[i] == '.' && (i + 1 == p.len() || p[i + 1] == '/')
}

/// Where the next component begins at or after `i`, past separators and `.`
/// components.
pub open spec fn next_component(p: Seq<char>, i: int) -> int
    decreases p.len() - i,
{
    if 0 <= i < p.len() && (p[i] == '/' || dot_at(p, i)) {
        next_component(p, i + 1)
    } else {
        i
    }
}

/// Where the component at `i` ends.
pub open spec fn component_end(p: Seq<char>, i: int) -> int
    decreases p.len() - i,
{
    if 0 <= i < p.len() && p[i] != '/' {
        component_end(p, i + 1)
    } else {
        i
    }
}

/// `p` from `i` on, relative to the components of `base` from `j` on.
pub open spec fn stripped_from(p: Seq<char>, i: int, base: Seq<char>, j: int) -> Option<Seq<char>>
    decreases base.len() - j,
{
    let x = next_component(p, i);
    let y = next_component(base, j);
    if y >= base.len() {
        Some(
            if x < p.len() {
                p.subrange(x, paths::trimmed(p, p.len() as int))
            } else {
                Seq::empty()
            },
        )
    } else {
        let ey = component_end(base, y);
        if ey <= j || ey > base.len() || x >= p.len() || p.subrange(x, component_end(p, x)) != base.subrange(y, ey) {
            None
        } else {
            stripped_from(p, component_end(p, x), base, ey)
        }
    }
}

/// A path without the separators and the `.` components that end it. What it begins
/// with stays.
pub open spec fn ended(p: Seq<char>) -> Seq<char> {
    let n = paths::trimmed(p, p.len() as int);
    if n == 0 && p.len() > 0 {
        p.take(1)
    } else {
        p.take(n)
    }
}

/// `p` relative to the directory `base`, where it lies in it. The two are compared
/// component by component: repeated separators do not count, nor does a `.` that a
/// path does not begin with.
pub open spec fn stripped(p: Seq<char>, base: Seq<char>) -> Option<Seq<char>> {
    if base.len() == 0 {
        Some(ended(p))
    } else if p.len() == 0 || (p[0] == '/') != (base[0] == '/') || dot_at(p, 0) != dot_at(base, 0) {
        None
    } else {
        stripped_from(p, 0, base, 0)
    }
}

proof fn lemma_next_component(p: Seq<char>, i: int)
    requires
        0 <= i <= p.len(),
    ensures
        i <= next_component(p, i) <= p.len(),
        ({
            let x = next_component(p, i);
            x < p.len() ==> p[x] != '/' && !dot_at(p, x)
        }),
    decreases p.len() - i,
{
    if i < p.len() && (p[i] == '/' || dot_at(p, i)) {
        lemma_next_component(p, i + 1);
    }
}

proof fn lemma_component_end(p: Seq<char>, i: int)
    requires
        0 <= i <= p.len(),
    ensures
        i <= component_end(p, i) <= p.len(),
        component_end(p, i) < p.len() ==> p[component_end(p, i)] == '/',
        i < p.len() && p[i] != '/' ==> i < component_end(p, i),
    decreases p.len() - i,
{
    if i < p.len() && p[i] != '/' {
        lemma_component_end(p, i + 1);
    }
}

/// Whether all that comes from `n` on ends a path.
spec fn ends_at(p: Seq<char>, n: int) -> bool {
    n == p.len() || p[n] == '/' || (n > 0 && p[n] == '.' && p[n - 1] == '/')
}

/// What follows a component is more than what ends a path.
proof fn lemma_trimmed_after(p: Seq<char>, x: int, n: int)
    requires
        0 <= x < n <= p.len(),
        p[x] != '/',
        !dot_at(p, x),
        x > 0 ==> p[x - 1] == '/',
        ends_at(p, n),
    ensures
        x < paths::trimmed(p, n) <= n,
    decreases n,
{
    if p[n - 1] == '/' || (n > 1 && p[n - 1] == '.' && p[n - 2] == '/') {
        lemma_trimmed_after(p, x, n - 1);
    }
}

fn skip_to_component(p: &[char], from: usize) -> (r: usize)
    requires
        from <= p@.len(),
    ensures
        r == next_component(p@, from as int),
        from <= r <= p@.len(),
{
    let mut i: usize = from;
    while i < p.len() && (p[i] == '/' || (p[i] == '.' && (i + 1 == p.len() || p[i + 1] == '/')))
        invariant
            from <= i <= p@.len(),
            next_component(p@, i as int) == next_component(p@, from as int),
        decreases p@.len() - i,
    {
        i = i + 1;
    }
    i
}

fn end_of_component(p: &[char], from: usize) -> (r: usize)
    requires
        from <= p@.len(),
    ensures
        r == component_end(p@, from as int),
        from <= r <= p@.len(),
{
    let mut i: usize = from;
    while i < p.len() && p[i] != '/'
        invariant
            from <= i <= p@.len(),
            component_end(p@, i as int) == component_end(p@, from as int),
        decreases p@.len() - i,
    {
        i = i + 1;
    }
    i
}

/// `p` relative to the directory `base`, where it lies in it.
pub fn strip_prefix(p: &str, base: &str) -> (r: Option<String>)
    ensures
        views::opt_view(r) == stripped(p@, base@),
{
    let ps = to_chars(p);
    let bs = to_chars(base);
    let n = ps.len();
    let end = paths::trim(&ps, n);
    if bs.len() == 0 {
        let e: usize = if end == 0 && n > 0 {
            1
        } else {
            end
        };
        assert(ps@.subrange(0, e as int) =~= ps@.take(e as int));
        return Some(from_chars(&ps, 0, e));
    }
    if n == 0 || (ps[0] == '/') != (bs[0] == '/') {
        return None;
    }
    let dot_p = ps[0] == '.' && (n == 1 || ps[1] == '/');
    let dot_b = bs[0] == '.' && (bs.len() == 1 || bs[1] == '/');
    if dot_p != dot_b {
        return None;
    }
    let mut i: usize = 0;
    let mut j: usize = 0;
    loop
        invariant
            ps@ == p@,
            bs@ == base@,
            n == ps@.len(),
            end == paths::trimmed(p@, n as int),
            i <= n,
            j <= bs@.len(),
            stripped(p@, base@) == stripped_from(p@, i as int, base@, j as int),
            at_boundary(p@, i as int),
        decreases bs@.len() - j,
    {
        let x = skip_to_component(&ps, i);
        let y = skip_to_component(&bs, j);
        proof {
            lemma_next_component(p@, i as int);
            lemma_next_component(base@, j as int);
            lemma_boundary(p@, i as int);
        }
        if y >= bs.len() {
            if x < n {
                proof {
                    lemma_trimmed_after(p@, x as int, n as int);
                }
                return Some(from_chars(&ps, x, end));
            }
            let none = String::new();
            assert(none@ =~= Seq::<char>::empty());
            return Some(none);
        }
        if x >= n {
            return None;
        }
        let ex = end_of_component(&ps, x);
        let ey = end_of_component(&bs, y);
        proof {
            lemma_component_end(p@, x as int);
            lemma_component_end(base@, y as int);
        }
        if !same_text(&from_chars(&ps, x, ex), &from_chars(&bs, y, ey)) {
            return None;
        }
        i = ex;
        j = ey;
    }
}

/// Whether a component may begin or has ended at `i`.
spec fn at_boundary(p: Seq<char>, i: int) -> bool {
    i == 0 || i >= p.len() || p[i] == '/' || p[i - 1] == '/'
}

proof fn lemma_boundary(p: Seq<char>, i: int)
    requires
        0 <= i <= p.len(),
        at_boundary(p, i),
    ensures
        ({
            let x = next_component(p, i);
            0 < x < p.len() ==> p[x - 1] == '/'
        }),
    decreases p.len() - i,
{
    if i < p.len() && (p[i] == '/' || dot_at(p, i)) {
        lemma_boundary(p, i + 1);
    }
}

/// A path relative to the home directory, where it lies in it.
pub open spec fn home_path(p: Seq<char>, home: Option<Seq<char>>) -> Seq<char> {
    match home {
        Some(h) => match stripped(p, h) {
            Some(rel) => "~/"@ + rel,
            None => p,
        },
        None => p,
    }
}

/// A path as it is shown: relative to the root or to the home directory.
pub open spec fn shown_path(p: Seq<char>, root: Seq<char>, home: Option<Seq<char>>) -> Seq<char> {
    match stripped(p, root) {
        Some(rel) => if rel.len() == 0 {
            "."@
        } else {
            rel
        },
        None => home_path(p, home),
    }
}

/// A path relative to the home directory, where it lies in it.
pub fn short_root(p: &str, home: Option<&str>) -> (r: String)
    ensures
        r@ == home_path(
            p@,
            match home {
                Some(h) => Some(h@),
                None => None,
            },
        ),
{
    match home {
        Some(h) => match strip_prefix(p, h) {
            Some(rel) => {
                let mut out = "~/".to_string();
                out.push_str(&rel);
                out
            },
            None => p.to_string(),
        },
        None => p.to_string(),
    }
}

/// A path as it is shown: relative to the root or to the home directory.
pub fn display_path(p: &str, root: &str, home: Option<&str>) -> (r: String)
    ensures
        r@ == shown_path(
            p@,
            root@,
            match home {
                Some(h) => Some(h@),
                None => None,
            },
        ),
{
    match strip_prefix(p, root) {
        Some(rel) => if rel.as_str().is_empty() {
            ".".to_string()
        } else {
            rel
        },
        None => short_root(p, home),
    }
}

/// The entry of the search index for a path below `root`.
pub fn indexed(root: &str, path: &str, is_dir: bool) -> (r: IndexedPath)
    ensures
        r.path@ == path@,
        r.is_dir == is_dir,
        r.display@ == (match stripped(path@, root@) {
            Some(rel) => rel,
            None => path@,
        }),
{
    IndexedPath {
        path: path.to_string(),
        display: match strip_prefix(path, root) {
            Some(rel) => rel,
            None => path.to_string(),
        },
        is_dir,
    }
}

/// Skipping goes the same way in a path that continues a directory, up to where the
/// directory ends.
proof fn lemma_next_in_join(dir: Seq<char>, j: Seq<char>, m: int, i: int)
    requires
        0 <= i <= dir.len(),
        continues(dir, j, m),
    ensures
        ({
            let x = next_component(dir, i);
            next_component(j, i) == if x < dir.len() {
                x
            } else {
                m
            }
        }),
    decreases dir.len() - i,
{
    if i < dir.len() {
        assert(j[i] == dir[i]);
        assert(dot_at(dir, i) == dot_at(j, i)) by {
            if i + 1 < dir.len() {
                assert(j[i + 1] == dir[i + 1]);
            } else if dir[i] == '.' {
                assert(dir.last() == '.');
            }
        }
        if dir[i] == '/' || dot_at(dir, i) {
            lemma_next_in_join(dir, j, m, i + 1);
        }
    } else if m > dir.len() {
        assert(j[i] == '/');
        assert(next_component(j, i) == next_component(j, m));
    }
}

/// Whether `j` is the path `dir` and, after a separator where it does not end in one,
/// a component at `m`.
spec fn continues(dir: Seq<char>, j: Seq<char>, m: int) -> bool {
    &&& m == if dir.len() == 0 || dir.last() == '/' {
        dir.len() as int
    } else {
        (dir.len() + 1) as int
    }
    &&& m < j.len()
    &&& forall|k: int| 0 <= k < dir.len() ==> j[k] == #[trigger] dir[k]
    &&& m > dir.len() ==> j[dir.len() as int] == '/'
    &&& j[m] != '/'
    &&& !dot_at(j, m)
}

proof fn lemma_end_in_join(dir: Seq<char>, j: Seq<char>, m: int, i: int)
    requires
        0 <= i < dir.len(),
        dir[i] != '/',
        continues(dir, j, m),
    ensures
        component_end(j, i) == component_end(dir, i),
    decreases dir.len() - i,
{
    reveal_with_fuel(component_end, 2);
    assert(j[i] == dir[i]);
    if i + 1 < dir.len() {
        assert(j[i + 1] == dir[i + 1]);
        if dir[i + 1] != '/' {
            lemma_end_in_join(dir, j, m, i + 1);
        }
    } else {
        assert(dir.last() == dir[i]);
        assert(j[i + 1] == '/');
    }
}

proof fn lemma_strip_join(dir: Seq<char>, j: Seq<char>, m: int, i: int)
    requires
        0 <= i <= dir.len(),
        continues(dir, j, m),
    ensures
        stripped_from(j, i, dir, i) == Some(j.subrange(m, paths::trimmed(j, j.len() as int))),
    decreases dir.len() - i,
{
    lemma_next_in_join(dir, j, m, i);
    lemma_next_component(dir, i);
    let y = next_component(dir, i);
    if y < dir.len() {
        lemma_end_in_join(dir, j, m, y);
        lemma_component_end(dir, y);
        let ey = component_end(dir, y);
        assert(j.subrange(y, ey) =~= dir.subrange(y, ey));
        lemma_strip_join(dir, j, m, ey);
    }
}

/// What ends a path does not depend on what comes before it.
proof fn lemma_trimmed_part(j: Seq<char>, m: int, p: Seq<char>, n: int)
    requires
        0 <= m,
        0 < n <= p.len(),
        j.len() == m + p.len(),
        forall|k: int| 0 <= k < p.len() ==> j[m + k] == #[trigger] p[k],
        p[0] != '/',
        !dot_at(p, 0),
        ends_at(p, n),
    ensures
        paths::trimmed(j, m + n) == m + paths::trimmed(p, n),
    decreases n,
{
    assert(j[m + (n - 1)] == p[n - 1]);
    if n > 1 {
        assert(j[m + (n - 2)] == p[n - 2]);
        if p[n - 1] == '/' || (p[n - 1] == '.' && p[n - 2] == '/') {
            lemma_trimmed_part(j, m, p, n - 1);
        }
    }
}

/// A path that was joined to a directory is what is left when that directory is
/// taken off it again, where the path neither begins nor ends with a separator or a
/// `.` component.
pub proof fn law_strip_undoes_join(base: Seq<char>, p: Seq<char>)
    requires
        p.len() > 0,
        next_component(p, 0) == 0,
        paths::trimmed(p, p.len() as int) == p.len(),
    ensures
        stripped(paths::joined(base, p), base) == Some(p),
{
    let j = paths::joined(base, p);
    lemma_next_component(p, 0);
    let m: int = if base.len() == 0 || base.last() == '/' {
        base.len() as int
    } else {
        (base.len() + 1) as int
    };
    assert(j.len() == m + p.len());
    assert forall|k: int| 0 <= k < p.len() implies j[m + k] == #[trigger] p[k] by {}
    assert(j[m + 0] == p[0]);
    if p.len() > 1 {
        assert(j[m + 1] == p[1]);
    }
    assert(continues(base, j, m));
    lemma_trimmed_part(j, m, p, p.len() as int);
    assert(j.subrange(m, j.len() as int) =~= p);
    if base.len() == 0 {
        assert(j.take(j.len() as int) =~= p);
    } else {
        lemma_strip_join(base, j, m, 0);
        assert(j[0] == base[0]);
        if base.len() > 1 {
            assert(j[1] == base[1]);
        } else if base[0] == '.' {
            assert(base.last() == base[0]);
        }
    }
}

} // verus!
