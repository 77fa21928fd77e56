//! File paths as text, with `/` between components.

use vstd::prelude::*;
use crate::text;
use crate::text::{from_chars, same_text, to_chars, to_lower};

verus! {

/// `p` taken relative to the directory `base`; an absolute `p` stands alone.
pub open spec fn joined(base: Seq<char>, p: Seq<char>) -> Seq<char> {
    if p.len() > 0 && p[0] == '/' {
        p
    } else if base.len() == 0 || base.last() == '/' {
        base + p
    } else {
        base.push('/') + p
    }
}

/// Joins `p` to the directory `base`.
pub fn join(base: &str, p: &str) -> (r: String)
    ensures
        r@ == joined(base@, p@),
{
    let ps = to_chars(p);
    if ps.len() > 0 && ps[0] == '/' {
        return p.to_string();
    }
    let bs = to_chars(base);
    let mut out = base.to_string();
    if bs.len() > 0 && bs[bs.len() - 1] != '/' {
        out.push('/');
    }
    out.push_str(p);
    out
}

/// `n` without the separators and the `.` components that end there.
pub open spec fn trimmed(p: Seq<char>, n: int) -> int
    decreases n,
{
    if n <= 0 || n > p.len() {
        0
    } else if p[n - 1] == '/' {
        trimmed(p, n - 1)
    } else if n > 1 && p[n - 1] == '.' && p[n - 2] == '/' {
        trimmed(p, n - 1)
    } else {
        n
    }
}

/// Where the component that ends at `n` begins.
pub open spec fn component_start(p: Seq<char>, n: int) -> int
    decreases n,
{
    if n <= 0 || p[n - 1] == '/' {
        n
    } else {
        component_start(p, n - 1)
    }
}

/// The range of the last component of a path; empty for an empty path and for
/// the root.
pub open spec fn last_component(p: Seq<char>) -> (int, int) {
    let n = trimmed(p, p.len() as int);
    (component_start(p, n), n)
}

/// The last component of a path, unless that is `.` or `..`.
pub open spec fn name_of(p: Seq<char>) -> Option<Seq<char>> {
    let (b, n) = last_component(p);
    let name = p.subrange(b, n);
    if b >= n || name == "."@ || name == ".."@ {
        None
    } else {
        Some(name)
    }
}

/// The path of the directory that holds the last component. The root and the
/// empty path have none.
pub open spec fn parent_of(p: Seq<char>) -> Option<Seq<char>> {
    let (b, n) = last_component(p);
    let m = trimmed(p, b);
    if b >= n {
        None
    } else if m == 0 && p[0] == '/' {
        Some("/"@)
    } else {
        Some(p.take(m))
    }
}

/// What follows the last dot of a name, where something comes before it.
pub open spec fn extension_from(name: Seq<char>, i: int) -> Option<Seq<char>>
    decreases i,
{
    if i <= 0 || i >= name.len() {
        None
    } else if name[i] == '.' {
        Some(name.skip(i + 1))
    } else {
        extension_from(name, i - 1)
    }
}

/// The extension of a path's last component.
pub open spec fn extension_of(p: Seq<char>) -> Option<Seq<char>> {
    match name_of(p) {
        Some(name) => extension_from(name, name.len() - 1),
        None => None,
    }
}

/// True of the extensions of markdown files, in any case.
pub open spec fn is_markdown_path(p: Seq<char>) -> bool {
    match extension_of(p) {
        Some(e) => {
            let l = text::lower_text(e);
            l == "md"@ || l == "markdown"@ || l == "mdown"@ || l == "mkd"@
        },
        None => false,
    }
}

/// A path without an extension, with `.md` appended to its last component.
pub open spec fn with_md(p: Seq<char>) -> Seq<char> {
    if name_of(p) is Some {
        p.take(last_component(p).1) + ".md"@
    } else {
        p
    }
}

pub(crate) fn trim(p: &[char], n: usize) -> (r: usize)
    requires
        n <= p@.len(),
    ensures
        r == trimmed(p@, n as int),
        r <= n,
{
    let mut i: usize = n;
    while i > 0 && (p[i - 1] == '/' || (i > 1 && p[i - 1] == '.' && p[i - 2] == '/'))
        invariant
            i <= n <= p@.len(),
            trimmed(p@, i as int) == trimmed(p@, n as int),
        decreases i,
    {
        i = i - 1;
    }
    i
}

fn start_of_component(p: &[char], n: usize) -> (r: usize)
    requires
        n <= p@.len(),
    ensures
        r == component_start(p@, n as int),
        r <= n,
{
    let mut i: usize = n;
    while i > 0 && p[i - 1] != '/'
        invariant
            i <= n <= p@.len(),
            component_start(p@, i as int) == component_start(p@, n as int),
        decreases i,
    {
        i = i - 1;
    }
    i
}

/// The last component of a path.
pub fn file_name(p: &str) -> (r: Option<String>)
    ensures
        crate::views::opt_view(r) == name_of(p@),
{
    let cs = to_chars(p);
    let len = cs.len();
    let n = trim(&cs, len);
    let b = start_of_component(&cs, n);
    if b >= n {
        return None;
    }
    let name = from_chars(&cs, b, n);
    if same_text(&name, ".") || same_text(&name, "..") {
        None
    } else {
        Some(name)
    }
}

/// The directory of a path.
pub fn parent(p: &str) -> (r: Option<String>)
    ensures
        crate::views::opt_view(r) == parent_of(p@),
{
    let cs = to_chars(p);
    let len = cs.len();
    let n = trim(&cs, len);
    let b = start_of_component(&cs, n);
    if b >= n {
        return None;
    }
    let m = trim(&cs, b);
    if m == 0 && cs[0] == '/' {
        Some("/".to_string())
    } else {
        assert(cs@.take(m as int) =~= cs@.subrange(0, m as int));
        Some(from_chars(&cs, 0, m))
    }
}

/// The extension of a path.
pub fn extension(p: &str) -> (r: Option<String>)
    ensures
        crate::views::opt_view(r) == extension_of(p@),
{
    match file_name(p) {
        None => None,
        Some(name) => {
            let cs = to_chars(&name);
            let n = cs.len();
            if n == 0 {
                return None;
            }
            let mut i: usize = n - 1;
            while i > 0
                invariant
                    i < n,
                    n == cs@.len(),
                    cs@ == name@,
                    name_of(p@) == Some(name@),
                    extension_from(cs@, n - 1) == extension_from(cs@, i as int),
                decreases i,
            {
                if cs[i] == '.' {
                    assert(cs@.skip(i + 1) =~= cs@.subrange(i + 1, n as int));
                    return Some(from_chars(&cs, i + 1, n));
                }
                i = i - 1;
            }
            None
        },
    }
}

/// Tells markdown files by their extension.
pub fn is_markdown_file(p: &str) -> (r: bool)
    ensures
        r == is_markdown_path(p@),
{
    match extension(p) {
        Some(e) => {
            let l = to_lower(&e);
            same_text(&l, "md") || same_text(&l, "markdown") || same_text(&l, "mdown") || same_text(
                &l,
                "mkd",
            )
        },
        None => false,
    }
}

/// Appends `.md` to a path's last component.
pub fn with_md_extension(p: &str) -> (r: String)
    ensures
        r@ == with_md(p@),
{
    if file_name(p).is_none() {
        return p.to_string();
    }
    let cs = to_chars(p);
    let len = cs.len();
    let n = trim(&cs, len);
    let mut out = from_chars(&cs, 0, n);
    assert(cs@.take(n as int) =~= cs@.subrange(0, n as int));
    out.push_str(".md");
    out
}

/// Chooses the file a local link stands for: the path as it is, or with `.md`
/// where it has no extension. `exists` and `md_exists` say which of the two are
/// there.
pub fn resolve_local_path(p: &str, exists: bool, md_exists: bool) -> (r: Option<String>)
    ensures
        crate::views::opt_view(r) == (if exists {
            Some(p@)
        } else if extension_of(p@) is None && md_exists {
            Some(with_md(p@))
        } else {
            None
        }),
{
    if exists {
        Some(p.to_string())
    } else if extension(p).is_none() && md_exists {
        Some(with_md_extension(p))
    } else {
        None
    }
}

proof fn lemma_component_start(p: Seq<char>, at: int, n: int)
    requires
        0 < at <= n <= p.len(),
        p[at - 1] == '/',
        forall|i: int| at <= i < n ==> #[trigger] p[i] != '/',
    ensures
        component_start(p, n) == at,
    decreases n,
{
    if n > at {
        assert(p[n - 1] != '/');
        lemma_component_start(p, at, n - 1);
    }
}

proof fn lemma_trimmed_prefix(p: Seq<char>, q: Seq<char>, n: int)
    requires
        0 <= n <= p.len(),
        n <= q.len(),
        forall|i: int| 0 <= i < n ==> p[i] == q[i],
    ensures
        trimmed(p, n) == trimmed(q, n),
    decreases n,
{
    if n > 0 {
        lemma_trimmed_prefix(p, q, n - 1);
    }
}

/// A name joined to a directory is the last component of the path, and the
/// directory is its parent, where the directory is written without a trailing
/// separator.
pub proof fn law_join_gives_name_and_parent(base: Seq<char>, name: Seq<char>)
    requires
        base.len() > 0,
        trimmed(base, base.len() as int) == base.len(),
        name.len() > 0,
        forall|i: int| 0 <= i < name.len() ==> #[trigger] name[i] != '/',
        name != "."@,
        name != ".."@,
    ensures
        name_of(joined(base, name)) == Some(name),
        parent_of(joined(base, name)) == Some(base),
{
    reveal_strlit(".");
    let p = joined(base, name);
    let b = base.len() as int;
    let n = p.len() as int;
    assert(base.last() != '/') by {
        if base.last() == '/' {
            lemma_trimmed_bound(base, b - 1);
        }
    }
    assert(p == base.push('/') + name);
    assert forall|i: int| b + 1 <= i < n implies #[trigger] p[i] != '/' by {
        assert(p[i] == name[i - b - 1]);
    }
    assert(p[n - 1] != '/');
    if n > 1 && p[n - 1] == '.' && p[n - 2] == '/' {
        assert(name.len() == 1) by {
            if name.len() > 1 {
                assert(p[n - 2] == name[name.len() - 2]);
            }
        }
        assert(p[n - 1] == name[0]);
        assert(name =~= "."@);
    }
    assert(trimmed(p, n) == n);
    lemma_component_start(p, b + 1, n);
    assert(p.subrange(b + 1, n) =~= name);
    lemma_trimmed_prefix(p, base, b);
    assert(trimmed(p, b + 1) == trimmed(p, b));
    assert(p.take(b) =~= base);
}

proof fn lemma_trimmed_bound(p: Seq<char>, n: int)
    requires
        0 <= n <= p.len(),
    ensures
        0 <= trimmed(p, n) <= n,
    decreases n,
{
    if n > 0 {
        lemma_trimmed_bound(p, n - 1);
    }
}

} // verus!
