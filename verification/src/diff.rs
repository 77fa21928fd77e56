//! Unified diffs as typed display rows.

use vstd::prelude::*;
use crate::text;
use crate::text::{find_char, from_chars, matches_at, to_chars};
use crate::views;

verus! {

broadcast use crate::views::group_views;

/// How a diff row is shown.
#[derive(Clone, Copy, Debug, PartialEq, Eq, Structural)]
pub enum DiffRowKind {
    /// Unchanged line.
    Context,
    Added,
    Removed,
    /// Hunk header, `@@ -a,b +c,d @@`.
    Hunk,
    /// File header.
    Header,
    /// A row that is no part of the diff.
    Info,
}

/// One display row of a diff.
#[derive(Debug)]
pub struct DiffRow {
    pub kind: DiffRowKind,
    pub text: String,
}

impl View for DiffRow {
    type V = (DiffRowKind, Seq<char>);

    open spec fn view(&self) -> (DiffRowKind, Seq<char>) {
        (self.kind, self.text@)
    }
}

impl Clone for DiffRow {
    fn clone(&self) -> (r: DiffRow)
        ensures
            r@ == self@,
    {
        DiffRow { kind: self.kind, text: self.text.clone() }
    }
}

/// A line without the carriage return before its newline.
pub open spec fn without_cr(line: Seq<char>) -> Seq<char> {
    if line.len() > 0 && line.last() == '\r' {
        line.drop_last()
    } else {
        line
    }
}

/// The lines of `t` from `i` on. A newline ends a line, and a carriage return
/// before it belongs to the ending.
pub open spec fn lines_from(t: Seq<char>, i: int) -> Seq<Seq<char>>
    decreases t.len() - i,
{
    if i < 0 || i >= t.len() {
        Seq::empty()
    } else {
        proof {
            text::lemma_first_char(t, '\n', i);
        }
        match text::first_char(t, '\n', i) {
            Some(k) => seq![without_cr(t.subrange(i, k))] + lines_from(t, k + 1),
            None => seq![t.subrange(i, t.len() as int)],
        }
    }
}

/// Splits text into lines.
pub fn split_lines(s: &str) -> (r: Vec<String>)
    ensures
        views::views(r@) == lines_from(s@, 0),
{
    let cs = to_chars(s);
    let n = cs.len();
    let ghost whole = lines_from(cs@, 0);
    let mut out: Vec<String> = Vec::new();
    let mut i: usize = 0;
    assert(views::views(out@) + lines_from(cs@, 0) =~= whole);
    while i < n
        invariant
            n == cs@.len(),
            i <= n,
            views::views(out@) + lines_from(cs@, i as int) == whole,
        decreases n - i,
    {
        let ghost prev = views::views(out@);
        match find_char(&cs, '\n', i) {
            Some(k) => {
                let e: usize = if k > i && cs[k - 1] == '\r' {
                    k - 1
                } else {
                    k
                };
                let line = from_chars(&cs, i, e);
                proof {
                    let full = cs@.subrange(i as int, k as int);
                    assert(line@ =~= without_cr(full));
                    let rest = lines_from(cs@, k + 1);
                    assert(prev + (seq![without_cr(full)] + rest) =~= prev.push(line@) + rest);
                }
                out.push(line);
                i = k + 1;
            },
            None => {
                let line = from_chars(&cs, i, n);
                proof {
                    assert(prev + seq![line@] =~= prev.push(line@) + Seq::empty());
                }
                out.push(line);
                i = n;
            },
        }
    }
    assert(views::views(out@) =~= whole);
    out
}

/// True of the lines of a file header.
pub open spec fn is_header(l: Seq<char>) -> bool {
    text::begins_with(l, "+++"@) || text::begins_with(l, "---"@) || text::begins_with(l, "diff "@)
        || text::begins_with(l, "index "@) || text::begins_with(l, "new file"@)
        || text::begins_with(l, "deleted file"@) || text::begins_with(l, "rename "@)
        || text::begins_with(l, "similarity "@)
}

/// The kind of a diff line, by its prefix.
pub open spec fn kind_of(l: Seq<char>) -> DiffRowKind {
    if text::begins_with(l, "@@"@) {
        DiffRowKind::Hunk
    } else if is_header(l) {
        DiffRowKind::Header
    } else if l.len() > 0 && l[0] == '+' {
        DiffRowKind::Added
    } else if l.len() > 0 && l[0] == '-' {
        DiffRowKind::Removed
    } else {
        DiffRowKind::Context
    }
}

fn begins(l: &[char], p: &str) -> (r: bool)
    ensures
        r == text::begins_with(l@, p@),
{
    let cs = to_chars(p);
    matches_at(l, &cs, 0)
}

fn classify(line: &str) -> (k: DiffRowKind)
    ensures
        k == kind_of(line@),
{
    let l = to_chars(line);
    if begins(&l, "@@") {
        DiffRowKind::Hunk
    } else if begins(&l, "+++") || begins(&l, "---") || begins(&l, "diff ") || begins(&l, "index ")
        || begins(&l, "new file") || begins(&l, "deleted file") || begins(&l, "rename ") || begins(
        &l,
        "similarity ",
    ) {
        DiffRowKind::Header
    } else if l.len() > 0 && l[0] == '+' {
        DiffRowKind::Added
    } else if l.len() > 0 && l[0] == '-' {
        DiffRowKind::Removed
    } else {
        DiffRowKind::Context
    }
}

/// The rows of a diff.
pub open spec fn diff_rows(lines: Seq<Seq<char>>) -> Seq<(DiffRowKind, Seq<char>)> {
    Seq::new(lines.len(), |i: int| (kind_of(lines[i]), lines[i]))
}

/// Parses a unified diff into typed rows, one for each line.
pub fn parse_unified_diff(diff: &str) -> (r: Vec<DiffRow>)
    ensures
        views::views(r@) == diff_rows(lines_from(diff@, 0)),
{
    let lines = split_lines(diff);
    let ghost lv = lines_from(diff@, 0);
    let mut out: Vec<DiffRow> = Vec::new();
    let mut i: usize = 0;
    while i < lines.len()
        invariant
            lv == views::views(lines@),
            i <= lines@.len(),
            views::views(out@) == diff_rows(lv).take(i as int),
        decreases lines@.len() - i,
    {
        out.push(DiffRow { kind: classify(&lines[i]), text: lines[i].clone() });
        i = i + 1;
        assert(views::views(out@) =~= diff_rows(lv).take(i as int));
    }
    assert(diff_rows(lv).take(i as int) =~= diff_rows(lv));
    out
}

/// True when a diff changes nothing: it has only header and informational rows.
pub open spec fn is_clean(rows: Seq<(DiffRowKind, Seq<char>)>) -> bool {
    forall|i: int|
        0 <= i < rows.len() ==> ((#[trigger] rows[i]).0 is Header || rows[i].0 is Info)
}

/// The rows shown for a diff: its own, or a note where it changes nothing.
pub open spec fn shown_rows(rows: Seq<(DiffRowKind, Seq<char>)>) -> Seq<(DiffRowKind, Seq<char>)> {
    if is_clean(rows) {
        seq![(DiffRowKind::Info, "✓ No uncommitted changes"@)]
    } else {
        rows
    }
}

/// Parses a diff for display.
pub fn lens_rows(diff: &str) -> (r: Vec<DiffRow>)
    ensures
        views::views(r@) == shown_rows(diff_rows(lines_from(diff@, 0))),
{
    let rows = parse_unified_diff(diff);
    let ghost rv = views::views(rows@);
    let mut clean = true;
    let mut i: usize = 0;
    while i < rows.len()
        invariant
            rv == views::views(rows@),
            i <= rows@.len(),
            clean == forall|j: int|
                0 <= j < i ==> ((#[trigger] rv[j]).0 is Header || rv[j].0 is Info),
        decreases rows@.len() - i,
    {
        let k = rows[i].kind;
        assert(rv[i as int].0 == k);
        if !matches!(k, DiffRowKind::Header) && !matches!(k, DiffRowKind::Info) {
            clean = false;
        }
        i = i + 1;
    }
    if clean {
        let mut note: Vec<DiffRow> = Vec::new();
        note.push(
            DiffRow { kind: DiffRowKind::Info, text: "✓ No uncommitted changes".to_string() },
        );
        assert(views::views(note@) =~= seq![(DiffRowKind::Info, "✓ No uncommitted changes"@)]);
        note
    } else {
        rows
    }
}

} // verus!
