//! Text picked with the mouse.

use vstd::prelude::*;
use crate::app;
use crate::app::{App, Selection};
use crate::markdown::Rendered;
use crate::reader;
use crate::style;
use crate::style::Line;
use crate::text;
use crate::text::{char_cols, digit_count, from_chars, space, to_chars};
use crate::views;

verus! {

broadcast use crate::views::group_views;

// ---------------------------------------------------------------------------
// Places in the body
// ---------------------------------------------------------------------------

impl app::Model {
    /// Columns of the line number gutter.
    pub open spec fn gutter(self) -> int {
        match self.doc() {
            Some(r) => if self.opts.line_numbers && r.rendered is Some {
                (text::decimal(r.total()).len() + 1) as int
            } else {
                0
            },
            None => 0,
        }
    }

    /// First line of the document or list on screen.
    pub open spec fn top(self) -> int {
        match self.view {
            app::Screen::Reader(r) => r.scroll as int,
            app::Screen::Browser(b) => b.scroll as int,
        }
    }

    /// Line and column of the content at a cell of the screen; `None` outside the
    /// body and in the gutter.
    pub open spec fn place_at(self, col: u16, row: u16) -> Option<(usize, u16)> {
        let body = self.viewport;
        if body.has(col, row) && col >= body.x + self.gutter() {
            Some(
                (
                    (self.top() + row - body.y) as usize,
                    (col - body.x - self.gutter()) as u16,
                ),
            )
        } else {
            None
        }
    }
}

impl App {
    /// Columns of the line number gutter.
    pub(crate) fn gutter(&self) -> (w: usize)
        ensures
            w == self@.gutter(),
            w <= 21,
    {
        match &self.view {
            app::View::Reader(r) => match &r.rendered {
                Some(rd) => if self.opts.line_numbers {
                    digit_count(rd.lines.len()) + 1
                } else {
                    0
                },
                None => 0,
            },
            app::View::Browser(_) => 0,
        }
    }

    /// Line and column of the content at a cell of the screen.
    pub fn body_pos(&self, col: u16, row: u16) -> (r: Option<(usize, u16)>)
        ensures
            r == self@.place_at(col, row),
    {
        let body = self.viewport;
        if !body.contains(col, row) {
            return None;
        }
        let w = self.gutter();
        if (col as usize) < body.x as usize + w {
            return None;
        }
        let top: usize = match &self.view {
            app::View::Reader(r) => r.scroll as usize,
            app::View::Browser(b) => b.scroll as usize,
        };
        Some((top + (row - body.y) as usize, (col as usize - body.x as usize - w) as u16))
    }
}

// ---------------------------------------------------------------------------
// Selected text
// ---------------------------------------------------------------------------

/// The characters of a span, from `i` on, that lie within the columns `from..to`,
/// where the first of them starts at `col`, and the column where that ends.
pub open spec fn span_part(t: Seq<char>, i: int, col: usize, from: usize, to: usize) -> (
    Seq<char>,
    usize,
)
    decreases t.len() - i,
{
    if i >= t.len() {
        (Seq::empty(), col)
    } else {
        let next = text::sat(col + text::cols(t[i]));
        let here = if col >= from && next <= to {
            seq![t[i]]
        } else {
            Seq::empty()
        };
        if next >= to {
            (here, next)
        } else {
            let (rest, end) = span_part(t, i + 1, next, from, to);
            (here + rest, end)
        }
    }
}

/// The characters of a line, from span `k` on, that lie within the columns
/// `from..to`, where that span starts at `col`.
pub open spec fn line_part(
    spans: Seq<style::SpanView>,
    k: int,
    col: usize,
    from: usize,
    to: usize,
) -> Seq<char>
    decreases spans.len() - k,
{
    if k >= spans.len() {
        Seq::empty()
    } else {
        let (here, end) = span_part(spans[k].content, 0, col, from, to);
        if end >= to {
            here
        } else {
            here + line_part(spans, k + 1, end, from, to)
        }
    }
}

/// The part of line `i` that a selection covers.
pub open spec fn line_selected(
    spans: Seq<style::SpanView>,
    i: int,
    start: (usize, u16),
    end: (usize, u16),
) -> Seq<char> {
    line_part(
        spans,
        0,
        0,
        if i == start.0 {
            start.1 as usize
        } else {
            0
        },
        if i == end.0 {
            end.1 as usize
        } else {
            usize::MAX
        },
    )
}

/// The text of a selection, from line `i` on, its lines parted by newlines. It
/// ends at `end` or with the last line.
pub open spec fn selected_from(
    lines: Seq<Seq<style::SpanView>>,
    i: int,
    start: (usize, u16),
    end: (usize, u16),
) -> Seq<char>
    decreases lines.len() - i,
{
    if i < 0 || i >= lines.len() || i > end.0 {
        Seq::empty()
    } else {
        let here = line_selected(lines[i], i, start, end);
        if i < end.0 && i + 1 < lines.len() {
            here + seq!['\n'] + selected_from(lines, i + 1, start, end)
        } else {
            here
        }
    }
}

impl reader::ReaderModel {
    /// The text that a selection covers.
    pub open spec fn selected_text(self, sel: Selection) -> Option<Seq<char>> {
        match self.rendered {
            Some(rd) => {
                let (start, end) = sel.ordered();
                Some(selected_from(rd.lines, start.0 as int, start, end))
            },
            None => None,
        }
    }
}

fn take_line(line: &Line, from: usize, to: usize, out: &mut String)
    ensures
        final(out)@ == old(out)@ + line_part(line@, 0, 0, from, to),
{
    let ghost before = out@;
    let ghost spans = line@;
    let ghost whole = line_part(spans, 0, 0, from, to);
    let mut col: usize = 0;
    let mut k: usize = 0;
    assert(before + whole =~= out@ + line_part(spans, 0, 0, from, to));
    while k < line.spans.len()
        invariant
            k <= line.spans@.len(),
            before == old(out)@,
            spans == line@,
            whole == line_part(spans, 0, 0, from, to),
            before + whole == out@ + line_part(spans, k as int, col, from, to),
        decreases line.spans@.len() - k,
    {
        let cs = to_chars(&line.spans[k].content);
        let ghost t = spans[k as int].content;
        let ghost entry = out@;
        let ghost entry_col = col;
        let ghost (part, part_end) = span_part(t, 0, col, from, to);
        let mut i: usize = 0;
        assert(entry + part =~= out@ + span_part(t, 0, col, from, to).0);
        while i < cs.len()
            invariant_except_break
                entry + part == out@ + span_part(t, i as int, col, from, to).0,
                part_end == span_part(t, i as int, col, from, to).1,
            invariant
                i <= cs@.len(),
                t == cs@,
            ensures
                out@ == entry + part,
                col == part_end,
            decreases cs@.len() - i,
        {
            let ghost prior = out@;
            let ghost later = span_part(t, i as int, col, from, to).0;
            let next = col.saturating_add(char_cols(cs[i]));
            if col >= from && next <= to {
                out.push(cs[i]);
            }
            let ghost here: Seq<char> = if col >= from && next <= to {
                seq![t[i as int]]
            } else {
                Seq::empty()
            };
            assert(out@ =~= prior + here);
            col = next;
            if col >= to {
                assert(out@ =~= entry + part);
                break;
            }
            i = i + 1;
            let ghost rest = span_part(t, i as int, col, from, to).0;
            assert(later == here + rest);
            assert(out@ + rest =~= prior + later);
        }
        let ghost tail = line_part(spans, k as int + 1, col, from, to);
        assert(before + whole == entry + line_part(spans, k as int, entry_col, from, to));
        if col >= to {
            assert(out@ =~= before + whole);
            return ;
        }
        k = k + 1;
        assert(out@ + tail =~= entry + (part + tail));
    }
    assert(out@ =~= before + whole);
}

/// Collects the text that a selection covers.
pub fn extract_selection_text(rd: &Rendered, sel: &Selection) -> (r: String)
    ensures
        r@ == selected_from(
            rd@.lines,
            sel.ordered().0.0 as int,
            sel.ordered().0,
            sel.ordered().1,
        ),
{
    let (start, end) = sel.normalized();
    let ghost lines = rd@.lines;
    let ghost whole = selected_from(lines, start.0 as int, start, end);
    let mut out = String::new();
    let mut i: usize = start.0;
    let n = rd.lines.len();
    assert(out@ + selected_from(lines, i as int, start, end) =~= whole);
    while i < n && i <= end.0
        invariant
            n == rd.lines@.len(),
            lines == rd@.lines,
            start.0 <= i,
            out@ + selected_from(lines, i as int, start, end) == whole,
        decreases n - i,
    {
        let ghost prior = out@;
        let ghost here = line_selected(lines[i as int], i as int, start, end);
        let from: usize = if i == start.0 {
            start.1 as usize
        } else {
            0
        };
        let to: usize = if i == end.0 {
            end.1 as usize
        } else {
            usize::MAX
        };
        take_line(&rd.lines[i], from, to, &mut out);
        if i < end.0 && i + 1 < n {
            out.push('\n');
        }
        i = i + 1;
        let ghost rest = selected_from(lines, i as int, start, end);
        assert(out@ + rest =~= prior + selected_from(lines, i - 1, start, end));
    }
    assert(out@ =~= whole);
    out
}

// ---------------------------------------------------------------------------
// The word under a cell
// ---------------------------------------------------------------------------

/// Whether a character is stripped from the ends of a word.
pub open spec fn is_edge(c: char) -> bool {
    &&& ('!' <= c <= '/' || ':' <= c <= '@' || '[' <= c <= '`' || '{' <= c <= '~')
    &&& c != '_' && c != '-' && c != '/' && c != '.' && c != '#'
}

/// The character at a display column, from `i` on, where that one starts at `col`.
/// A character without a width counts as one column wide here.
pub open spec fn hit_index(t: Seq<char>, i: int, col: int, target: int) -> Option<int>
    decreases t.len() - i,
{
    if i >= t.len() {
        None
    } else {
        let w = text::cols(t[i]);
        if target < col + (if w > 1 {
            w as int
        } else {
            1
        }) {
            Some(i)
        } else {
            hit_index(t, i + 1, col + w, target)
        }
    }
}

/// Start of the run without whitespace that ends before `i`.
pub open spec fn run_start(t: Seq<char>, i: int) -> int
    decreases i,
{
    if i <= 0 || text::is_space(t[i - 1]) {
        i
    } else {
        run_start(t, i - 1)
    }
}

/// End of the run without whitespace that starts at `i`.
pub open spec fn run_end(t: Seq<char>, i: int) -> int
    decreases t.len() - i,
{
    if i >= t.len() || text::is_space(t[i]) {
        i
    } else {
        run_end(t, i + 1)
    }
}

/// First character from `i` on, before `end`, that stays.
pub open spec fn edge_start(t: Seq<char>, i: int, end: int) -> int
    decreases end - i,
{
    if i < end && is_edge(t[i]) {
        edge_start(t, i + 1, end)
    } else {
        i
    }
}

/// End of what stays before `end`, from `i` on.
pub open spec fn edge_end(t: Seq<char>, i: int, end: int) -> int
    decreases end - i,
{
    if i < end && is_edge(t[end - 1]) {
        edge_end(t, i, end - 1)
    } else {
        end
    }
}

/// The word at a display column: the run without whitespace that covers it, less
/// punctuation at its ends.
pub open spec fn word_at(t: Seq<char>, target: int) -> Option<Seq<char>> {
    match hit_index(t, 0, 0, target) {
        Some(hit) => if text::is_space(t[hit]) {
            None
        } else {
            let a = run_start(t, hit);
            let b = run_end(t, hit);
            let from = edge_start(t, a, b);
            let to = edge_end(t, from, b);
            if from < to {
                Some(t.subrange(from, to))
            } else {
                None
            }
        },
        None => None,
    }
}

fn edge(c: char) -> (r: bool)
    ensures
        r == is_edge(c),
{
    (('!' <= c && c <= '/') || (':' <= c && c <= '@') || ('[' <= c && c <= '`') || ('{' <= c && c
        <= '~')) && c != '_' && c != '-' && c != '/' && c != '.' && c != '#'
}

fn find_hit(cs: &[char], target: usize) -> (r: Option<usize>)
    ensures
        match r {
            Some(i) => i < cs@.len() && hit_index(cs@, 0, 0, target as int) == Some(i as int),
            None => hit_index(cs@, 0, 0, target as int) is None,
        },
{
    let mut col: usize = 0;
    let mut i: usize = 0;
    while i < cs.len()
        invariant
            i <= cs@.len(),
            col <= target,
            hit_index(cs@, 0, 0, target as int) == hit_index(
                cs@,
                i as int,
                col as int,
                target as int,
            ),
        decreases cs@.len() - i,
    {
        let w = char_cols(cs[i]);
        let wide: usize = if w > 1 {
            w
        } else {
            1
        };
        if target - col < wide {
            return Some(i);
        }
        col = col + w;
        i = i + 1;
    }
    None
}

/// The word under a display column of a line.
pub fn word_at_col(line: &str, target_col: usize) -> (r: Option<String>)
    ensures
        views::opt_view(r) == word_at(line@, target_col as int),
{
    let cs = to_chars(line);
    let n = cs.len();
    let hit = match find_hit(&cs, target_col) {
        Some(i) => i,
        None => {
            return None;
        },
    };
    if space(cs[hit]) {
        return None;
    }
    let mut a: usize = hit;
    while a > 0 && !space(cs[a - 1])
        invariant
            n == cs@.len(),
            a <= hit < n,
            run_start(cs@, hit as int) == run_start(cs@, a as int),
        decreases a,
    {
        a = a - 1;
    }
    let mut b: usize = hit;
    while b < n && !space(cs[b])
        invariant
            n == cs@.len(),
            hit <= b <= n,
            run_end(cs@, hit as int) == run_end(cs@, b as int),
        decreases n - b,
    {
        b = b + 1;
    }
    let mut from: usize = a;
    while from < b && edge(cs[from])
        invariant
            n == cs@.len(),
            a <= from <= b <= n,
            edge_start(cs@, a as int, b as int) == edge_start(cs@, from as int, b as int),
        decreases b - from,
    {
        from = from + 1;
    }
    let mut to: usize = b;
    while from < to && edge(cs[to - 1])
        invariant
            n == cs@.len(),
            from <= to <= b <= n,
            edge_end(cs@, from as int, b as int) == edge_end(cs@, from as int, to as int),
        decreases to,
    {
        to = to - 1;
    }
    if from < to {
        Some(from_chars(&cs, from, to))
    } else {
        None
    }
}

/// The word at a column lies in the line, has no whitespace in it and neither
/// starts nor ends with punctuation that words do without.
pub proof fn law_word_is_clean(t: Seq<char>, target: int)
    requires
        word_at(t, target) is Some,
    ensures
        ({
            let w = word_at(t, target)->0;
            &&& w.len() > 0
            &&& !is_edge(w[0])
            &&& !is_edge(w.last())
            &&& forall|i: int| 0 <= i < w.len() ==> !text::is_space(#[trigger] w[i])
            &&& exists|at: int| text::occurs_at(t, w, at)
        }),
{
    lemma_hit_index(t, 0, 0, target);
    let hit = hit_index(t, 0, 0, target)->0;
    lemma_run_start(t, hit);
    lemma_run_end(t, hit);
    let a = run_start(t, hit);
    let b = run_end(t, hit);
    lemma_edge_start(t, a, b);
    let from = edge_start(t, a, b);
    lemma_edge_end(t, from, b);
    let to = edge_end(t, from, b);
    let w = word_at(t, target)->0;
    assert(w == t.subrange(from, to));
    assert forall|i: int| 0 <= i < w.len() implies !text::is_space(#[trigger] w[i]) by {
        assert(w[i] == t[from + i]);
    }
    assert(text::occurs_at(t, w, from));
}

proof fn lemma_hit_index(t: Seq<char>, i: int, col: int, target: int)
    requires
        0 <= i,
    ensures
        hit_index(t, i, col, target) matches Some(h) ==> i <= h < t.len(),
    decreases t.len() - i,
{
    if i < t.len() {
        lemma_hit_index(t, i + 1, col + text::cols(t[i]), target);
    }
}

proof fn lemma_run_start(t: Seq<char>, i: int)
    requires
        0 <= i <= t.len(),
    ensures
        0 <= run_start(t, i) <= i,
        forall|j: int| run_start(t, i) <= j < i ==> !text::is_space(#[trigger] t[j]),
    decreases i,
{
    if i > 0 && !text::is_space(t[i - 1]) {
        lemma_run_start(t, i - 1);
    }
}

proof fn lemma_run_end(t: Seq<char>, i: int)
    requires
        0 <= i <= t.len(),
    ensures
        i <= run_end(t, i) <= t.len(),
        forall|j: int| i <= j < run_end(t, i) ==> !text::is_space(#[trigger] t[j]),
    decreases t.len() - i,
{
    if i < t.len() && !text::is_space(t[i]) {
        lemma_run_end(t, i + 1);
    }
}

proof fn lemma_edge_start(t: Seq<char>, i: int, end: int)
    requires
        0 <= i <= end <= t.len(),
    ensures
        i <= edge_start(t, i, end) <= end,
        edge_start(t, i, end) < end ==> !is_edge(t[edge_start(t, i, end)]),
    decreases end - i,
{
    if i < end && is_edge(t[i]) {
        lemma_edge_start(t, i + 1, end);
    }
}

proof fn lemma_edge_end(t: Seq<char>, i: int, end: int)
    requires
        0 <= i <= end <= t.len(),
    ensures
        i <= edge_end(t, i, end) <= end,
        edge_end(t, i, end) > i ==> !is_edge(t[edge_end(t, i, end) - 1]),
    decreases end - i,
{
    if i < end && is_edge(t[end - 1]) {
        lemma_edge_end(t, i, end - 1);
    }
}

} // verus!
