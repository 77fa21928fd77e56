//! How wrapping divides text into lines.

use vstd::prelude::*;
use crate::laws_shown::{lemma_shown_push, shown};
use crate::laws_tables::texts;
use crate::links;
use crate::style;
use crate::style::Style;
use crate::text;
use crate::wrap;
use crate::wrap::PendingCheckbox;

verus! {

/// Whether a text is white space alone.
pub open spec fn is_blank(t: Seq<char>) -> bool {
    forall|k: int| 0 <= k < t.len() ==> text::is_space(#[trigger] t[k])
}

/// Whether `ls` are the lines of a text: the text is the lines one after the other, with
/// nothing but white space left out, and that only before a line.
pub open spec fn is_parted(t: Seq<char>, ls: Seq<Seq<char>>) -> bool
    decreases ls.len(),
{
    if ls.len() == 0 {
        t.len() == 0
    } else {
        exists|h: int| #[trigger] parts_at(t, ls.last(), h) && is_parted(t.take(h), ls.drop_last())
    }
}

/// Whether a text from `h` on is white space and then a line.
pub open spec fn parts_at(t: Seq<char>, line: Seq<char>, h: int) -> bool {
    let m = t.len() - line.len();
    &&& 0 <= h <= m
    &&& t.skip(m) == line
    &&& is_blank(t.subrange(h, m))
}

proof fn lemma_parted_put(t: Seq<char>, ls: Seq<Seq<char>>, c: Seq<char>)
    requires
        ls.len() > 0,
        is_parted(t, ls),
    ensures
        is_parted(t + c, ls.drop_last().push(ls.last() + c)),
{
    let h = choose|h: int|
        #[trigger] parts_at(t, ls.last(), h) && is_parted(t.take(h), ls.drop_last());
    let m = t.len() - ls.last().len();
    let next = ls.drop_last().push(ls.last() + c);
    assert((t + c).skip(m) =~= t.skip(m) + c);
    assert((t + c).subrange(h, m) =~= t.subrange(h, m));
    assert((t + c).take(h) =~= t.take(h));
    assert(next.drop_last() =~= ls.drop_last());
    assert(parts_at(t + c, next.last(), h));
}

proof fn lemma_parted_skip(t: Seq<char>, ls: Seq<Seq<char>>, w: Seq<char>)
    requires
        ls.len() > 0,
        ls.last().len() == 0,
        is_blank(w),
        is_parted(t, ls),
    ensures
        is_parted(t + w, ls),
{
    let h = choose|h: int|
        #[trigger] parts_at(t, ls.last(), h) && is_parted(t.take(h), ls.drop_last());
    let n = t.len() as int;
    assert((t + w).skip(n + w.len()) =~= Seq::<char>::empty());
    assert(ls.last() =~= Seq::<char>::empty());
    assert((t + w).subrange(h, n + w.len()) =~= t.subrange(h, n) + w);
    assert((t + w).take(h) =~= t.take(h));
    assert(is_blank(t.subrange(h, n)));
    let g = t.subrange(h, n);
    assert forall|k: int| 0 <= k < (g + w).len() implies text::is_space(#[trigger] (g + w)[k]) by {
        if k < g.len() {
            assert(text::is_space(g[k]));
        } else {
            assert(text::is_space(w[k - g.len()]));
        }
    }
    assert(parts_at(t + w, ls.last(), h));
}

proof fn lemma_parted_break(t: Seq<char>, ls: Seq<Seq<char>>, w: Seq<char>)
    requires
        is_blank(w),
        is_parted(t, ls),
    ensures
        is_parted(t + w, ls.push(Seq::empty())),
{
    let next = ls.push(Seq::<char>::empty());
    let n = t.len() as int;
    assert((t + w).skip(n + w.len()) =~= Seq::<char>::empty());
    assert((t + w).subrange(n, n + w.len()) =~= w);
    assert((t + w).take(n) =~= t);
    assert(next.drop_last() =~= ls);
    assert(parts_at(t + w, next.last(), n));
}

/// A block in progress: the number of lines before it, and the spans of its first prefix.
struct Block {
    before: nat,
    first: nat,
}

impl Block {
    /// The text of a line of the block beside its prefix.
    spec fn text(self, p: wrap::PenView, f: wrap::FrameView, i: int) -> Seq<char> {
        let line = if self.before + i < p.lines.len() {
            p.lines[self.before + i]
        } else {
            p.spans
        };
        shown(
            line.skip(
                if i == 0 {
                    self.first as int
                } else {
                    f.hanging.len() as int
                },
            ),
        )
    }

    /// The texts of the block's lines, that of the line in progress last.
    spec fn body(self, p: wrap::PenView, f: wrap::FrameView) -> Seq<Seq<char>> {
        Seq::new((p.lines.len() - self.before + 1) as nat, |i: int| self.text(p, f, i))
    }

    spec fn own(self, p: wrap::PenView, f: wrap::FrameView) -> nat {
        if p.lines.len() == self.before {
            self.first
        } else {
            f.hanging.len()
        }
    }

    spec fn stands(self, p: wrap::PenView, f: wrap::FrameView) -> bool {
        &&& self.before <= p.lines.len()
        &&& self.own(p, f) <= p.spans.len()
        &&& p.at_line_start ==> self.own(p, f) == p.spans.len()
    }

    /// Whether the block so far shows a text.
    spec fn shows(self, p: wrap::PenView, f: wrap::FrameView, t: Seq<char>) -> bool {
        &&& self.stands(p, f)
        &&& is_parted(t, self.body(p, f))
    }
}

proof fn lemma_put(k: Block, p: wrap::PenView, f: wrap::FrameView, t: Seq<char>, s: Style, c: Seq<char>)
    requires
        k.shows(p, f, t),
    ensures
        k.shows(p.put(s, c), f, t + c),
{
    let q = p.put(s, c);
    let n = k.own(p, f) as int;
    let b = k.body(p, f);
    assert(q.spans.skip(n) =~= p.spans.skip(n).push(style::span(c, s)));
    lemma_shown_push(p.spans.skip(n), style::span(c, s));
    assert(k.body(q, f) =~= b.drop_last().push(b.last() + c));
    lemma_parted_put(t, b, c);
}

proof fn lemma_broken(k: Block, p: wrap::PenView, f: wrap::FrameView, t: Seq<char>, w: Seq<char>)
    requires
        k.shows(p, f, t),
        is_blank(w),
    ensures
        k.shows(p.broken(f), f, t + w),
{
    let q = p.broken(f);
    let b = k.body(p, f);
    assert(q.lines == p.lines.push(p.spans));
    assert(f.hanging.skip(f.hanging.len() as int) =~= Seq::empty());
    assert(shown(f.hanging.skip(f.hanging.len() as int)) =~= Seq::<char>::empty());
    assert(k.body(q, f) =~= b.push(Seq::empty())) by {
        assert forall|i: int| 0 <= i < b.len() implies k.text(q, f, i) == k.text(p, f, i) by {}
        assert(k.text(q, f, b.len() as int) == Seq::<char>::empty());
    }
    lemma_parted_break(t, b, w);
}

proof fn lemma_skip(k: Block, p: wrap::PenView, f: wrap::FrameView, t: Seq<char>, w: Seq<char>)
    requires
        k.shows(p, f, t),
        p.at_line_start,
        is_blank(w),
    ensures
        k.shows(p, f, t + w),
{
    let b = k.body(p, f);
    let n = k.own(p, f) as int;
    assert(p.spans.skip(n) =~= Seq::empty());
    assert(shown(p.spans.skip(n)) =~= Seq::<char>::empty());
    lemma_parted_skip(t, b, w);
}

proof fn lemma_split(
    k: Block,
    p: wrap::PenView,
    f: wrap::FrameView,
    t: Seq<char>,
    s: Style,
    word: Seq<char>,
    i: int,
)
    requires
        k.shows(p, f, t),
        0 <= i <= word.len(),
    ensures
        k.shows(p.split(f, s, word, i), f, t + word.skip(i)),
    decreases word.len() - i,
{
    let none = Seq::<char>::empty();
    if i == word.len() {
        assert(t + word.skip(i) =~= t);
    } else {
        let p1 = if p.avail() == 0 && !p.at_line_start {
            p.broken(f)
        } else {
            p
        };
        lemma_broken(k, p, f, t, none);
        assert(t + none =~= t);
        let limit: int = if p1.avail() == 0 {
            1
        } else {
            p1.avail() as int
        };
        lemma_fit_end_range(word, i, 0, limit);
        let fit = wrap::fit_end(word, i, 0, limit);
        let e = if fit <= i {
            i + 1
        } else {
            fit
        };
        let c = word.subrange(i, e);
        lemma_put(k, p1, f, t, s, c);
        let q = p1.put(s, c);
        if e < word.len() {
            lemma_broken(k, q, f, t + c, none);
            assert(t + c + none =~= t + c);
            lemma_split(k, q.broken(f), f, t + c, s, word, e);
            assert(t + c + word.skip(e) =~= t + word.skip(i));
        } else {
            assert(c =~= word.skip(i));
        }
    }
}

proof fn lemma_fit_end_range(t: Seq<char>, i: int, used: int, limit: int)
    requires
        0 <= i <= t.len(),
    ensures
        i <= wrap::fit_end(t, i, used, limit) <= t.len(),
    decreases t.len() - i,
{
    if i < t.len() && used + text::display_width(seq![t[i]]) <= limit {
        lemma_fit_end_range(t, i + 1, used + text::display_width(seq![t[i]]), limit);
    }
}

proof fn lemma_placed(
    k: Block,
    p: wrap::PenView,
    f: wrap::FrameView,
    t: Seq<char>,
    s: Style,
    word: Seq<char>,
)
    requires
        k.shows(p, f, t),
        word.len() > 0,
        text::is_space(word[0]) ==> is_blank(word),
    ensures
        k.shows(p.placed(f, s, word), f, t + word),
{
    let none = Seq::<char>::empty();
    let w = text::display_width(word);
    assert(t + none =~= t);
    if text::is_space(word[0]) {
        if p.at_line_start {
            lemma_skip(k, p, f, t, word);
        } else if p.inner + w > p.room {
            lemma_broken(k, p, f, t, word);
        } else {
            lemma_put(k, p, f, t, s, word);
        }
    } else if w > p.room {
        lemma_split(k, p, f, t, s, word, 0);
        assert(word.skip(0) =~= word);
    } else if p.inner + w > p.room && !p.at_line_start {
        lemma_broken(k, p, f, t, none);
        lemma_put(k, p.broken(f), f, t, s, word);
    } else {
        lemma_put(k, p, f, t, s, word);
    }
}

/// A stretch is white space throughout or not at all.
proof fn lemma_chunk(t: Seq<char>, i: int, j: int)
    requires
        0 <= i < j <= t.len(),
        forall|x: int| i <= x < j ==> text::is_space(#[trigger] t[x]) == text::is_space(t[i]),
    ensures
        j <= wrap::chunk_end(t, i, j) <= t.len(),
        forall|x: int|
            i <= x < wrap::chunk_end(t, i, j) ==> text::is_space(#[trigger] t[x])
                == text::is_space(t[i]),
    decreases t.len() - j,
{
    if j < t.len() && text::is_space(t[j]) == text::is_space(t[i]) {
        lemma_chunk(t, i, j + 1);
    }
}

proof fn lemma_segment(
    k: Block,
    p: wrap::PenView,
    f: wrap::FrameView,
    t: Seq<char>,
    s: Style,
    u: Seq<char>,
    i: int,
)
    requires
        k.shows(p, f, t),
        0 <= i <= u.len(),
    ensures
        k.shows(p.segment(f, s, u, i), f, t + u.skip(i)),
    decreases u.len() - i,
{
    if i == u.len() {
        assert(t + u.skip(i) =~= t);
    } else {
        lemma_chunk(u, i, i + 1);
        let e = wrap::chunk_end(u, i, i + 1);
        let word = u.subrange(i, e);
        if text::is_space(word[0]) {
            assert forall|x: int| 0 <= x < word.len() implies text::is_space(
                #[trigger] word[x],
            ) by {
                assert(word[x] == u[i + x]);
            }
        }
        lemma_placed(k, p, f, t, s, word);
        lemma_segment(k, p.placed(f, s, word), f, t + word, s, u, e);
        assert(t + word + u.skip(e) =~= t + u.skip(i));
    }
}

proof fn lemma_flowed(
    k: Block,
    p: wrap::PenView,
    f: wrap::FrameView,
    t: Seq<char>,
    s: Style,
    u: Seq<char>,
    i: int,
)
    requires
        k.shows(p, f, t),
        0 <= i <= u.len(),
    ensures
        k.shows(p.flowed(f, s, u, i), f, t + u.skip(i)),
    decreases u.len() - i,
{
    if i == u.len() {
        assert(t + u.skip(i) =~= t);
    } else {
        text::lemma_first_char(u, '\n', i);
        match text::first_char(u, '\n', i) {
            Some(j) => {
                let part = u.subrange(i, j);
                lemma_segment(k, p, f, t, s, part, 0);
                assert(part.skip(0) =~= part);
                let q = p.segment(f, s, part, 0);
                let nl = seq!['\n'];
                lemma_broken(k, q, f, t + part, nl);
                lemma_flowed(k, q.broken(f), f, t + part + nl, s, u, j + 1);
                assert(t + part + nl + u.skip(j + 1) =~= t + u.skip(i));
            },
            None => {
                let part = u.subrange(i, u.len() as int);
                lemma_segment(k, p, f, t, s, part, 0);
                assert(part.skip(0) =~= part);
                assert(part =~= u.skip(i));
            },
        }
    }
}

proof fn lemma_runs(
    k: Block,
    p: wrap::PenView,
    f: wrap::FrameView,
    t: Seq<char>,
    rs: Seq<wrap::RunView>,
)
    requires
        k.shows(p, f, t),
    ensures
        k.shows(p.runs(f, rs), f, t + texts(rs).flatten()),
    decreases rs.len(),
{
    if rs.len() == 0 {
        assert(texts(rs).flatten() =~= Seq::<char>::empty());
        assert(t + Seq::<char>::empty() =~= t);
    } else {
        let init = rs.drop_last();
        let r = rs.last();
        lemma_runs(k, p, f, t, init);
        let a = p.runs(f, init);
        let b = a.pinned(r.image).linked(f, r.link);
        let u = t + texts(init).flatten();
        assert(b.lines == a.lines && b.spans == a.spans && b.at_line_start == a.at_line_start);
        assert(k.body(b, f) =~= k.body(a, f));
        lemma_flowed(k, b, f, u, r.style, r.text, 0);
        let c = b.flowed(f, r.style, r.text, 0);
        let d = c.boxed(f, a, r);
        assert(d.lines == c.lines && d.spans == c.spans && d.at_line_start == c.at_line_start);
        assert(k.body(d, f) =~= k.body(c, f));
        assert(r.text.skip(0) =~= r.text);
        assert(texts(rs) =~= texts(init).push(r.text));
        texts(init).lemma_flatten_push(r.text);
        assert(u + r.text =~= t + texts(rs).flatten());
    }
}

/// The texts of the lines of a block beside their prefixes: `first` spans on the first line
/// and `more` on the others.
pub open spec fn bare_lines(
    lines: Seq<Seq<style::SpanView>>,
    first: nat,
    more: nat,
) -> Seq<Seq<char>> {
    Seq::new(
        lines.len(),
        |i: int|
            shown(
                lines[i].skip(
                    if i == 0 {
                        first as int
                    } else {
                        more as int
                    },
                ),
            ),
    )
}

/// Wrapping divides a text into lines and leaves out nothing but white space between them:
/// within a line the text stands as it was, its spaces too.
pub proof fn law_wrapping_parts_the_text(
    p: wrap::PenView,
    runs: Seq<wrap::RunView>,
    prefix: Seq<wrap::RunView>,
    hanging: Seq<wrap::RunView>,
    width: usize,
    targets: Seq<links::TargetView>,
    boxes: Seq<PendingCheckbox>,
)
    ensures
        ({
            let q = p.wrapped(runs, prefix, hanging, width, targets, boxes);
            let block = q.lines.skip(p.lines.len() as int);
            is_parted(texts(runs).flatten(), bare_lines(block, prefix.len(), hanging.len()))
        }),
{
    let f = wrap::frame_view(hanging, width, targets, boxes);
    let k = Block { before: p.lines.len(), first: prefix.len() };
    let a = p.started(prefix, width);
    let none = Seq::<char>::empty();
    assert(a.spans.skip(prefix.len() as int) =~= Seq::empty());
    assert(shown(a.spans.skip(prefix.len() as int)) =~= none);
    assert(k.body(a, f) =~= seq![none]);
    lemma_parted_break(none, Seq::empty(), none);
    assert(Seq::<Seq<char>>::empty().push(none) =~= seq![none]);
    assert(none + none =~= none);
    lemma_runs(k, a, f, none, runs);
    let b = a.runs(f, runs);
    let q = b.ended(f);
    let block = q.lines.skip(p.lines.len() as int);
    assert(q.lines == b.lines.push(b.spans));
    assert(none + texts(runs).flatten() =~= texts(runs).flatten());
    assert(bare_lines(block, prefix.len(), hanging.len()) =~= k.body(b, f));
}

// ---------------------------------------------------------------------------
// Text that fits
// ---------------------------------------------------------------------------

/// Whether a text was put behind what a line held, with nothing else changed.
spec fn goes_on(p: wrap::PenView, q: wrap::PenView, u: Seq<char>) -> bool {
    &&& q.lines == p.lines
    &&& q.links == p.links
    &&& q.boxes == p.boxes
    &&& q.link == p.link
    &&& q.link_start == p.link_start
    &&& q.room == p.room
    &&& shown(q.spans) == shown(p.spans) + u
    &&& q.col == p.col + u.len()
    &&& q.inner == p.inner + u.len()
    &&& q.at_line_start == (p.at_line_start && u.len() == 0)
}

proof fn lemma_printable_part(u: Seq<char>, i: int, e: int)
    requires
        text::is_printable(u),
        0 <= i <= e <= u.len(),
        u.len() <= usize::MAX,
    ensures
        text::display_width(u.subrange(i, e)) == e - i,
{
    let w = u.subrange(i, e);
    reveal(text::display_width);
    assert forall|k: int| 0 <= k < w.len() implies text::is_printable_ascii(#[trigger] w[k]) by {
        assert(w[k] == u[i + k]);
    }
}

proof fn lemma_segment_fits(p: wrap::PenView, f: wrap::FrameView, s: Style, u: Seq<char>, i: int)
    requires
        0 <= i <= u.len(),
        text::is_printable(u),
        p.inner + (u.len() - i) <= p.room,
        p.col + (u.len() - i) <= usize::MAX,
        p.at_line_start && i < u.len() ==> !text::is_space(u[i]),
        u.len() <= usize::MAX,
    ensures
        goes_on(p, p.segment(f, s, u, i), u.skip(i)),
    decreases u.len() - i,
{
    if i == u.len() {
        assert(shown(p.spans) + u.skip(i) =~= shown(p.spans));
    } else {
        lemma_chunk(u, i, i + 1);
        let e = wrap::chunk_end(u, i, i + 1);
        let word = u.subrange(i, e);
        lemma_printable_part(u, i, e);
        let q = p.placed(f, s, word);
        assert(q == p.put(s, word));
        lemma_shown_push(p.spans, style::span(word, s));
        lemma_segment_fits(q, f, s, u, e);
        assert(shown(p.spans) + word + u.skip(e) =~= shown(p.spans) + u.skip(i));
    }
}

proof fn lemma_flowed_fits(p: wrap::PenView, f: wrap::FrameView, s: Style, u: Seq<char>)
    requires
        text::is_printable(u),
        p.inner + u.len() <= p.room,
        p.col + u.len() <= usize::MAX,
        p.at_line_start && 0 < u.len() ==> !text::is_space(u[0]),
    ensures
        goes_on(p, p.flowed(f, s, u, 0), u),
{
    if u.len() == 0 {
        assert(shown(p.spans) + u =~= shown(p.spans));
    } else {
        text::lemma_first_char(u, '\n', 0);
        assert(text::first_char(u, '\n', 0) is None) by {
            if let Some(k) = text::first_char(u, '\n', 0) {
                assert(text::is_printable_ascii(u[k]));
            }
        }
        assert(u.subrange(0, u.len() as int) =~= u);
        lemma_segment_fits(p, f, s, u, 0);
        assert(u.skip(0) =~= u);
    }
}

/// The link that the character at `c` of runs side by side belongs to.
pub open spec fn link_of(rs: Seq<wrap::RunView>, c: int) -> Option<usize>
    decreases rs.len(),
{
    if rs.len() == 0 {
        None
    } else if c >= texts(rs.drop_last()).flatten().len() {
        rs.last().link
    } else {
        link_of(rs.drop_last(), c)
    }
}

/// Whether one of some links covers a column and leads to a target.
pub open spec fn link_covers(
    ls: Seq<links::LinkSpanView>,
    line: int,
    col: int,
    target: links::TargetView,
) -> bool {
    exists|k: int|
        {
            &&& 0 <= k < ls.len()
            &&& (#[trigger] ls[k]).line == line
            &&& ls[k].col_start <= col < ls[k].col_end
            &&& ls[k].target == target
        }
}

/// Whether a character belongs to a link to a target.
pub open spec fn leads_to(
    rs: Seq<wrap::RunView>,
    c: int,
    targets: Seq<links::TargetView>,
    target: links::TargetView,
) -> bool {
    match link_of(rs, c) {
        Some(li) => li < targets.len() && targets[li as int] == target,
        None => false,
    }
}

/// The task markers among runs that begin at column `col` of a line.
pub open spec fn boxes_among(
    rs: Seq<wrap::RunView>,
    line: int,
    col: int,
    boxes: Seq<PendingCheckbox>,
) -> Seq<links::CheckboxSpan>
    decreases rs.len(),
{
    if rs.len() == 0 {
        Seq::empty()
    } else {
        let before = boxes_among(rs.drop_last(), line, col, boxes);
        let from = col + texts(rs.drop_last()).flatten().len();
        match rs.last().checkbox {
            Some(b) if b < boxes.len() && rs.last().text.len() > 0 => before.push(
                links::CheckboxSpan {
                    line: line as usize,
                    col_start: from as usize,
                    col_end: (from + rs.last().text.len()) as usize,
                    source_offset: boxes[b as int].source_offset,
                    checked: boxes[b as int].checked,
                },
            ),
            _ => before,
        }
    }
}

/// A line in progress: the pen before the block, and the columns and text of its prefix.
struct Strip {
    p: wrap::PenView,
    pw: usize,
    front: Seq<char>,
}

impl Strip {
    /// Whether the columns up to `end` are covered by those of the links behind the first
    /// ones that the runs say.
    spec fn links_right(
        self,
        ls: Seq<links::LinkSpanView>,
        rs: Seq<wrap::RunView>,
        targets: Seq<links::TargetView>,
        end: int,
    ) -> bool {
        let n = self.p.links.len() as int;
        let row = self.p.lines.len() as int;
        &&& self.p.links.is_prefix_of(ls)
        &&& forall|k: int|
            n <= k < ls.len() ==> (#[trigger] ls[k]).line == row && ls[k].col_end <= end
        &&& forall|c: int, t: links::TargetView|
            0 <= c < end - self.pw ==> (#[trigger] link_covers(ls.skip(n), row, self.pw + c, t)
                <==> leads_to(rs, c, targets, t))
    }

    spec fn holds(
        self,
        q: wrap::PenView,
        f: wrap::FrameView,
        rs: Seq<wrap::RunView>,
        width: usize,
    ) -> bool {
        let flat = texts(rs).flatten();
        let open = if q.link is Some {
            q.link_start as int
        } else {
            q.col as int
        };
        &&& q.lines == self.p.lines
        &&& shown(q.spans) == self.front + flat
        &&& q.col == self.pw + flat.len()
        &&& q.inner == flat.len()
        &&& q.room == width - self.pw
        &&& q.at_line_start == (flat.len() == 0)
        &&& self.pw <= open <= q.col
        &&& self.links_right(q.links, rs, f.targets, open)
        &&& forall|c: int| open - self.pw <= c < flat.len() ==> link_of(rs, c) == q.link
        &&& q.boxes == self.p.boxes + boxes_among(
            rs,
            self.p.lines.len() as int,
            self.pw as int,
            f.checkboxes,
        )
    }
}

/// Closing the link in progress leaves the columns up to the pen right.
proof fn lemma_close(
    s: Strip,
    q: wrap::PenView,
    f: wrap::FrameView,
    rs: Seq<wrap::RunView>,
    width: usize,
)
    requires
        s.holds(q, f, rs, width),
        s.p.lines.len() <= usize::MAX,
    ensures
        s.links_right(q.link_closed(f).links, rs, f.targets, q.col as int),
{
    let n = s.p.links.len() as int;
    let row = s.p.lines.len() as int;
    let a = q.links;
    let b = q.link_closed(f).links;
    let flat = texts(rs).flatten();
    let open = if q.link is Some {
        q.link_start as int
    } else {
        q.col as int
    };
    assert(s.p.links =~= b.subrange(0, n)) by {
        assert(s.p.links =~= a.subrange(0, n));
    }
    assert forall|c: int, t: links::TargetView| 0 <= c < q.col - s.pw implies (
    #[trigger] link_covers(b.skip(n), row, s.pw + c, t) <==> leads_to(
        rs,
        c,
        f.targets,
        t,
    )) by {
        let col = s.pw + c;
        if link_covers(a.skip(n), row, col, t) {
            let k = choose|k: int|
                0 <= k < a.skip(n).len() && (#[trigger] a.skip(n)[k]).line == row
                    && a.skip(n)[k].col_start <= col < a.skip(n)[k].col_end
                    && a.skip(n)[k].target == t;
            assert(b.skip(n)[k] == a.skip(n)[k]);
            assert(a[n + k] == a.skip(n)[k]);
            assert(link_covers(b.skip(n), row, col, t));
        }
        if link_covers(b.skip(n), row, col, t) {
            let k = choose|k: int|
                0 <= k < b.skip(n).len() && (#[trigger] b.skip(n)[k]).line == row
                    && b.skip(n)[k].col_start <= col < b.skip(n)[k].col_end
                    && b.skip(n)[k].target == t;
            if n + k < a.len() {
                assert(a.skip(n)[k] == b.skip(n)[k]);
                assert(link_covers(a.skip(n), row, col, t));
                assert(a[n + k].col_end <= open);
            } else {
                assert(open - s.pw <= c);
                assert(link_of(rs, c) == q.link);
            }
        }
        if c >= open - s.pw {
            assert(link_of(rs, c) == q.link);
            if leads_to(rs, c, f.targets, t) {
                assert(b.len() == a.len() + 1);
                let k = a.len() - n;
                assert(b.skip(n)[k] == b[a.len() as int]);
                assert(link_covers(b.skip(n), row, col, t));
            }
        }
    }
}

proof fn lemma_link_of(rs: Seq<wrap::RunView>, r: wrap::RunView, c: int)
    ensures
        c < texts(rs).flatten().len() ==> link_of(rs.push(r), c) == link_of(rs, c),
        c >= texts(rs).flatten().len() ==> link_of(rs.push(r), c) == r.link,
{
    assert(rs.push(r).drop_last() =~= rs);
}

proof fn lemma_run_fits(
    s: Strip,
    q: wrap::PenView,
    f: wrap::FrameView,
    rs: Seq<wrap::RunView>,
    r: wrap::RunView,
    width: usize,
)
    requires
        s.holds(q, f, rs, width),
        s.p.lines.len() <= usize::MAX,
        text::is_printable(r.text),
        s.pw + texts(rs).flatten().len() + r.text.len() <= width,
        q.at_line_start && r.text.len() > 0 ==> !text::is_space(r.text[0]),
    ensures
        s.holds(q.run(f, r), f, rs.push(r), width),
{
    let all = rs.push(r);
    let flat = texts(rs).flatten();
    assert(all.drop_last() =~= rs);
    assert(texts(all) =~= texts(rs).push(r.text));
    texts(rs).lemma_flatten_push(r.text);
    let a = q.pinned(r.image);
    let b = a.linked(f, r.link);
    assert(s.holds(a, f, rs, width));
    lemma_close(s, a, f, rs, width);
    lemma_flowed_fits(b, f, r.style, r.text);
    let c = b.flowed(f, r.style, r.text, 0);
    let d = c.boxed(f, q, r);
    assert(d == q.run(f, r));
    assert(s.front + flat + r.text =~= s.front + (flat + r.text));
    reveal(text::display_width);
    let open = if d.link is Some {
        d.link_start as int
    } else {
        d.col as int
    };
    let before = if b.link is Some {
        b.link_start as int
    } else {
        b.col as int
    };
    assert forall|x: int| open - s.pw <= x < flat.len() + r.text.len() implies link_of(all, x)
        == d.link by {
        lemma_link_of(rs, r, x);
    }
    assert(s.links_right(b.links, rs, f.targets, before));
    assert forall|x: int, t: links::TargetView| 0 <= x < open - s.pw implies (
    #[trigger] link_covers(
        d.links.skip(s.p.links.len() as int),
        s.p.lines.len() as int,
        s.pw + x,
        t,
    ) <==> leads_to(all, x, f.targets, t)) by {
        lemma_link_of(rs, r, x);
        if x >= flat.len() {
            assert(r.link is None);
            let ls = d.links.skip(s.p.links.len() as int);
            assert forall|k: int| 0 <= k < ls.len() implies (#[trigger] ls[k]).col_end
                <= before by {
                assert(ls[k] == d.links[s.p.links.len() + k]);
            }
        }
    }
    assert(s.links_right(d.links, all, f.targets, open));
    let row = s.p.lines.len() as int;
    let bs = boxes_among(rs, row, s.pw as int, f.checkboxes);
    assert(d.boxes =~= s.p.boxes + boxes_among(all, row, s.pw as int, f.checkboxes));
}

proof fn lemma_runs_fit(
    s: Strip,
    q: wrap::PenView,
    f: wrap::FrameView,
    rs: Seq<wrap::RunView>,
    width: usize,
)
    requires
        s.holds(q, f, Seq::empty(), width),
        s.p.lines.len() <= usize::MAX,
        forall|k: int| 0 <= k < rs.len() ==> text::is_printable((#[trigger] rs[k]).text),
        s.pw + texts(rs).flatten().len() <= width,
        texts(rs).flatten().len() > 0 ==> !text::is_space(texts(rs).flatten()[0]),
    ensures
        s.holds(q.runs(f, rs), f, rs, width),
    decreases rs.len(),
{
    if rs.len() == 0 {
        assert(rs =~= Seq::empty());
    } else {
        let init = rs.drop_last();
        let r = rs.last();
        let flat = texts(init).flatten();
        assert(texts(rs) =~= texts(init).push(r.text));
        texts(init).lemma_flatten_push(r.text);
        assert(texts(rs).flatten() == flat + r.text);
        assert forall|k: int| 0 <= k < init.len() implies text::is_printable(
            (#[trigger] init[k]).text,
        ) by {
            assert(init[k] == rs[k]);
        }
        if flat.len() > 0 {
            assert((flat + r.text)[0] == flat[0]);
        } else {
            assert(flat + r.text =~= r.text);
        }
        lemma_runs_fit(s, q, f, init, width);
        assert(text::is_printable(rs[rs.len() - 1].text));
        lemma_run_fits(s, q.runs(f, init), f, init, r, width);
        assert(init.push(r) =~= rs);
    }
}

/// A text that fits beside its prefix stays on one line, as it is: the line shows the
/// prefix and the text. A column of the text is under a link if and only if its character
/// belongs to that link, and each task marker is found where it stands. The text is
/// printable ASCII here, one column for each character, and begins with no space.
pub proof fn law_short_text_keeps_its_line(
    p: wrap::PenView,
    runs: Seq<wrap::RunView>,
    prefix: Seq<wrap::RunView>,
    hanging: Seq<wrap::RunView>,
    width: usize,
    targets: Seq<links::TargetView>,
    boxes: Seq<PendingCheckbox>,
)
    requires
        p.lines.len() <= usize::MAX,
        forall|k: int| 0 <= k < runs.len() ==> text::is_printable((#[trigger] runs[k]).text),
        wrap::runs_width(prefix) < width,
        wrap::runs_width(prefix) + texts(runs).flatten().len() <= width,
        texts(runs).flatten().len() > 0 ==> !text::is_space(texts(runs).flatten()[0]),
    ensures
        ({
            let q = p.wrapped(runs, prefix, hanging, width, targets, boxes);
            let row = p.lines.len() as int;
            let pw = wrap::runs_width(prefix) as int;
            let flat = texts(runs).flatten();
            let n = p.links.len() as int;
            &&& q.lines.len() == row + 1
            &&& q.lines.drop_last() == p.lines
            &&& shown(q.lines[row]) == texts(prefix).flatten() + flat
            &&& p.links.is_prefix_of(q.links)
            &&& forall|k: int| n <= k < q.links.len() ==> (#[trigger] q.links[k]).line == row
            &&& forall|c: int, t: links::TargetView|
                0 <= c < flat.len() ==> (#[trigger] link_covers(q.links.skip(n), row, pw + c, t)
                    <==> leads_to(runs, c, targets, t))
            &&& q.boxes == p.boxes + boxes_among(runs, row, pw, boxes)
        }),
{
    let f = wrap::frame_view(hanging, width, targets, boxes);
    let a = p.started(prefix, width);
    let s = Strip {
        p,
        pw: wrap::runs_width(prefix),
        front: texts(prefix).flatten(),
    };
    let none = Seq::<wrap::RunView>::empty();
    assert(texts(none).flatten() =~= Seq::<char>::empty());
    assert(a.spans.map_values(|x: style::SpanView| x.content) =~= texts(prefix));
    assert(s.front + texts(none).flatten() =~= s.front);
    assert(p.links.subrange(0, p.links.len() as int) =~= p.links);
    assert(p.boxes + boxes_among(none, p.lines.len() as int, s.pw as int, boxes) =~= p.boxes);
    assert(s.holds(a, f, none, width));
    lemma_runs_fit(s, a, f, runs, width);
    let b = a.runs(f, runs);
    lemma_close(s, b, f, runs, width);
    let q = b.ended(f);
    assert(q.lines.drop_last() =~= p.lines);
}

} // verus!
