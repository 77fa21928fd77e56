//! Wrapping shows every visible character.

use vstd::prelude::*;
use crate::links;
use crate::style;
use crate::style::Style;
use crate::text;
use crate::views;
use crate::wrap;
use crate::wrap::PendingCheckbox;

verus! {

broadcast use crate::views::group_views;

/// The visible characters of a text.
pub open spec fn ink(t: Seq<char>) -> Seq<char>
    decreases t.len(),
{
    if t.len() == 0 {
        Seq::empty()
    } else if text::is_space(t.last()) {
        ink(t.drop_last())
    } else {
        ink(t.drop_last()).push(t.last())
    }
}

/// The visible characters of spans side by side.
pub open spec fn spans_ink(spans: Seq<style::SpanView>) -> Seq<char>
    decreases spans.len(),
{
    if spans.len() == 0 {
        Seq::empty()
    } else {
        spans_ink(spans.drop_last()) + ink(spans.last().content)
    }
}

/// The visible characters of the first `n` lines of a block, one after the other. The
/// spans of the prefix that each line begins with are left out: `first` of them on the
/// first line and `more` on the others.
pub open spec fn block_ink(
    lines: Seq<Seq<style::SpanView>>,
    n: int,
    first: nat,
    more: nat,
) -> Seq<char>
    decreases n,
{
    if n <= 0 {
        Seq::empty()
    } else {
        block_ink(lines, n - 1, first, more) + spans_ink(
            lines[n - 1].skip(
                if n == 1 {
                    first as int
                } else {
                    more as int
                },
            ),
        )
    }
}

/// Whether each of the first `n` lines of a block begins with its prefix: `first` on the
/// first line and `more` on the others.
pub open spec fn block_begins(
    lines: Seq<Seq<style::SpanView>>,
    n: int,
    first: Seq<style::SpanView>,
    more: Seq<style::SpanView>,
) -> bool {
    forall|i: int|
        0 <= i < n ==> (if i == 0 {
            first
        } else {
            more
        }).is_prefix_of(#[trigger] lines[i])
}

/// The visible characters of runs, one after the other.
pub open spec fn runs_ink(runs: Seq<wrap::RunView>) -> Seq<char>
    decreases runs.len(),
{
    if runs.len() == 0 {
        Seq::empty()
    } else {
        runs_ink(runs.drop_last()) + ink(runs.last().text)
    }
}

/// A block in progress: the lines that were there before it, and the spans that its
/// first line begins with.
struct Block {
    before: Seq<Seq<style::SpanView>>,
    first: Seq<style::SpanView>,
}

impl Block {
    /// The lines of the block, the one in progress among them.
    spec fn lines(self, p: wrap::PenView) -> Seq<Seq<style::SpanView>> {
        p.lines.push(p.spans).skip(self.before.len() as int)
    }

    /// The visible characters of the block beside its prefixes.
    spec fn ink(self, p: wrap::PenView, f: wrap::FrameView) -> Seq<char> {
        let ls = self.lines(p);
        block_ink(ls, ls.len() as int, self.first.len(), f.hanging.len())
    }

    /// Whether the block stands behind the lines that were there before and each of its
    /// lines begins with its prefix.
    spec fn stands(self, p: wrap::PenView, f: wrap::FrameView) -> bool {
        let ls = self.lines(p);
        &&& self.before.is_prefix_of(p.lines)
        &&& block_begins(ls, ls.len() as int, self.first, f.hanging)
    }
}

proof fn lemma_block_same(
    a: Seq<Seq<style::SpanView>>,
    b: Seq<Seq<style::SpanView>>,
    n: int,
    first: nat,
    more: nat,
)
    requires
        n <= a.len(),
        n <= b.len(),
        forall|i: int| 0 <= i < n ==> a[i] == b[i],
    ensures
        block_ink(a, n, first, more) == block_ink(b, n, first, more),
    decreases n,
{
    if n > 0 {
        lemma_block_same(a, b, n - 1, first, more);
    }
}

proof fn lemma_ink_concat(a: Seq<char>, b: Seq<char>)
    ensures
        ink(a + b) == ink(a) + ink(b),
    decreases b.len(),
{
    if b.len() == 0 {
        assert(a + b =~= a);
        assert(ink(a) + ink(b) =~= ink(a));
    } else {
        lemma_ink_concat(a, b.drop_last());
        assert((a + b).drop_last() =~= a + b.drop_last());
        assert(ink(a + b) =~= ink(a) + ink(b));
    }
}

proof fn lemma_blank(t: Seq<char>)
    requires
        forall|i: int| 0 <= i < t.len() ==> text::is_space(#[trigger] t[i]),
    ensures
        ink(t) == Seq::<char>::empty(),
    decreases t.len(),
{
    if t.len() > 0 {
        lemma_blank(t.drop_last());
    }
}

proof fn lemma_put(k: Block, p: wrap::PenView, f: wrap::FrameView, s: Style, chunk: Seq<char>)
    requires
        k.stands(p, f),
    ensures
        k.stands(p.put(s, chunk), f),
        k.ink(p.put(s, chunk), f) == k.ink(p, f) + ink(chunk),
{
    let q = p.put(s, chunk);
    let a = k.lines(p);
    let b = k.lines(q);
    let n = a.len() as int;
    assert(b.len() == n);
    assert forall|i: int| 0 <= i < n - 1 implies a[i] == b[i] by {}
    assert(a[n - 1] == p.spans);
    assert(b[n - 1] == q.spans);
    lemma_block_same(a, b, n - 1, k.first.len(), f.hanging.len());
    let pre = if n == 1 {
        k.first
    } else {
        f.hanging
    };
    let cut = pre.len() as int;
    assert(pre.is_prefix_of(a[n - 1]));
    assert(q.spans.skip(cut).drop_last() =~= p.spans.skip(cut));
    assert(q.spans.skip(cut).last() == style::span(chunk, s));
    assert(k.ink(q, f) =~= k.ink(p, f) + ink(chunk));
    assert forall|i: int| 0 <= i < n implies (if i == 0 {
        k.first
    } else {
        f.hanging
    }).is_prefix_of(#[trigger] b[i]) by {
        if i < n - 1 {
            assert(a[i] == b[i]);
        } else {
            assert(q.spans.subrange(0, cut) =~= p.spans.subrange(0, cut));
        }
    }
}

proof fn lemma_broken(k: Block, p: wrap::PenView, f: wrap::FrameView)
    requires
        k.stands(p, f),
    ensures
        k.stands(p.broken(f), f),
        k.ink(p.broken(f), f) == k.ink(p, f),
{
    let q = p.broken(f);
    let a = k.lines(p);
    let b = k.lines(q);
    let n = a.len() as int;
    assert(b =~= a.push(f.hanging));
    assert(b.len() == n + 1);
    lemma_block_same(a, b, n, k.first.len(), f.hanging.len());
    assert(f.hanging.skip(f.hanging.len() as int) =~= Seq::empty());
    assert(k.ink(q, f) =~= k.ink(p, f));
    assert(k.before.is_prefix_of(q.lines)) by {
        assert(q.lines.subrange(0, k.before.len() as int) =~= p.lines.subrange(
            0,
            k.before.len() as int,
        ));
    }
    assert forall|i: int| 0 <= i < n + 1 implies (if i == 0 {
        k.first
    } else {
        f.hanging
    }).is_prefix_of(#[trigger] b[i]) by {
        if i < n {
            assert(a[i] == b[i]);
        } else {
            assert(f.hanging.subrange(0, f.hanging.len() as int) =~= f.hanging);
        }
    }
}

proof fn lemma_fit_end(t: Seq<char>, i: int, used: int, limit: int)
    requires
        0 <= i <= t.len(),
    ensures
        i <= wrap::fit_end(t, i, used, limit) <= t.len(),
    decreases t.len() - i,
{
    if i < t.len() {
        let cw = text::display_width(seq![t[i]]);
        if used + cw <= limit {
            lemma_fit_end(t, i + 1, used + cw, limit);
        }
    }
}

proof fn lemma_split(k: Block, p: wrap::PenView, f: wrap::FrameView, s: Style, word: Seq<char>, i: int)
    requires
        k.stands(p, f),
        0 <= i <= word.len(),
    ensures
        k.stands(p.split(f, s, word, i), f),
        k.ink(p.split(f, s, word, i), f) == k.ink(p, f) + ink(word.skip(i)),
    decreases word.len() - i,
{
    if i >= word.len() {
        assert(word.skip(i) =~= Seq::<char>::empty());
        assert(k.ink(p, f) + ink(word.skip(i)) =~= k.ink(p, f));
    } else {
        let b = if p.avail() == 0 && !p.at_line_start {
            p.broken(f)
        } else {
            p
        };
        lemma_broken(k, p, f);
        let limit = if b.avail() == 0 {
            1
        } else {
            b.avail() as int
        };
        lemma_fit_end(word, i, 0, limit);
        let fit = wrap::fit_end(word, i, 0, limit);
        let e = if fit <= i {
            i + 1
        } else {
            fit
        };
        let q = b.put(s, word.subrange(i, e));
        lemma_put(k, b, f, s, word.subrange(i, e));
        lemma_ink_concat(word.subrange(i, e), word.skip(e));
        assert(word.skip(i) =~= word.subrange(i, e) + word.skip(e));
        if e < word.len() {
            lemma_broken(k, q, f);
            lemma_split(k, q.broken(f), f, s, word, e);
            assert(k.ink(p.split(f, s, word, i), f) =~= k.ink(p, f) + ink(word.skip(i)));
        } else {
            assert(word.subrange(i, e) =~= word.skip(i));
        }
    }
}

proof fn lemma_placed(k: Block, p: wrap::PenView, f: wrap::FrameView, s: Style, word: Seq<char>)
    requires
        k.stands(p, f),
        word.len() > 0,
        text::is_space(word[0]) ==> forall|i: int|
            0 <= i < word.len() ==> text::is_space(#[trigger] word[i]),
    ensures
        k.stands(p.placed(f, s, word), f),
        k.ink(p.placed(f, s, word), f) == k.ink(p, f) + ink(word),
{
    lemma_broken(k, p, f);
    lemma_put(k, p, f, s, word);
    lemma_put(k, p.broken(f), f, s, word);
    if text::is_space(word[0]) {
        lemma_blank(word);
        assert(k.ink(p, f) + ink(word) =~= k.ink(p, f));
    } else {
        lemma_split(k, p, f, s, word, 0);
        assert(word.skip(0) =~= word);
    }
}

proof fn lemma_chunk(t: Seq<char>, i: int, j: int)
    requires
        0 <= i < j <= t.len(),
        forall|k: int| i <= k < j ==> text::is_space(#[trigger] t[k]) == text::is_space(t[i]),
    ensures
        j <= wrap::chunk_end(t, i, j) <= t.len(),
        forall|k: int|
            i <= k < wrap::chunk_end(t, i, j) ==> text::is_space(#[trigger] t[k])
                == text::is_space(t[i]),
    decreases t.len() - j,
{
    if j < t.len() && text::is_space(t[j]) == text::is_space(t[i]) {
        lemma_chunk(t, i, j + 1);
    }
}

proof fn lemma_segment(k: Block, p: wrap::PenView, f: wrap::FrameView, s: Style, t: Seq<char>, i: int)
    requires
        k.stands(p, f),
        0 <= i <= t.len(),
    ensures
        k.stands(p.segment(f, s, t, i), f),
        k.ink(p.segment(f, s, t, i), f) == k.ink(p, f) + ink(t.skip(i)),
    decreases t.len() - i,
{
    if i >= t.len() {
        assert(t.skip(i) =~= Seq::<char>::empty());
        assert(k.ink(p, f) + ink(t.skip(i)) =~= k.ink(p, f));
    } else {
        lemma_chunk(t, i, i + 1);
        let e = wrap::chunk_end(t, i, i + 1);
        let word = t.subrange(i, e);
        assert forall|x: int| 0 <= x < word.len() && text::is_space(
            word[0],
        ) implies text::is_space(#[trigger] word[x]) by {
            assert(word[x] == t[i + x]);
        }
        lemma_placed(k, p, f, s, word);
        lemma_segment(k, p.placed(f, s, word), f, s, t, e);
        lemma_ink_concat(word, t.skip(e));
        assert(t.skip(i) =~= word + t.skip(e));
        assert(k.ink(p.segment(f, s, t, i), f) =~= k.ink(p, f) + ink(t.skip(i)));
    }
}

proof fn lemma_flowed(k: Block, p: wrap::PenView, f: wrap::FrameView, s: Style, t: Seq<char>, i: int)
    requires
        k.stands(p, f),
        0 <= i <= t.len(),
    ensures
        k.stands(p.flowed(f, s, t, i), f),
        k.ink(p.flowed(f, s, t, i), f) == k.ink(p, f) + ink(t.skip(i)),
    decreases t.len() - i,
{
    if i >= t.len() {
        assert(t.skip(i) =~= Seq::<char>::empty());
        assert(k.ink(p, f) + ink(t.skip(i)) =~= k.ink(p, f));
    } else {
        text::lemma_first_char(t, '\n', i);
        match text::first_char(t, '\n', i) {
            Some(nl_at) => {
                let part = t.subrange(i, nl_at);
                let q = p.segment(f, s, part, 0);
                lemma_segment(k, p, f, s, part, 0);
                assert(part.skip(0) =~= part);
                lemma_broken(k, q, f);
                lemma_flowed(k, q.broken(f), f, s, t, nl_at + 1);
                let nl = seq!['\n'];
                assert(nl.drop_last() =~= Seq::<char>::empty());
                lemma_blank(nl);
                lemma_ink_concat(part, nl);
                lemma_ink_concat(part + nl, t.skip(nl_at + 1));
                assert(t.skip(i) =~= part + nl + t.skip(nl_at + 1));
                assert(k.ink(p.flowed(f, s, t, i), f) =~= k.ink(p, f) + ink(t.skip(i)));
            },
            None => {
                let part = t.subrange(i, t.len() as int);
                lemma_segment(k, p, f, s, part, 0);
                assert(part.skip(0) =~= part);
                assert(part =~= t.skip(i));
            },
        }
    }
}

proof fn lemma_run(k: Block, p: wrap::PenView, f: wrap::FrameView, r: wrap::RunView)
    requires
        k.stands(p, f),
    ensures
        k.stands(p.run(f, r), f),
        k.ink(p.run(f, r), f) == k.ink(p, f) + ink(r.text),
{
    let b = p.pinned(r.image).linked(f, r.link);
    assert(b.lines == p.lines && b.spans == p.spans);
    lemma_flowed(k, b, f, r.style, r.text, 0);
    assert(r.text.skip(0) =~= r.text);
}

proof fn lemma_runs(k: Block, p: wrap::PenView, f: wrap::FrameView, rs: Seq<wrap::RunView>)
    requires
        k.stands(p, f),
    ensures
        k.stands(p.runs(f, rs), f),
        k.ink(p.runs(f, rs), f) == k.ink(p, f) + runs_ink(rs),
    decreases rs.len(),
{
    if rs.len() == 0 {
        assert(k.ink(p, f) + runs_ink(rs) =~= k.ink(p, f));
    } else {
        lemma_runs(k, p, f, rs.drop_last());
        lemma_run(k, p.runs(f, rs.drop_last()), f, rs.last());
        assert(k.ink(p.runs(f, rs), f) =~= k.ink(p, f) + runs_ink(rs));
    }
}

/// Wrapping keeps every visible character, in order, whatever the width. The lines that
/// were there stay. Behind them come those of the block, the first of which begins with
/// the one prefix and each other with the hanging one. Beside the prefixes they show the
/// visible characters of the runs.
pub proof fn law_wrapping_keeps_text(
    p: wrap::PenView,
    runs: Seq<wrap::RunView>,
    prefix: Seq<wrap::RunView>,
    hanging: Seq<wrap::RunView>,
    width: usize,
    targets: Seq<links::TargetView>,
    boxes: Seq<PendingCheckbox>,
)
    ensures
        ({
            let q = p.wrapped(runs, prefix, hanging, width, targets, boxes);
            let block = q.lines.skip(p.lines.len() as int);
            let n = block.len() as int;
            &&& p.lines.is_prefix_of(q.lines)
            &&& n > 0
            &&& block_begins(block, n, wrap::spans_of(prefix), wrap::spans_of(hanging))
            &&& block_ink(block, n, prefix.len(), hanging.len()) == runs_ink(runs)
        }),
{
    let f = wrap::frame_view(hanging, width, targets, boxes);
    let k = Block { before: p.lines, first: wrap::spans_of(prefix) };
    let a = p.started(prefix, width);
    let ls = k.lines(a);
    assert(ls =~= seq![k.first]);
    assert(k.first.skip(k.first.len() as int) =~= Seq::empty());
    reveal_with_fuel(block_ink, 2);
    assert(k.ink(a, f) =~= Seq::<char>::empty());
    assert(p.lines.subrange(0, p.lines.len() as int) =~= p.lines);
    assert(k.first.subrange(0, k.first.len() as int) =~= k.first);
    assert(k.stands(a, f));
    lemma_runs(k, a, f, runs);
    let b = a.runs(f, runs);
    let q = b.ended(f);
    assert(q.lines.skip(p.lines.len() as int) =~= k.lines(b));
    assert(k.ink(a, f) + runs_ink(runs) =~= runs_ink(runs));
    assert(q.lines.subrange(0, p.lines.len() as int) =~= b.lines.subrange(
        0,
        p.lines.len() as int,
    ));
}

} // verus!
