//! The text that lines show.

use vstd::prelude::*;
use crate::search;
use crate::style;

verus! {

/// The text of a line: that of its spans, one after the other.
pub open spec fn shown(line: Seq<style::SpanView>) -> Seq<char> {
    line.map_values(|s: style::SpanView| s.content).flatten()
}

/// A line shows the text of its spans and then that of one more.
pub proof fn lemma_shown_push(line: Seq<style::SpanView>, s: style::SpanView)
    ensures
        shown(line.push(s)) == shown(line) + s.content,
{
    let f = |s: style::SpanView| s.content;
    let cs = line.map_values(f);
    assert(line.push(s).map_values(f) =~= cs.push(s.content));
    cs.lemma_flatten_push(s.content);
}

/// A line of two parts shows the text of both.
pub proof fn lemma_shown_concat(a: Seq<style::SpanView>, b: Seq<style::SpanView>)
    ensures
        shown(a + b) == shown(a) + shown(b),
    decreases b.len(),
{
    if b.len() == 0 {
        assert(a + b =~= a);
        assert(shown(b) =~= Seq::<char>::empty());
        assert(shown(a) + shown(b) =~= shown(a));
    } else {
        lemma_shown_concat(a, b.drop_last());
        lemma_shown_push(a + b.drop_last(), b.last());
        lemma_shown_push(b.drop_last(), b.last());
        assert((a + b.drop_last()).push(b.last()) =~= a + b);
        assert(b.drop_last().push(b.last()) =~= b);
        assert(shown(a + b) =~= shown(a) + shown(b));
    }
}

proof fn lemma_spans_text(line: Seq<style::SpanView>, n: int)
    requires
        0 <= n <= line.len(),
    ensures
        search::spans_text(line, n) == shown(line.take(n)),
    decreases n,
{
    if n > 0 {
        lemma_spans_text(line, n - 1);
        lemma_shown_push(line.take(n - 1), line[n - 1]);
        assert(line.take(n - 1).push(line[n - 1]) =~= line.take(n));
    } else {
        assert(line.take(0) =~= Seq::empty());
        assert(shown(line.take(0)) =~= Seq::<char>::empty());
    }
}

/// The text of a line, span by span, is what it shows.
pub proof fn lemma_line_text(line: Seq<style::SpanView>)
    ensures
        search::line_text(line) == shown(line),
{
    lemma_spans_text(line, line.len() as int);
    assert(line.take(line.len() as int) =~= line);
}

} // verus!
