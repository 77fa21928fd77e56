//! File search by substring, and text search in a rendered document.

use vstd::prelude::*;
use crate::bytes;
use crate::bytes::{chars_of, offset_of};
use crate::order;
use crate::order::{sort_order, Key};
use crate::style;
use crate::style::Line;
use crate::text;
use crate::text::{find_from, from_chars, str_width, to_chars, to_lower};
use crate::views;

verus! {

broadcast use crate::views::group_views;

// ---------------------------------------------------------------------------
// Scores
// ---------------------------------------------------------------------------

/// True of the characters that separate words in a path.
pub open spec fn is_separator(c: char) -> bool {
    c == '/' || c == '_' || c == '-' || c == '.' || c == ' '
}

/// Position of the last slash among the first `n` characters.
pub open spec fn last_slash(t: Seq<char>, n: int) -> Option<int>
    decreases n,
{
    if n <= 0 {
        None
    } else if t[n - 1] == '/' {
        Some(n - 1)
    } else {
        last_slash(t, n - 1)
    }
}

/// Score of a match: higher the earlier it starts, at the start of a word, in the
/// last component, and in a shorter text. `None` without a match.
pub open spec fn score_of(t: Seq<char>, p: Seq<char>) -> Option<int> {
    match text::first_from(t, p, 0) {
        None => None,
        Some(k) => {
            let start = 1000 - bytes::byte_pos(t, k);
            let word: int = if k == 0 {
                500
            } else if is_separator(t[k - 1]) {
                250
            } else {
                0
            };
            let base: int = match last_slash(t, t.len() as int) {
                Some(s) => if k > s {
                    100
                } else {
                    0
                },
                None => 100,
            };
            Some(start + word + base - bytes::byte_count(t) / 4)
        },
    }
}

/// A score as a 32-bit number, capped at the ends of its range.
pub open spec fn capped(x: int) -> i32 {
    if x > i32::MAX {
        i32::MAX
    } else if x < i32::MIN {
        i32::MIN
    } else {
        x as i32
    }
}

/// Scores a substring match.
pub fn score_substring(t: &str, pattern: &str) -> (r: Option<i32>)
    ensures
        r == match score_of(t@, pattern@) {
            Some(x) => Some(capped(x)),
            None => None,
        },
{
    let cs = chars_of(t);
    let len = text::byte_len(t);
    let k = match find_from(&cs, &to_chars(pattern), 0) {
        Some(k) => k,
        None => {
            return None;
        },
    };
    let mut score: i128 = 1000 - offset_of(&cs, k) as i128;
    if k == 0 {
        score = score + 500;
    } else {
        let c = cs[k - 1];
        if c == '/' || c == '_' || c == '-' || c == '.' || c == ' ' {
            score = score + 250;
        }
    }
    let mut s: usize = cs.len();
    while s > 0 && cs[s - 1] != '/'
        invariant
            s <= cs@.len(),
            last_slash(cs@, cs@.len() as int) == last_slash(cs@, s as int),
        decreases s,
    {
        s = s - 1;
    }
    if s == 0 || k > s - 1 {
        score = score + 100;
    }
    score = score - (len / 4) as i128;
    Some(
        if score > 0x7fff_ffff {
            0x7fff_ffff
        } else if score < -0x8000_0000 {
            -0x8000_0000
        } else {
            score as i32
        },
    )
}

/// `cur + delta` on a circle of `n` places.
pub fn wrap_index(cur: usize, delta: i64, n: usize) -> (r: usize)
    requires
        n > 0,
    ensures
        r == (cur + delta) % (n as int),
        r < n,
{
    let turns: u128 = 0x8000_0000_0000_0000;
    assert(n * turns <= 0xffff_ffff_ffff_ffff * 0x8000_0000_0000_0000) by (nonlinear_arith)
        requires
            n <= 0xffff_ffff_ffff_ffff,
            turns == 0x8000_0000_0000_0000,
    ;
    assert(n * turns >= turns) by (nonlinear_arith)
        requires
            n >= 1,
            turns == 0x8000_0000_0000_0000,
    ;
    let base: u128 = n as u128 * turns + cur as u128;
    let shifted: u128 = if delta >= 0 {
        base + delta as u128
    } else {
        base - (-(delta as i128)) as u128
    };
    proof {
        assert(shifted == n * turns + (cur + delta));
        vstd::arithmetic::div_mod::lemma_mod_multiples_vanish(
            turns as int,
            cur + delta,
            n as int,
        );
        assert(n * turns == n as int * turns as int);
    }
    (shifted % n as u128) as usize
}

// ---------------------------------------------------------------------------
// File search
// ---------------------------------------------------------------------------

/// A path in the search index and how it is shown.
#[derive(Debug)]
pub struct IndexedPath {
    pub path: String,
    pub display: String,
    pub is_dir: bool,
}

/// A path that matches the query.
#[derive(Debug)]
pub struct SearchResult {
    pub path: String,
    pub display: String,
    pub score: i32,
    pub is_dir: bool,
}

/// What an [`IndexedPath`] holds.
pub struct PathView {
    pub path: Seq<char>,
    pub display: Seq<char>,
    pub is_dir: bool,
}

/// What a [`SearchResult`] holds.
pub struct ResultView {
    pub path: Seq<char>,
    pub display: Seq<char>,
    pub score: i32,
    pub is_dir: bool,
}

impl View for IndexedPath {
    type V = PathView;

    open spec fn view(&self) -> PathView {
        PathView { path: self.path@, display: self.display@, is_dir: self.is_dir }
    }
}

impl View for SearchResult {
    type V = ResultView;

    open spec fn view(&self) -> ResultView {
        ResultView {
            path: self.path@,
            display: self.display@,
            score: self.score,
            is_dir: self.is_dir,
        }
    }
}

impl Clone for SearchResult {
    fn clone(&self) -> (r: SearchResult)
        ensures
            r@ == self@,
    {
        SearchResult {
            path: self.path.clone(),
            display: self.display.clone(),
            score: self.score,
            is_dir: self.is_dir,
        }
    }
}

/// The score of a path for a query; any path matches the empty one.
pub open spec fn path_score(x: PathView, q: Seq<char>) -> Option<i32> {
    if q.len() == 0 {
        Some(0)
    } else {
        match score_of(text::lower_text(x.display), text::lower_text(q)) {
            Some(s) => Some(capped(s)),
            None => None,
        }
    }
}

/// The matching ones of the first `n` paths.
pub open spec fn hits(paths: Seq<PathView>, q: Seq<char>, n: int) -> Seq<ResultView>
    decreases n,
{
    if n <= 0 {
        Seq::empty()
    } else {
        let before = hits(paths, q, n - 1);
        let x = paths[n - 1];
        match path_score(x, q) {
            Some(score) => before.push(
                ResultView { path: x.path, display: x.display, score, is_dir: x.is_dir },
            ),
            None => before,
        }
    }
}

/// How results are ranked: directories first for an empty query, otherwise by
/// descending score; then by display text without regard to case.
pub open spec fn rank_keys(rs: Seq<ResultView>, q: Seq<char>) -> Seq<order::KeyView> {
    Seq::new(
        rs.len(),
        |i: int|
            order::KeyView {
                major: if q.len() > 0 {
                    -rs[i].score
                } else if rs[i].is_dir {
                    0
                } else {
                    1
                },
                minor: 0,
                text: text::lower_text(rs[i].display),
            },
    )
}

/// The results of a query, best first.
pub open spec fn found(paths: Seq<PathView>, q: Seq<char>) -> Seq<ResultView> {
    let h = hits(paths, q, paths.len() as int);
    let p = order::order(rank_keys(h, q));
    Seq::new(p.len(), |i: int| h[p[i] as int])
}

/// The file search overlay.
#[derive(Debug)]
pub struct Search {
    pub query: String,
    pub results: Vec<SearchResult>,
    pub selected: usize,
    /// The paths that are searched.
    pub paths: Vec<IndexedPath>,
}

impl Search {
    /// The index that is searched.
    pub open spec fn index(&self) -> Seq<PathView> {
        views::views(self.paths@)
    }

    /// Opens the search on an index of paths, with an empty query.
    pub fn build(paths: Vec<IndexedPath>) -> (s: Search)
        ensures
            s.query@ == Seq::<char>::empty(),
            s.selected == 0,
            s.index() == views::views(paths@),
            views::views(s.results@) == found(views::views(paths@), Seq::empty()),
    {
        let mut s = Search { query: String::new(), results: Vec::new(), selected: 0, paths };
        assert(s.query@ =~= Seq::<char>::empty());
        s.refresh();
        s
    }

    /// Finds the results of the current query. A selection past their end goes
    /// back to the first.
    pub fn refresh(&mut self)
        ensures
            final(self).query == old(self).query,
            final(self).index() == old(self).index(),
            views::views(final(self).results@) == found(old(self).index(), old(self).query@),
            final(self).selected == (if old(self).selected < final(self).results@.len() {
                old(self).selected
            } else {
                0
            }),
    {
        let ghost pv = views::views(self.paths@);
        let ghost qv = self.query@;
        let q = to_lower(&self.query);
        let empty = q.as_str().is_empty();
        let mut hit: Vec<SearchResult> = Vec::new();
        let mut keys: Vec<Key> = Vec::new();
        let mut i: usize = 0;
        while i < self.paths.len()
            invariant
                *self == *old(self),
                pv == views::views(self.paths@),
                qv == self.query@,
                q@ == text::lower_text(qv),
                empty == (qv.len() == 0),
                i <= self.paths@.len(),
                views::views(hit@) == hits(pv, qv, i as int),
                views::views(keys@) == rank_keys(hits(pv, qv, i as int), qv),
            decreases self.paths@.len() - i,
        {
            let x = &self.paths[i];
            let low = to_lower(&x.display);
            let score: Option<i32> = if empty {
                Some(0)
            } else {
                score_substring(&low, &q)
            };
            let ghost before = hits(pv, qv, i as int);
            match score {
                Some(score) => {
                    let major: i128 = if !empty {
                        -(score as i128)
                    } else if x.is_dir {
                        0
                    } else {
                        1
                    };
                    let ghost rv = ResultView {
                        path: x.path@,
                        display: x.display@,
                        score,
                        is_dir: x.is_dir,
                    };
                    keys.push(Key { major, minor: 0, text: to_chars(&low) });
                    hit.push(
                        SearchResult {
                            path: x.path.clone(),
                            display: x.display.clone(),
                            score,
                            is_dir: x.is_dir,
                        },
                    );
                    assert(views::views(keys@) =~= rank_keys(before.push(rv), qv));
                },
                None => {},
            }
            i = i + 1;
        }
        let p = sort_order(&keys);
        let ghost h = hits(pv, qv, pv.len() as int);
        let ghost all = found(pv, qv);
        let mut out: Vec<SearchResult> = Vec::new();
        let mut k: usize = 0;
        while k < p.len()
            invariant
                *self == *old(self),
                h == hits(pv, qv, pv.len() as int),
                all == found(pv, qv),
                views::views(hit@) == h,
                p@ == order::order(rank_keys(h, qv)),
                order::is_order(rank_keys(h, qv), p@),
                k <= p@.len(),
                views::views(out@) == all.take(k as int),
            decreases p@.len() - k,
        {
            out.push(hit[p[k]].clone());
            k = k + 1;
            assert(all.take(k as int) =~= all.take(k - 1).push(all[k - 1]));
        }
        assert(all.take(k as int) =~= all);
        self.results = out;
        if self.selected >= self.results.len() {
            self.selected = 0;
        }
    }

    /// Moves the selection by `delta`, around the ends.
    pub fn move_selection(&mut self, delta: i32)
        ensures
            *final(self) == (Search { selected: final(self).selected, ..*old(self) }),
            final(self).selected == (if old(self).results@.len() == 0 {
                old(self).selected as int
            } else {
                (old(self).selected + delta) % (old(self).results@.len() as int)
            }),
    {
        let n = self.results.len();
        if n == 0 {
            return ;
        }
        self.selected = wrap_index(self.selected, delta as i64, n);
    }
}

// ---------------------------------------------------------------------------
// Search in a document
// ---------------------------------------------------------------------------

/// A match in display columns of a line.
#[derive(Clone, Copy, Debug, PartialEq, Eq, Structural)]
pub struct DocMatch {
    pub line: usize,
    pub col_start: usize,
    pub col_end: usize,
}

/// The text of the first `n` spans.
pub open spec fn spans_text(spans: Seq<style::SpanView>, n: int) -> Seq<char>
    decreases n,
{
    if n <= 0 {
        Seq::empty()
    } else {
        spans_text(spans, n - 1) + spans[n - 1].content
    }
}

/// The text of a line.
pub open spec fn line_text(spans: Seq<style::SpanView>) -> Seq<char> {
    spans_text(spans, spans.len() as int)
}

/// Collects the text of a line.
pub fn text_of_line(line: &Line) -> (r: String)
    ensures
        r@ == line_text(line@),
{
    let mut out = String::new();
    let mut i: usize = 0;
    assert(out@ =~= Seq::<char>::empty());
    while i < line.spans.len()
        invariant
            i <= line.spans@.len(),
            out@ == spans_text(line@, i as int),
        decreases line.spans@.len() - i,
    {
        out.push_str(&line.spans[i].content);
        i = i + 1;
    }
    out
}

/// The matches of `q` in the text of one line, from position `from` on; none
/// overlaps the one before.
pub open spec fn line_matches(t: Seq<char>, low: Seq<char>, q: Seq<char>, line: usize, from: int) -> Seq<
    DocMatch,
>
    decreases low.len() + 1 - from,
{
    if from < 0 || from > low.len() || q.len() == 0 {
        Seq::empty()
    } else {
        proof {
            text::lemma_first_from(low, q, from);
        }
        match text::first_from(low, q, from) {
            Some(k) => {
                let e = k + q.len();
                seq![
                    DocMatch {
                        line,
                        col_start: text::display_width(t.take(k)),
                        col_end: text::display_width(t.take(e)),
                    },
                ] + line_matches(t, low, q, line, e)
            },
            None => Seq::empty(),
        }
    }
}

/// The matches in the first `n` lines, without regard to ASCII case.
pub open spec fn doc_matches(lines: Seq<Seq<style::SpanView>>, q: Seq<char>, n: int) -> Seq<DocMatch>
    decreases n,
{
    if n <= 0 {
        Seq::empty()
    } else {
        let t = line_text(lines[n - 1]);
        doc_matches(lines, q, n - 1) + line_matches(
            t,
            text::lower_text(t),
            text::lower_text(q),
            (n - 1) as usize,
            0,
        )
    }
}

fn push_line_matches(t: &str, q: &[char], line: usize, out: &mut Vec<DocMatch>)
    requires
        q@.len() > 0,
    ensures
        final(out)@ == old(out)@ + line_matches(t@, text::lower_text(t@), q@, line, 0),
{
    let cs = to_chars(t);
    let low_text = to_lower(t);
    let low = to_chars(&low_text);
    let n = low.len();
    assert(low@ == text::lower_text(t@));
    let ghost start = out@;
    let ghost all = line_matches(t@, low@, q@, line, 0);
    let mut from: usize = 0;
    assert(out@ + line_matches(t@, low@, q@, line, 0) =~= start + all);
    loop
        invariant
            cs@ == t@,
            low@ == text::lower_text(t@),
            q@.len() > 0,
            n == low@.len(),
            from <= n,
            out@ + line_matches(t@, low@, q@, line, from as int) == start + all,
        ensures
            out@ == start + all,
        decreases low@.len() - from,
    {
        match find_from(&low, q, from) {
            Some(k) => {
                let e = k + q.len();
                let head = from_chars(&cs, 0, k);
                let whole = from_chars(&cs, 0, e);
                assert(head@ =~= t@.take(k as int));
                assert(whole@ =~= t@.take(e as int));
                let m = DocMatch {
                    line,
                    col_start: str_width(&head),
                    col_end: str_width(&whole),
                };
                let ghost prev = out@;
                out.push(m);
                assert(prev + (seq![m] + line_matches(t@, low@, q@, line, e as int)) =~= out@
                    + line_matches(t@, low@, q@, line, e as int));
                from = e;
            },
            None => {
                assert(out@ =~= start + all);
                break;
            },
        }
    }
}

/// Searches the rendered lines for `query` without regard to ASCII case. Matches
/// come in display columns.
pub fn find_doc_matches(lines: &[Line], query: &str) -> (r: Vec<DocMatch>)
    ensures
        r@ == (if query@.len() == 0 {
            Seq::empty()
        } else {
            doc_matches(views::views(lines@), query@, lines@.len() as int)
        }),
{
    let mut out: Vec<DocMatch> = Vec::new();
    if query.is_empty() {
        return out;
    }
    let low = to_lower(query);
    let q = to_chars(&low);
    let ghost lv = views::views(lines@);
    let mut i: usize = 0;
    while i < lines.len()
        invariant
            lv == views::views(lines@),
            q@ == text::lower_text(query@),
            q@.len() > 0,
            i <= lines@.len(),
            out@ == doc_matches(lv, query@, i as int),
        decreases lines@.len() - i,
    {
        let t = text_of_line(&lines[i]);
        push_line_matches(&t, &q, i, &mut out);
        i = i + 1;
    }
    out
}

// ---------------------------------------------------------------------------
// What holds of results
// ---------------------------------------------------------------------------

/// The results of a query are the paths that match it, each one once, best first:
/// by score, or directories before files where there is no query.
pub proof fn law_results_are_ranked(paths: Seq<PathView>, q: Seq<char>, i: int, j: int)
    requires
        hits(paths, q, paths.len() as int).len() <= usize::MAX,
        0 <= i < j < found(paths, q).len(),
    ensures
        found(paths, q).len() == hits(paths, q, paths.len() as int).len(),
        hits(paths, q, paths.len() as int).contains(found(paths, q)[i]),
        q.len() > 0 ==> found(paths, q)[i].score >= found(paths, q)[j].score,
        q.len() == 0 && found(paths, q)[j].is_dir ==> found(paths, q)[i].is_dir,
{
    let h = hits(paths, q, paths.len() as int);
    let keys = rank_keys(h, q);
    order::law_order_exists(keys);
    let p = order::order(keys);
    assert(order::before(keys, p[i] as int, p[j] as int));
    assert(found(paths, q)[i] == h[p[i] as int]);
    assert(found(paths, q)[j] == h[p[j] as int]);
}

/// Every path that matches a query is among its results.
pub proof fn law_matching_path_is_found(paths: Seq<PathView>, q: Seq<char>, i: int)
    requires
        hits(paths, q, paths.len() as int).len() <= usize::MAX,
        0 <= i < paths.len(),
        path_score(paths[i], q) is Some,
    ensures
        exists|k: int|
            0 <= k < found(paths, q).len() && (#[trigger] found(paths, q)[k]).path
                == paths[i].path,
{
    let h = hits(paths, q, paths.len() as int);
    let keys = rank_keys(h, q);
    order::law_order_exists(keys);
    let p = order::order(keys);
    let at = lemma_hit_of(paths, q, i, paths.len() as int);
    order::lemma_order_covers(keys, p, at);
    let k = choose|k: int| 0 <= k < p.len() && #[trigger] p[k] == at;
    assert(found(paths, q)[k] == h[at]);
}

proof fn lemma_hit_of(paths: Seq<PathView>, q: Seq<char>, i: int, n: int) -> (at: int)
    requires
        0 <= i < n <= paths.len(),
        path_score(paths[i], q) is Some,
    ensures
        0 <= at < hits(paths, q, n).len(),
        hits(paths, q, n)[at].path == paths[i].path,
    decreases n,
{
    if i == n - 1 {
        hits(paths, q, n - 1).len() as int
    } else {
        lemma_hit_of(paths, q, i, n - 1)
    }
}

/// Every match of a line is a place where the query stands, without regard to
/// ASCII case, in display columns.
pub proof fn law_match_is_an_occurrence(
    t: Seq<char>,
    q: Seq<char>,
    line: usize,
    from: int,
    i: int,
)
    requires
        0 <= i < line_matches(t, text::lower_text(t), text::lower_text(q), line, from).len(),
    ensures
        ({
            let m = line_matches(t, text::lower_text(t), text::lower_text(q), line, from)[i];
            &&& m.line == line
            &&& exists|k: int|
                {
                    &&& #[trigger] text::occurs_at(text::lower_text(t), text::lower_text(q), k)
                    &&& m.col_start == text::display_width(t.take(k))
                    &&& m.col_end == text::display_width(t.take((k + q.len()) as int))
                }
        }),
    decreases text::lower_text(t).len() + 1 - from,
{
    let low = text::lower_text(t);
    let lq = text::lower_text(q);
    text::lemma_first_from(low, lq, from);
    match text::first_from(low, lq, from) {
        Some(k) => {
            if i == 0 {
                assert(text::occurs_at(low, lq, k));
            } else {
                law_match_is_an_occurrence(t, q, line, k + lq.len(), i - 1);
            }
        },
        None => {},
    }
}

/// The matches of a document come in the order of its lines.
pub proof fn law_matches_in_document_order(
    lines: Seq<Seq<style::SpanView>>,
    q: Seq<char>,
    n: int,
    i: int,
    j: int,
)
    requires
        0 <= n <= lines.len(),
        lines.len() <= usize::MAX,
        0 <= i <= j < doc_matches(lines, q, n).len(),
    ensures
        doc_matches(lines, q, n)[i].line <= doc_matches(lines, q, n)[j].line,
        doc_matches(lines, q, n)[j].line < n,
    decreases n,
{
    if n > 0 {
        let t = line_text(lines[n - 1]);
        let first = doc_matches(lines, q, n - 1);
        let here = line_matches(t, text::lower_text(t), text::lower_text(q), (n - 1) as usize, 0);
        let all = doc_matches(lines, q, n);
        if j < first.len() {
            law_matches_in_document_order(lines, q, n - 1, i, j);
        } else {
            law_match_is_an_occurrence(t, q, (n - 1) as usize, 0, j - first.len());
            assert(all[j] == here[j - first.len()]);
            if i < first.len() {
                law_matches_in_document_order(lines, q, n - 1, i, i);
                assert(all[i] == first[i]);
            } else {
                law_match_is_an_occurrence(t, q, (n - 1) as usize, 0, i - first.len());
                assert(all[i] == here[i - first.len()]);
            }
        }
    }
}

} // verus!
