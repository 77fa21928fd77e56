//! What the searches find and show: files by name, and text in the open document.

use vstd::prelude::*;
use crate::app;
use crate::keys::{KeyCode, KeyInput};
use crate::laws_shown::{lemma_line_text, shown};
use crate::order;
use crate::search;
use crate::search::DocMatch;
use crate::style;
use crate::text;

verus! {

// ---------------------------------------------------------------------------
// Letter case
// ---------------------------------------------------------------------------

/// Whether two characters are the same letter in either case, or the same character.
pub open spec fn same_letter(a: char, b: char) -> bool {
    a == b || ('A' <= a <= 'Z' && b as u32 == a as u32 + 32) || ('A' <= b <= 'Z' && a as u32 == b
        as u32 + 32)
}

/// Whether `q` stands in `t` at `k` without regard to ASCII case.
pub open spec fn stands_at(t: Seq<char>, q: Seq<char>, k: int) -> bool {
    &&& 0 <= k
    &&& k + q.len() <= t.len()
    &&& forall|i: int| 0 <= i < q.len() ==> same_letter(#[trigger] q[i], t[k + i])
}

/// Whether `q` stands somewhere in `t` without regard to ASCII case.
pub open spec fn stands_in(t: Seq<char>, q: Seq<char>) -> bool {
    exists|k: int| stands_at(t, q, k)
}

proof fn lemma_same_letter(a: char, b: char)
    ensures
        same_letter(a, b) == (text::ascii_lower(a) == text::ascii_lower(b)),
{
}

/// Text is compared without regard to ASCII case by comparing its lower-case form.
pub proof fn lemma_stands_at(t: Seq<char>, q: Seq<char>, k: int)
    ensures
        stands_at(t, q, k) == text::occurs_at(text::lower_text(t), text::lower_text(q), k),
{
    let lt = text::lower_text(t);
    let lq = text::lower_text(q);
    if text::occurs_at(lt, lq, k) {
        assert forall|i: int| 0 <= i < q.len() implies same_letter(#[trigger] q[i], t[k + i]) by {
            assert(lt.subrange(k, k + lq.len())[i] == lq[i]);
            lemma_same_letter(q[i], t[k + i]);
        }
    }
    if stands_at(t, q, k) {
        assert(lt.subrange(k, k + lq.len()) =~= lq) by {
            assert forall|i: int| 0 <= i < lq.len() implies lt.subrange(k, k + lq.len())[i]
                == lq[i] by {
                assert(same_letter(q[i], t[k + i]));
                lemma_same_letter(q[i], t[k + i]);
            }
        }
    }
}

// ---------------------------------------------------------------------------
// Files
// ---------------------------------------------------------------------------

/// Whether a result stands for a path of the index.
pub open spec fn is_result_of(r: search::ResultView, x: search::PathView) -> bool {
    r.path == x.path && r.display == x.display && r.is_dir == x.is_dir
}

/// Whether `pick` gives, for each result, the place in the index that it comes from: all
/// places whose shown text holds the query, each one once, and no other.
pub open spec fn picks(
    pick: Seq<int>,
    results: Seq<search::ResultView>,
    paths: Seq<search::PathView>,
    q: Seq<char>,
) -> bool {
    &&& pick.len() == results.len()
    &&& forall|k: int|
        0 <= k < pick.len() ==> {
            &&& 0 <= #[trigger] pick[k] < paths.len()
            &&& is_result_of(results[k], paths[pick[k]])
            &&& stands_in(paths[pick[k]].display, q)
        }
    &&& forall|k: int, l: int|
        0 <= k < l < pick.len() ==> #[trigger] pick[k] != #[trigger] pick[l]
    &&& forall|i: int|
        0 <= i < paths.len() && stands_in((#[trigger] paths[i]).display, q) ==> pick.contains(i)
}

proof fn lemma_path_score(x: search::PathView, q: Seq<char>)
    ensures
        search::path_score(x, q) is Some == stands_in(x.display, q),
{
    let low = text::lower_text(x.display);
    let lq = text::lower_text(q);
    text::lemma_first_from(low, lq, 0);
    if q.len() == 0 {
        assert(stands_at(x.display, q, 0));
    } else {
        match text::first_from(low, lq, 0) {
            Some(k) => {
                lemma_stands_at(x.display, q, k);
            },
            None => {
                assert forall|k: int| !stands_at(x.display, q, k) by {
                    lemma_stands_at(x.display, q, k);
                }
            },
        }
    }
}

/// The places of the index that the hits among the first `n` paths come from.
proof fn lemma_hit_places(paths: Seq<search::PathView>, q: Seq<char>, n: int) -> (from: Seq<int>)
    requires
        0 <= n <= paths.len(),
    ensures
        picks(from, search::hits(paths, q, n), paths.take(n), q),
        from.len() <= n,
    decreases n,
{
    if n == 0 {
        Seq::empty()
    } else {
        let before = lemma_hit_places(paths, q, n - 1);
        let x = paths[n - 1];
        lemma_path_score(x, q);
        let from = if stands_in(x.display, q) {
            before.push(n - 1)
        } else {
            before
        };
        let old = paths.take(n - 1);
        let now = paths.take(n);
        assert forall|k: int| 0 <= k < from.len() implies {
            &&& 0 <= #[trigger] from[k] < now.len()
            &&& is_result_of(search::hits(paths, q, n)[k], now[from[k]])
            &&& stands_in(now[from[k]].display, q)
        } by {
            if k < before.len() {
                assert(from[k] == before[k]);
                assert(now[before[k]] == old[before[k]]);
            }
        }
        assert forall|i: int|
            0 <= i < now.len() && stands_in((#[trigger] now[i]).display, q) implies from.contains(
            i,
        ) by {
            if i < n - 1 {
                assert(old[i] == now[i]);
                let k = choose|k: int| 0 <= k < before.len() && before[k] == i;
                assert(from[k] == i);
            } else {
                assert(from[from.len() - 1] == i);
            }
        }
        from
    }
}

/// The file search finds a path, file or directory, if and only if its shown text holds
/// the query without regard to ASCII case; each such path is a result once. With an empty
/// query every path is.
pub proof fn law_search_finds_what_holds_the_query(s: app::SearchModel, q: Seq<char>)
    requires
        s.paths.len() <= usize::MAX,
    ensures
        exists|pick: Seq<int>| picks(pick, s.with_query(q).results, s.paths, q),
        s.with_query(q).query == q,
        s.with_query(q).paths == s.paths,
{
    let paths = s.paths;
    let n = paths.len() as int;
    let h = search::hits(paths, q, n);
    let from = lemma_hit_places(paths, q, n);
    assert(paths.take(n) =~= paths);
    let keys = search::rank_keys(h, q);
    order::law_order_exists(keys);
    let p = order::order(keys);
    let pick = Seq::new(p.len(), |k: int| from[p[k] as int]);
    let results = s.with_query(q).results;
    assert(results == search::found(paths, q));
    assert forall|k: int| 0 <= k < pick.len() implies {
        &&& 0 <= #[trigger] pick[k] < paths.len()
        &&& is_result_of(results[k], paths[pick[k]])
        &&& stands_in(paths[pick[k]].display, q)
    } by {
        assert(p[k] < keys.len());
        assert(0 <= from[p[k] as int] < paths.len());
    }
    assert forall|k: int, l: int| 0 <= k < l < pick.len() implies #[trigger] pick[k]
        != #[trigger] pick[l] by {
        order::lemma_before_irreflexive(keys, p, k, l);
        if p[k] < p[l] {
            assert(from[p[k] as int] != from[p[l] as int]);
        } else {
            assert(from[p[l] as int] != from[p[k] as int]);
        }
    }
    assert forall|i: int|
        0 <= i < paths.len() && stands_in((#[trigger] paths[i]).display, q) implies pick.contains(
        i,
    ) by {
        let at = choose|at: int| 0 <= at < from.len() && from[at] == i;
        order::lemma_order_covers(keys, p, at);
        let k = choose|k: int| 0 <= k < p.len() && #[trigger] p[k] == at;
        assert(pick[k] == i);
    }
    assert(picks(pick, results, paths, q));
}

/// Typing on narrows the file search: what is found for a longer query was found for the
/// shorter one.
pub proof fn law_typing_narrows_the_search(
    s: app::SearchModel,
    q: Seq<char>,
    c: char,
    k: int,
)
    requires
        s.paths.len() <= usize::MAX,
        0 <= k < s.with_query(q.push(c)).results.len(),
    ensures
        exists|l: int|
            {
                let r = s.with_query(q.push(c)).results[k];
                let w = #[trigger] s.with_query(q).results[l];
                0 <= l < s.with_query(q).results.len() && w.path == r.path && w.display
                    == r.display && w.is_dir == r.is_dir
            },
{
    let longer = q.push(c);
    law_search_finds_what_holds_the_query(s, longer);
    law_search_finds_what_holds_the_query(s, q);
    let a = choose|pick: Seq<int>| picks(pick, s.with_query(longer).results, s.paths, longer);
    let b = choose|pick: Seq<int>| picks(pick, s.with_query(q).results, s.paths, q);
    let i = a[k];
    let t = s.paths[i].display;
    let at = choose|at: int| stands_at(t, longer, at);
    assert(stands_at(t, q, at)) by {
        assert forall|j: int| 0 <= j < q.len() implies same_letter(#[trigger] q[j], t[at + j]) by {
            assert(longer[j] == q[j]);
        }
    }
    assert(b.contains(i));
    let l = choose|l: int| 0 <= l < b.len() && b[l] == i;
    assert(is_result_of(s.with_query(q).results[l], s.paths[i]));
}

// ---------------------------------------------------------------------------
// The open document
// ---------------------------------------------------------------------------

/// Whether a match of a line is the query standing at character `k` of its text, in
/// display columns.
pub open spec fn matches_at(m: DocMatch, t: Seq<char>, q: Seq<char>, k: int) -> bool {
    &&& stands_at(t, q, k)
    &&& m.col_start == text::display_width(t.take(k))
    &&& m.col_end == text::display_width(t.take((k + q.len()) as int))
}

/// Whether each match of a document is the query on its line, at the character that `at`
/// gives.
pub open spec fn all_stand(
    at: Seq<int>,
    matches: Seq<DocMatch>,
    lines: Seq<Seq<style::SpanView>>,
    q: Seq<char>,
) -> bool {
    forall|i: int|
        0 <= i < matches.len() ==> {
            let m = #[trigger] matches[i];
            m.line < lines.len() && matches_at(m, shown(lines[m.line as int]), q, at[i])
        }
}

/// Whether the matches of a document come in its order and do not overlap.
pub open spec fn in_order(at: Seq<int>, matches: Seq<DocMatch>, q: Seq<char>) -> bool {
    forall|i: int, j: int|
        0 <= i < j < matches.len() ==> {
            let (a, b) = (#[trigger] matches[i], #[trigger] matches[j]);
            a.line < b.line || (a.line == b.line && at[i] + q.len() <= at[j])
        }
}

/// Whether one of the matches covers character `k` of line `l`.
pub open spec fn is_covered(
    at: Seq<int>,
    matches: Seq<DocMatch>,
    q: Seq<char>,
    l: int,
    k: int,
) -> bool {
    exists|i: int|
        0 <= i < matches.len() && (#[trigger] matches[i]).line == l && at[i] <= k < at[i] + q.len()
}

/// Whether `at` gives the characters that the matches of a document stand at: each is
/// the query on its line, they come in document order without overlap, and wherever the
/// query stands one of them covers the place.
pub open spec fn covers_query(
    at: Seq<int>,
    matches: Seq<DocMatch>,
    lines: Seq<Seq<style::SpanView>>,
    q: Seq<char>,
) -> bool {
    &&& at.len() == matches.len()
    &&& all_stand(at, matches, lines, q)
    &&& in_order(at, matches, q)
    &&& forall|l: int, k: int|
        0 <= l < lines.len() && #[trigger] stands_at(shown(lines[l]), q, k)
            ==> is_covered(at, matches, q, l, k)
}

proof fn lemma_line_matches(t: Seq<char>, q: Seq<char>, line: usize, from: int) -> (at: Seq<int>)
    requires
        q.len() > 0,
        0 <= from,
    ensures
        ({
            let ms = search::line_matches(t, text::lower_text(t), text::lower_text(q), line, from);
            &&& at.len() == ms.len()
            &&& forall|i: int|
                0 <= i < ms.len() ==> (#[trigger] ms[i]).line == line && from <= at[i]
                    && matches_at(ms[i], t, q, at[i])
            &&& forall|i: int, j: int|
                0 <= i < j < ms.len() ==> #[trigger] at[i] + q.len() <= #[trigger] at[j]
            &&& forall|k: int|
                from <= k && #[trigger] stands_at(t, q, k) ==> exists|i: int|
                    0 <= i < ms.len() && #[trigger] at[i] <= k < at[i] + q.len()
        }),
    decreases t.len() + 1 - from,
{
    let low = text::lower_text(t);
    let lq = text::lower_text(q);
    let ms = search::line_matches(t, low, lq, line, from);
    if from > low.len() {
        Seq::empty()
    } else {
        text::lemma_first_from(low, lq, from);
        match text::first_from(low, lq, from) {
            Some(k) => {
                let e = k + lq.len();
                lemma_stands_at(t, q, k);
                let rest = lemma_line_matches(t, q, line, e);
                let more = search::line_matches(t, low, lq, line, e);
                let at = seq![k] + rest;
                assert forall|i: int| 0 <= i < ms.len() implies (#[trigger] ms[i]).line == line
                    && from <= at[i] && matches_at(ms[i], t, q, at[i]) by {
                    if i > 0 {
                        assert(ms[i] == more[i - 1]);
                        assert(at[i] == rest[i - 1]);
                    }
                }
                assert forall|i: int, j: int| 0 <= i < j < ms.len() implies #[trigger] at[i]
                    + q.len() <= #[trigger] at[j] by {
                    assert(at[j] == rest[j - 1]);
                    assert(more[j - 1].line == line);
                    if i > 0 {
                        assert(at[i] == rest[i - 1]);
                    }
                }
                assert forall|x: int| from <= x && #[trigger] stands_at(t, q, x) implies exists|
                    i: int,
                |
                    0 <= i < ms.len() && #[trigger] at[i] <= x < at[i] + q.len() by {
                    lemma_stands_at(t, q, x);
                    if x < e {
                        assert(at[0] == k);
                    } else {
                        let i = choose|i: int|
                            0 <= i < more.len() && #[trigger] rest[i] <= x < rest[i] + q.len();
                        assert(at[i + 1] == rest[i]);
                    }
                }
                at
            },
            None => {
                assert forall|x: int| from <= x implies !#[trigger] stands_at(t, q, x) by {
                    lemma_stands_at(t, q, x);
                }
                Seq::empty()
            },
        }
    }
}

/// What the matches of one line add to those of the lines before it.
proof fn lemma_more_matches(
    before: Seq<int>,
    first: Seq<DocMatch>,
    here: Seq<int>,
    ms: Seq<DocMatch>,
    lines: Seq<Seq<style::SpanView>>,
    q: Seq<char>,
    n: int,
)
    requires
        0 < n <= lines.len(),
        covers_query(before, first, lines.take(n - 1), q),
        here.len() == ms.len(),
        forall|i: int|
            0 <= i < ms.len() ==> (#[trigger] ms[i]).line == n - 1 && matches_at(
                ms[i],
                shown(lines[n - 1]),
                q,
                here[i],
            ),
        forall|i: int, j: int|
            0 <= i < j < ms.len() ==> #[trigger] here[i] + q.len() <= #[trigger] here[j],
        forall|k: int|
            0 <= k && #[trigger] stands_at(shown(lines[n - 1]), q, k) ==> exists|i: int|
                0 <= i < ms.len() && #[trigger] here[i] <= k < here[i] + q.len(),
    ensures
        covers_query(before + here, first + ms, lines.take(n), q),
{
    let all = first + ms;
    let at = before + here;
    let old = lines.take(n - 1);
    let now = lines.take(n);
    assert forall|i: int| 0 <= i < all.len() implies {
        let m = #[trigger] all[i];
        m.line < now.len() && matches_at(m, shown(now[m.line as int]), q, at[i])
    } by {
        if i < first.len() {
            let m = first[i];
            assert(old[m.line as int] == now[m.line as int]);
            assert(at[i] == before[i]);
        } else {
            let m = ms[i - first.len()];
            assert(now[n - 1] == lines[n - 1]);
            assert(at[i] == here[i - first.len()]);
        }
    }
    assert forall|i: int, j: int| 0 <= i < j < all.len() implies {
        let (a, b) = (#[trigger] all[i], #[trigger] all[j]);
        a.line < b.line || (a.line == b.line && at[i] + q.len() <= at[j])
    } by {
        if j < first.len() {
            let (a, b) = (first[i], first[j]);
        } else {
            let b = ms[j - first.len()];
            if i < first.len() {
                let a = first[i];
            } else {
                let a = ms[i - first.len()];
                assert(here[i - first.len()] + q.len() <= here[j - first.len()]);
            }
        }
    }
    assert forall|l: int, k: int|
        0 <= l < now.len() && #[trigger] stands_at(
            shown(now[l]),
            q,
            k,
        ) implies is_covered(at, all, q, l, k) by {
        if l < n - 1 {
            assert(old[l] == now[l]);
            assert(stands_at(shown(old[l]), q, k));
            assert(is_covered(before, first, q, l, k));
            let i = choose|i: int|
                0 <= i < first.len() && (#[trigger] first[i]).line == l && before[i] <= k
                    < before[i] + q.len();
            assert(all[i] == first[i]);
        } else {
            assert(stands_at(shown(lines[n - 1]), q, k));
            let i = choose|i: int|
                0 <= i < ms.len() && #[trigger] here[i] <= k < here[i] + q.len();
            assert(all[first.len() + i] == ms[i]);
            assert(at[first.len() + i] == here[i]);
        }
    }
}

proof fn lemma_doc_matches(lines: Seq<Seq<style::SpanView>>, q: Seq<char>, n: int) -> (at: Seq<int>)
    requires
        q.len() > 0,
        0 <= n <= lines.len(),
        lines.len() <= usize::MAX,
    ensures
        covers_query(at, search::doc_matches(lines, q, n), lines.take(n), q),
    decreases n,
{
    if n == 0 {
        Seq::empty()
    } else {
        let before = lemma_doc_matches(lines, q, n - 1);
        let first = search::doc_matches(lines, q, n - 1);
        let t = shown(lines[n - 1]);
        lemma_line_text(lines[n - 1]);
        let line = (n - 1) as usize;
        let here = lemma_line_matches(t, q, line, 0);
        let ms = search::line_matches(t, text::lower_text(t), text::lower_text(q), line, 0);
        lemma_more_matches(before, first, here, ms, lines, q, n);
        before + here
    }
}

/// The search in a document finds the query wherever it stands on a line of the
/// document, without regard to ASCII case, and nothing else. The matches come in
/// document order and do not overlap.
pub proof fn law_document_search_finds_the_query(m: app::Model, q: Seq<char>)
    requires
        m.doc() is Some,
        m.doc()->0.doc_search is Some,
        m.doc()->0.rendered is Some,
        m.doc()->0.rendered->0.lines.len() <= usize::MAX,
        q.len() > 0,
    ensures
        ({
            let after = m.doc_query(q);
            let s = after.doc()->0.doc_search->0;
            &&& after.doc() is Some
            &&& after.doc()->0.doc_search is Some
            &&& s.query == q
            &&& s.matches.len() > 0 ==> s.current < s.matches.len()
            &&& exists|at: Seq<int>|
                covers_query(at, s.matches, m.doc()->0.rendered->0.lines, q)
        }),
{
    let lines = m.doc()->0.rendered->0.lines;
    let n = lines.len() as int;
    let at = lemma_doc_matches(lines, q, n);
    assert(lines.take(n) =~= lines);
    let s = m.doc_query(q).doc()->0.doc_search->0;
    assert(s.matches == search::doc_matches(lines, q, n));
    assert(covers_query(at, s.matches, lines, q));
}

/// Whether the current match of a document search is on screen, in the middle of the
/// body unless an end of the document is in the way.
pub open spec fn match_in_view(m: app::Model) -> bool {
    let r = m.doc()->0;
    let s = r.doc_search->0;
    let line = s.matches[s.current as int].line;
    let h = m.viewport.height as int;
    &&& m.doc() is Some
    &&& r.doc_search is Some
    &&& s.current < s.matches.len()
    &&& r.scroll <= line < r.scroll + h
    &&& r.scroll + h <= r.total() || r.scroll == 0
    &&& r.scroll > 0 && r.scroll + h < r.total() ==> line == r.scroll + h / 2
}

/// Whether a document search has matches, all of them on lines of the document, in a
/// document whose lines can be counted by scroll positions and a body with rows.
pub open spec fn can_jump(m: app::Model) -> bool {
    let r = m.doc()->0;
    let s = r.doc_search->0;
    &&& m.doc() is Some
    &&& r.doc_search is Some
    &&& 0 < s.matches.len() <= usize::MAX
    &&& s.current < s.matches.len()
    &&& forall|i: int| 0 <= i < s.matches.len() ==> (#[trigger] s.matches[i]).line < r.total()
    &&& r.total() <= u16::MAX
    &&& m.viewport.height > 0
}

/// Enter ends the typing of a query and goes to the first match, which is then on
/// screen.
pub proof fn law_committed_search_shows_its_first_match(m: app::Model)
    requires
        can_jump(m),
    ensures
        ({
            let enter = KeyInput { code: KeyCode::Enter, ctrl: false, alt: false };
            let after = m.doc_search_key(enter);
            let s = after.doc()->0.doc_search->0;
            &&& match_in_view(after)
            &&& s.current == 0
            &&& !s.editing
            &&& s.query == m.doc()->0.doc_search->0.query
            &&& s.matches == m.doc()->0.doc_search->0.matches
        }),
{
}

/// Stepping through the matches shows the next or the previous one, and goes around the
/// ends.
pub proof fn law_step_shows_the_next_match(m: app::Model, forward: bool)
    requires
        can_jump(m),
    ensures
        ({
            let after = m.doc_search_stepped(forward);
            let n = m.doc()->0.doc_search->0.matches.len();
            let from = m.doc()->0.doc_search->0.current as int;
            let to = after.doc()->0.doc_search->0.current as int;
            &&& match_in_view(after)
            &&& forward && from < n - 1 ==> to == from + 1
            &&& forward && from == n - 1 ==> to == 0
            &&& !forward && from > 0 ==> to == from - 1
            &&& !forward && from == 0 ==> to == n - 1
            &&& after.doc()->0.doc_search->0.matches == m.doc()->0.doc_search->0.matches
        }),
{
    let s = m.doc()->0.doc_search->0;
    let n = s.matches.len() as int;
    let delta: int = if forward {
        1
    } else {
        -1
    };
    let x = s.current + delta;
    vstd::arithmetic::div_mod::lemma_mod_bound(x, n);
    if 0 <= x < n {
        vstd::arithmetic::div_mod::lemma_small_mod(x as nat, n as nat);
    } else if x == n {
        vstd::arithmetic::div_mod::lemma_mod_self_0(n);
    } else {
        vstd::arithmetic::div_mod::lemma_mod_add_multiples_vanish(-1, n);
        vstd::arithmetic::div_mod::lemma_small_mod((n - 1) as nat, n as nat);
    }
}

} // verus!
