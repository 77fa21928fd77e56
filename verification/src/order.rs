//! Stable sorting: the order of a list by keys, ties in their first order.

use vstd::prelude::*;
use crate::views;

verus! {

/// A sorting key: two numbers, then text by code points.
#[derive(Debug)]
pub struct Key {
    pub major: i128,
    pub minor: i128,
    pub text: Vec<char>,
}

/// What a [`Key`] holds.
pub struct KeyView {
    pub major: int,
    pub minor: int,
    pub text: Seq<char>,
}

impl View for Key {
    type V = KeyView;

    open spec fn view(&self) -> KeyView {
        KeyView { major: self.major as int, minor: self.minor as int, text: self.text@ }
    }
}

/// Text order by code points, from position `i` on.
pub open spec fn text_less(a: Seq<char>, b: Seq<char>, i: int) -> bool
    decreases a.len() - i,
{
    if i >= b.len() {
        false
    } else if i >= a.len() {
        true
    } else if a[i] != b[i] {
        a[i] < b[i]
    } else {
        text_less(a, b, i + 1)
    }
}

/// Key order.
pub open spec fn key_less(a: KeyView, b: KeyView) -> bool {
    a.major < b.major || (a.major == b.major && (a.minor < b.minor || (a.minor == b.minor
        && text_less(a.text, b.text, 0))))
}

/// Whether element `i` comes before element `j`: by key, and by position where
/// the keys tie.
pub open spec fn before(keys: Seq<KeyView>, i: int, j: int) -> bool {
    key_less(keys[i], keys[j]) || (!key_less(keys[j], keys[i]) && i < j)
}

/// `p` lists all positions of `keys` in sorted order.
pub open spec fn is_order(keys: Seq<KeyView>, p: Seq<usize>) -> bool {
    &&& p.len() == keys.len()
    &&& forall|a: int| 0 <= a < p.len() ==> (#[trigger] p[a]) < keys.len()
    &&& forall|a: int, b: int|
        0 <= a < b < p.len() ==> before(keys, #[trigger] p[a] as int, #[trigger] p[b] as int)
}

proof fn lemma_text_irreflexive(a: Seq<char>, i: int)
    ensures
        !text_less(a, a, i),
    decreases a.len() - i,
{
    if i < a.len() {
        lemma_text_irreflexive(a, i + 1);
    }
}

proof fn lemma_text_transitive(a: Seq<char>, b: Seq<char>, c: Seq<char>, i: int)
    ensures
        text_less(a, b, i) && text_less(b, c, i) ==> text_less(a, c, i),
        !text_less(b, a, i) && !text_less(c, b, i) ==> !text_less(c, a, i),
    decreases a.len() + b.len() + c.len() - 3 * i,
{
    if i < a.len() && i < b.len() && i < c.len() && a[i] == b[i] && b[i] == c[i] {
        lemma_text_transitive(a, b, c, i + 1);
    }
}

proof fn lemma_text_asymmetric(a: Seq<char>, b: Seq<char>, i: int)
    ensures
        !(text_less(a, b, i) && text_less(b, a, i)),
{
    lemma_text_transitive(a, b, a, i);
    lemma_text_irreflexive(a, i);
}

proof fn lemma_before_asymmetric(keys: Seq<KeyView>, i: int, j: int)
    ensures
        !(before(keys, i, j) && before(keys, j, i)),
{
    lemma_text_asymmetric(keys[i].text, keys[j].text, 0);
}

proof fn lemma_before_transitive(keys: Seq<KeyView>, i: int, j: int, k: int)
    requires
        before(keys, i, j),
        before(keys, j, k),
    ensures
        before(keys, i, k),
{
    let a = keys[i].text;
    let b = keys[j].text;
    let c = keys[k].text;
    lemma_text_transitive(a, b, c, 0);
    lemma_text_transitive(b, c, a, 0);
    lemma_text_transitive(c, a, b, 0);
    lemma_text_asymmetric(a, b, 0);
    lemma_text_asymmetric(b, c, 0);
    lemma_text_asymmetric(a, c, 0);
}

fn text_is_less(a: &[char], b: &[char]) -> (r: bool)
    ensures
        r == text_less(a@, b@, 0),
{
    let mut i: usize = 0;
    while i < a.len() && i < b.len()
        invariant
            i <= a@.len(),
            i <= b@.len(),
            text_less(a@, b@, 0) == text_less(a@, b@, i as int),
        decreases a@.len() - i,
    {
        if a[i] != b[i] {
            return a[i] < b[i];
        }
        i = i + 1;
    }
    i < b.len()
}

fn key_is_less(a: &Key, b: &Key) -> (r: bool)
    ensures
        r == key_less(a@, b@),
{
    if a.major != b.major {
        return a.major < b.major;
    }
    if a.minor != b.minor {
        return a.minor < b.minor;
    }
    text_is_less(&a.text, &b.text)
}

/// True when the positions in `p` are in order and lie in `lo..hi`.
spec fn sorted_within(keys: Seq<KeyView>, p: Seq<usize>, lo: int, hi: int) -> bool {
    &&& forall|a: int| 0 <= a < p.len() ==> lo <= (#[trigger] p[a]) < hi
    &&& forall|a: int, b: int|
        0 <= a < b < p.len() ==> before(keys, #[trigger] p[a] as int, #[trigger] p[b] as int)
}

/// Merges two sorted lists of positions, those of `x` all before those of `y`.
fn merge(keys: &[Key], x: &[usize], y: &[usize], Ghost(lo): Ghost<int>, Ghost(mid): Ghost<int>, Ghost(hi): Ghost<int>) -> (r: Vec<usize>)
    requires
        0 <= lo <= mid <= hi <= keys@.len(),
        sorted_within(views::views(keys@), x@, lo, mid),
        sorted_within(views::views(keys@), y@, mid, hi),
    ensures
        sorted_within(views::views(keys@), r@, lo, hi),
        r@.len() == x@.len() + y@.len(),
{
    let ghost ks = views::views(keys@);
    let mut out: Vec<usize> = Vec::new();
    let mut i: usize = 0;
    let mut j: usize = 0;
    while i < x.len() || j < y.len()
        invariant
            ks == views::views(keys@),
            0 <= lo <= mid <= hi <= keys@.len(),
            sorted_within(ks, x@, lo, mid),
            sorted_within(ks, y@, mid, hi),
            i <= x@.len(),
            j <= y@.len(),
            out@.len() == i + j,
            sorted_within(ks, out@, lo, hi),
            forall|a: int, b: int|
                0 <= a < out@.len() && i <= b < x@.len() ==> before(
                    ks,
                    #[trigger] out@[a] as int,
                    #[trigger] x@[b] as int,
                ),
            forall|a: int, b: int|
                0 <= a < out@.len() && j <= b < y@.len() ==> before(
                    ks,
                    #[trigger] out@[a] as int,
                    #[trigger] y@[b] as int,
                ),
        decreases x@.len() - i + y@.len() - j,
    {
        let left = j >= y.len() || (i < x.len() && !key_is_less(&keys[y[j]], &keys[x[i]]));
        let ghost prev = out@;
        if left {
            let v = x[i];
            proof {
                if j < y@.len() {
                    assert forall|b: int| j <= b < y@.len() implies before(ks, v as int, #[trigger] y@[b] as int) by {
                        assert(before(ks, v as int, y@[j as int] as int));
                        if b > j {
                            lemma_before_transitive(ks, v as int, y@[j as int] as int, y@[b] as int);
                        }
                    }
                }
            }
            out.push(v);
            i = i + 1;
        } else {
            let v = y[j];
            proof {
                if i < x@.len() {
                    assert forall|b: int| i <= b < x@.len() implies before(ks, v as int, #[trigger] x@[b] as int) by {
                        assert(before(ks, v as int, x@[i as int] as int));
                        if b > i {
                            lemma_before_transitive(ks, v as int, x@[i as int] as int, x@[b] as int);
                        }
                    }
                }
            }
            out.push(v);
            j = j + 1;
        }
        assert(forall|a: int| 0 <= a < prev.len() ==> out@[a] == prev[a]);
    }
    out
}

fn sort_range(keys: &[Key], lo: usize, hi: usize) -> (r: Vec<usize>)
    requires
        lo <= hi <= keys@.len(),
    ensures
        sorted_within(views::views(keys@), r@, lo as int, hi as int),
        r@.len() == hi - lo,
    decreases hi - lo,
{
    if hi - lo <= 1 {
        let mut out: Vec<usize> = Vec::new();
        if lo < hi {
            out.push(lo);
        }
        return out;
    }
    let mid = lo + (hi - lo) / 2;
    let x = sort_range(keys, lo, mid);
    let y = sort_range(keys, mid, hi);
    merge(keys, &x, &y, Ghost(lo as int), Ghost(mid as int), Ghost(hi as int))
}

/// A sorted order lists every position.
pub proof fn lemma_order_covers(keys: Seq<KeyView>, p: Seq<usize>, v: int)
    requires
        is_order(keys, p),
        0 <= v < keys.len(),
    ensures
        exists|a: int| 0 <= a < p.len() && #[trigger] p[a] == v,
{
    let q = Seq::new(p.len(), |a: int| p[a] as int);
    assert(q.no_duplicates()) by {
        assert forall|a: int, b: int| 0 <= a < q.len() && 0 <= b < q.len() && a != b implies q[a] != q[b] by {
            if a < b {
                assert(before(keys, p[a] as int, p[b] as int));
                lemma_before_asymmetric(keys, p[a] as int, p[b] as int);
            } else {
                assert(before(keys, p[b] as int, p[a] as int));
                lemma_before_asymmetric(keys, p[a] as int, p[b] as int);
            }
        }
    }
    q.unique_seq_to_set();
    let all = vstd::set_lib::set_int_range(0, keys.len() as int);
    vstd::set_lib::lemma_int_range(0, keys.len() as int);
    assert(q.to_set().subset_of(all)) by {
        assert forall|x: int| q.to_set().contains(x) implies all.contains(x) by {
            let a = choose|a: int| 0 <= a < q.len() && q[a] == x;
            assert(p[a] < keys.len());
        }
    }
    vstd::set_lib::lemma_subset_equality(q.to_set(), all);
    assert(all.contains(v));
    assert(q.to_set().contains(v));
    let a = choose|a: int| 0 <= a < q.len() && q[a] == v;
    assert(p[a] == v);
}

/// What comes first in a sorted order does not have the greater key.
pub proof fn lemma_order_ascends(keys: Seq<KeyView>, p: Seq<usize>, a: int, b: int)
    requires
        is_order(keys, p),
        0 <= a < b < p.len(),
    ensures
        !key_less(keys[p[b] as int], keys[p[a] as int]),
{
    assert(before(keys, p[a] as int, p[b] as int));
    lemma_text_asymmetric(keys[p[a] as int].text, keys[p[b] as int].text, 0);
}

/// There is only one sorted order of a list of keys.
pub proof fn law_order_is_unique(keys: Seq<KeyView>, p: Seq<usize>, q: Seq<usize>)
    requires
        is_order(keys, p),
        is_order(keys, q),
    ensures
        p == q,
{
    assert forall|n: int| 0 <= n <= p.len() implies p.take(n) == q.take(n) by {
        lemma_orders_agree(keys, p, q, n);
    }
    assert(p.take(p.len() as int) =~= p);
    assert(q.take(p.len() as int) =~= q);
    assert(p.take(p.len() as int) == q.take(p.len() as int));
}

proof fn lemma_orders_agree(keys: Seq<KeyView>, p: Seq<usize>, q: Seq<usize>, n: int)
    requires
        is_order(keys, p),
        is_order(keys, q),
        0 <= n <= p.len(),
    ensures
        p.take(n) == q.take(n),
    decreases n,
{
    if n > 0 {
        lemma_orders_agree(keys, p, q, n - 1);
        let i = n - 1;
        assert forall|k: int| 0 <= k < i implies p[k] == q[k] by {
            assert(p.take(i)[k] == q.take(i)[k]);
        }
        if p[i] != q[i] {
            lemma_order_covers(keys, q, p[i] as int);
            let j = choose|a: int| 0 <= a < q.len() && #[trigger] q[a] == p[i];
            lemma_order_covers(keys, p, q[i] as int);
            let m = choose|a: int| 0 <= a < p.len() && #[trigger] p[a] == q[i];
            if j < i {
                assert(before(keys, p[j] as int, p[i] as int));
                lemma_before_asymmetric(keys, p[i] as int, p[i] as int);
            } else if m < i {
                assert(before(keys, q[m] as int, q[i] as int));
                lemma_before_asymmetric(keys, q[i] as int, q[i] as int);
            } else {
                assert(before(keys, q[i] as int, q[j] as int));
                assert(before(keys, p[i] as int, p[m] as int));
                lemma_before_asymmetric(keys, p[i] as int, q[i] as int);
            }
        }
        assert(p.take(n) =~= q.take(n));
    }
}

spec fn insert_at(keys: Seq<KeyView>, p: Seq<usize>, x: int, k: int) -> int
    decreases p.len() - k,
{
    if 0 <= k < p.len() && before(keys, p[k] as int, x) {
        insert_at(keys, p, x, k + 1)
    } else {
        k
    }
}

proof fn lemma_insert_at(keys: Seq<KeyView>, p: Seq<usize>, x: int, k: int)
    requires
        0 <= k <= p.len(),
        forall|a: int| 0 <= a < k ==> before(keys, #[trigger] p[a] as int, x),
    ensures
        k <= insert_at(keys, p, x, k) <= p.len(),
        forall|a: int|
            0 <= a < insert_at(keys, p, x, k) ==> before(keys, #[trigger] p[a] as int, x),
        insert_at(keys, p, x, k) < p.len() ==> !before(
            keys,
            p[insert_at(keys, p, x, k)] as int,
            x,
        ),
    decreases p.len() - k,
{
    if k < p.len() && before(keys, p[k] as int, x) {
        lemma_insert_at(keys, p, x, k + 1);
    }
}

proof fn lemma_prefix_order(keys: Seq<KeyView>, n: int) -> (p: Seq<usize>)
    requires
        0 <= n <= keys.len() <= usize::MAX,
    ensures
        p.len() == n,
        sorted_within(keys, p, 0, n),
    decreases n,
{
    if n == 0 {
        Seq::empty()
    } else {
        let q = lemma_prefix_order(keys, n - 1);
        let x = n - 1;
        lemma_insert_at(keys, q, x, 0);
        let k = insert_at(keys, q, x, 0);
        let p = q.insert(k, x as usize);
        assert forall|a: int, b: int| 0 <= a < b < p.len() implies before(
            keys,
            #[trigger] p[a] as int,
            #[trigger] p[b] as int,
        ) by {
            if b == k {
                assert(p[a] == q[a]);
            } else if a == k {
                assert(p[b] == q[b - 1]);
                assert(before(keys, x, q[k] as int));
                if b - 1 > k {
                    assert(before(keys, q[k] as int, q[b - 1] as int));
                    lemma_before_transitive(keys, x, q[k] as int, q[b - 1] as int);
                }
            } else {
                let a0 = if a < k {
                    a
                } else {
                    a - 1
                };
                let b0 = if b < k {
                    b
                } else {
                    b - 1
                };
                assert(p[a] == q[a0] && p[b] == q[b0]);
            }
        }
        p
    }
}

/// An order lists no position twice.
pub proof fn lemma_before_irreflexive(keys: Seq<KeyView>, p: Seq<usize>, a: int, b: int)
    requires
        is_order(keys, p),
        0 <= a < b < p.len(),
    ensures
        p[a] != p[b],
{
    assert(before(keys, p[a] as int, p[b] as int));
    lemma_before_asymmetric(keys, p[a] as int, p[b] as int);
}

/// Every list of keys has a sorted order.
pub proof fn law_order_exists(keys: Seq<KeyView>)
    requires
        keys.len() <= usize::MAX,
    ensures
        is_order(keys, order(keys)),
{
    let p = lemma_prefix_order(keys, keys.len() as int);
    assert(is_order(keys, p));
}

/// The sorted order of a list of keys.
pub open spec fn order(keys: Seq<KeyView>) -> Seq<usize> {
    choose|p: Seq<usize>| is_order(keys, p)
}

/// Sorts positions by their keys, stably.
pub fn sort_order(keys: &[Key]) -> (p: Vec<usize>)
    ensures
        is_order(views::views(keys@), p@),
        p@ == order(views::views(keys@)),
{
    let p = sort_range(keys, 0, keys.len());
    proof {
        let ks = views::views(keys@);
        assert(is_order(ks, p@));
        law_order_is_unique(ks, p@, order(ks));
    }
    p
}

} // verus!
