//! A small map keyed by text.

use vstd::prelude::*;
use crate::text::same_text;

verus! {

/// The value under `key`, that of the earliest entry that has the key.
pub open spec fn lookup<V>(entries: Seq<(String, V)>, key: Seq<char>) -> Option<V>
    decreases entries.len(),
{
    if entries.len() == 0 {
        None
    } else {
        match lookup(entries.drop_last(), key) {
            Some(v) => Some(v),
            None => if entries.last().0@ == key {
                Some(entries.last().1)
            } else {
                None
            },
        }
    }
}

/// The map that a list of pairs stands for, later pairs in force over earlier
/// ones.
pub open spec fn map_of<V>(list: Seq<(Seq<char>, V)>, n: int) -> Map<Seq<char>, V>
    decreases n,
{
    if n <= 0 {
        Map::empty()
    } else {
        map_of(list, n - 1).insert(list[n - 1].0, list[n - 1].1)
    }
}

/// `list` names each key of `m` once, with its value.
pub open spec fn is_listing<V>(list: Seq<(Seq<char>, V)>, m: Map<Seq<char>, V>) -> bool {
    &&& map_of(list, list.len() as int) == m
    &&& forall|i: int, j: int| 0 <= i < j < list.len() ==> (#[trigger] list[i]).0 != (#[trigger] list[j]).0
}

/// A map from text to plain values.
#[derive(Debug)]
pub struct TextMap<V> {
    entries: Vec<(String, V)>,
}

impl<V> View for TextMap<V> {
    type V = Map<Seq<char>, V>;

    closed spec fn view(&self) -> Map<Seq<char>, V> {
        Map::new(|k: Seq<char>| lookup(self.entries@, k) is Some, |k: Seq<char>|
            lookup(self.entries@, k)->0)
    }
}

impl<V> TextMap<V> {
    #[verifier::type_invariant]
    spec fn distinct(&self) -> bool {
        distinct_keys(self.entries@)
    }
}

spec fn distinct_keys<V>(e: Seq<(String, V)>) -> bool {
    forall|i: int, j: int| 0 <= i < j < e.len() ==> (#[trigger] e[i]).0@ != (#[trigger] e[j]).0@
}

spec fn pairs<V>(e: Seq<(String, V)>) -> Seq<(Seq<char>, V)> {
    Seq::new(e.len(), |i: int| (e[i].0@, e[i].1))
}

proof fn lemma_lookup_absent<V>(e: Seq<(String, V)>, key: Seq<char>, n: int)
    requires
        0 <= n <= e.len(),
    ensures
        lookup(e.take(n), key) is None <==> forall|i: int| 0 <= i < n ==> (#[trigger] e[i]).0@ != key,
    decreases n,
{
    if n > 0 {
        assert(e.take(n).drop_last() =~= e.take(n - 1));
        lemma_lookup_absent(e, key, n - 1);
    }
}

proof fn lemma_map_of_pairs<V>(e: Seq<(String, V)>, n: int, key: Seq<char>)
    requires
        0 <= n <= e.len(),
        distinct_keys(e),
    ensures
        map_of(pairs(e), n).contains_key(key) <==> lookup(e.take(n), key) is Some,
        lookup(e.take(n), key) matches Some(v) ==> map_of(pairs(e), n)[key] == v,
    decreases n,
{
    if n > 0 {
        assert(e.take(n).drop_last() =~= e.take(n - 1));
        lemma_map_of_pairs(e, n - 1, key);
        if key == e[n - 1].0@ {
            lemma_lookup_absent(e, key, n - 1);
        }
    }
}

proof fn lemma_lookup_prefix<V>(entries: Seq<(String, V)>, key: Seq<char>, n: int)
    requires
        0 <= n <= entries.len(),
        lookup(entries.take(n), key) is Some,
    ensures
        lookup(entries, key) == lookup(entries.take(n), key),
    decreases entries.len(),
{
    if n == entries.len() {
        assert(entries.take(n) =~= entries);
    } else {
        assert(entries.drop_last().take(n) =~= entries.take(n));
        lemma_lookup_prefix(entries.drop_last(), key, n);
    }
}

proof fn lemma_lookup_update<V>(entries: Seq<(String, V)>, i: int, value: V, key: Seq<char>)
    requires
        0 <= i < entries.len(),
        lookup(entries.take(i), entries[i].0@) is None,
    ensures
        lookup(entries.update(i, (entries[i].0, value)), key) == if key == entries[i].0@ {
            Some(value)
        } else {
            lookup(entries, key)
        },
    decreases entries.len(),
{
    let next = entries.update(i, (entries[i].0, value));
    if i == entries.len() - 1 {
        assert(next.drop_last() =~= entries.take(i));
        assert(entries.drop_last() =~= entries.take(i));
    } else {
        assert(entries.drop_last().take(i) =~= entries.take(i));
        assert(next.drop_last() =~= entries.drop_last().update(i, (entries[i].0, value)));
        lemma_lookup_update(entries.drop_last(), i, value, key);
        if key == entries[i].0@ {
            assert(entries.take(i + 1).drop_last() =~= entries.take(i));
            lemma_lookup_prefix(entries, key, i + 1);
        }
    }
}

impl<V: Copy> TextMap<V> {
    pub fn new() -> (r: TextMap<V>)
        ensures
            r@ == Map::<Seq<char>, V>::empty(),
    {
        let r = TextMap { entries: Vec::new() };
        assert(r@ =~= Map::<Seq<char>, V>::empty());
        r
    }

    /// Position of the entry that answers for `key`.
    fn position(&self, key: &str) -> (r: Option<usize>)
        ensures
            match r {
                Some(i) => i < self.entries@.len() && self.entries@[i as int].0@ == key@
                    && lookup(self.entries@.take(i as int), key@) is None,
                None => lookup(self.entries@, key@) is None,
            },
    {
        let mut i: usize = 0;
        while i < self.entries.len()
            invariant
                i <= self.entries@.len(),
                lookup(self.entries@.take(i as int), key@) is None,
            decreases self.entries@.len() - i,
        {
            if same_text(&self.entries[i].0, key) {
                return Some(i);
            }
            i = i + 1;
            assert(self.entries@.take(i as int).drop_last() =~= self.entries@.take(i - 1));
        }
        assert(self.entries@.take(i as int) =~= self.entries@);
        None
    }

    /// The value under `key`, if there is one.
    pub fn get(&self, key: &str) -> (r: Option<&V>)
        ensures
            match r {
                Some(v) => self@.contains_key(key@) && self@[key@] == *v,
                None => !self@.contains_key(key@),
            },
    {
        match self.position(key) {
            Some(i) => {
                proof {
                    let e = self.entries@;
                    assert(e.take(i + 1).drop_last() =~= e.take(i as int));
                    lemma_lookup_prefix(e, key@, i + 1);
                }
                Some(&self.entries[i].1)
            },
            None => None,
        }
    }

    /// Puts `value` under `key`, in place of any earlier one.
    pub fn insert(&mut self, key: String, value: V)
        ensures
            final(self)@ == old(self)@.insert(key@, value),
    {
        proof {
            use_type_invariant(&*self);
        }
        let at = self.position(&key);
        let ghost before = self.entries@;
        let ghost k0 = key@;
        let mut e: Vec<(String, V)> = Vec::new();
        std::mem::swap(&mut e, &mut self.entries);
        match at {
            Some(i) => {
                e[i].1 = value;
                proof {
                    assert(e@ =~= before.update(i as int, (before[i as int].0, value)));
                    assert forall|k: Seq<char>|
                        lookup(e@, k) == if k == k0 {
                            Some(value)
                        } else {
                            lookup(before, k)
                        } by {
                        lemma_lookup_update(before, i as int, value, k);
                    }
                }
            },
            None => {
                e.push((key, value));
                proof {
                    assert(e@.drop_last() =~= before);
                    assert forall|k: Seq<char>|
                        lookup(e@, k) == if k == k0 {
                            Some(value)
                        } else {
                            lookup(before, k)
                        } by {}
                    assert(before.take(before.len() as int) =~= before);
                    lemma_lookup_absent(before, k0, before.len() as int);
                }
            },
        }
        self.entries = e;
        assert(self@ =~= old(self)@.insert(k0, value));
    }

    /// The keys and values, each key once.
    pub fn pairs(&self) -> (r: Vec<(String, V)>)
        ensures
            is_listing(Seq::new(r@.len(), |i: int| (r@[i].0@, r@[i].1)), self@),
    {
        proof {
            use_type_invariant(self);
        }
        let mut out: Vec<(String, V)> = Vec::new();
        let mut i: usize = 0;
        while i < self.entries.len()
            invariant
                i <= self.entries@.len(),
                out@.len() == i,
                forall|j: int|
                    0 <= j < i ==> (#[trigger] out@[j]).0@ == self.entries@[j].0@ && out@[j].1
                        == self.entries@[j].1,
            decreases self.entries@.len() - i,
        {
            out.push((self.entries[i].0.clone(), self.entries[i].1));
            i = i + 1;
        }
        proof {
            let e = self.entries@;
            let list = Seq::new(out@.len(), |i: int| (out@[i].0@, out@[i].1));
            assert(list =~= pairs(e));
            assert(e.take(e.len() as int) =~= e);
            let m = map_of(list, list.len() as int);
            assert forall|k: Seq<char>| m.dom().contains(k) <==> self@.dom().contains(k) by {
                lemma_map_of_pairs(e, e.len() as int, k);
            }
            assert(m.dom() =~= self@.dom());
            assert forall|k: Seq<char>| m.dom().contains(k) implies m[k] == self@[k] by {
                lemma_map_of_pairs(e, e.len() as int, k);
            }
            assert(m =~= self@);
        }
        out
    }
}

impl<V: Copy> Clone for TextMap<V> {
    fn clone(&self) -> (r: TextMap<V>)
        ensures
            r@ == self@,
    {
        proof {
            use_type_invariant(self);
        }
        let mut out: Vec<(String, V)> = Vec::new();
        let mut i: usize = 0;
        while i < self.entries.len()
            invariant
                i <= self.entries@.len(),
                out@.len() == i,
                forall|j: int| 0 <= j < i ==> (#[trigger] out@[j]).0@ == self.entries@[j].0@,
                forall|k: Seq<char>|
                    lookup(out@, k) == #[trigger] lookup(self.entries@.take(i as int), k),
            decreases self.entries@.len() - i,
        {
            let ghost prev = out@;
            out.push((self.entries[i].0.clone(), self.entries[i].1));
            i = i + 1;
            proof {
                assert(out@.drop_last() =~= prev);
                assert(self.entries@.take(i as int).drop_last() =~= self.entries@.take(i - 1));
                assert forall|k: Seq<char>|
                    lookup(out@, k) == #[trigger] lookup(self.entries@.take(i as int), k) by {
                    assert(lookup(prev, k) == lookup(self.entries@.take(i - 1), k));
                }
            }
        }
        assert(self.entries@.take(i as int) =~= self.entries@);
        let r = TextMap { entries: out };
        assert(r@ =~= self@);
        r
    }
}

} // verus!
