//! Decimal numbers in text.

use vstd::prelude::*;
use crate::text;

verus! {

/// The number that decimal digits write.
pub open spec fn digits_value(s: Seq<char>) -> int
    decreases s.len(),
{
    if s.len() == 0 {
        0
    } else {
        10 * digits_value(s.drop_last()) + (s.last() as int - '0' as int)
    }
}

pub open spec fn is_digit(c: char) -> bool {
    '0' <= c && c <= '9'
}

/// True when `s` holds digits only, at least one.
pub open spec fn all_digits(s: Seq<char>) -> bool {
    s.len() > 0 && forall|i: int| 0 <= i < s.len() ==> is_digit(#[trigger] s[i])
}

/// The digits of a number without a leading plus sign.
pub open spec fn unsigned(s: Seq<char>) -> Seq<char> {
    if s.len() > 0 && s[0] == '+' {
        s.skip(1)
    } else {
        s
    }
}

/// The number up to `max` that `s` writes in decimal, a plus sign allowed.
pub open spec fn value_within(s: Seq<char>, max: u64) -> Option<int> {
    if all_digits(unsigned(s)) && digits_value(unsigned(s)) <= max {
        Some(digits_value(unsigned(s)))
    } else {
        None
    }
}

proof fn lemma_digits_grow(s: Seq<char>, n: int)
    requires
        0 <= n <= s.len(),
        forall|i: int| 0 <= i < s.len() ==> is_digit(#[trigger] s[i]),
    ensures
        0 <= digits_value(s.take(n)) <= digits_value(s),
    decreases s.len(),
{
    if n == s.len() {
        assert(s.take(n) =~= s);
        if n > 0 {
            lemma_digits_grow(s.drop_last(), n - 1);
            assert(is_digit(s[n - 1]));
        }
    } else {
        assert(s.drop_last().take(n) =~= s.take(n));
        lemma_digits_grow(s.drop_last(), n);
        assert(is_digit(s[s.len() - 1]));
    }
}

/// Reads a number up to `max` in decimal.
pub fn parse_within(cs: &[char], max: u64) -> (r: Option<u64>)
    ensures
        match r {
            Some(v) => value_within(cs@, max) == Some(v as int),
            None => value_within(cs@, max) is None,
        },
{
    let start: usize = if cs.len() > 0 && cs[0] == '+' {
        1
    } else {
        0
    };
    let ghost ds = unsigned(cs@);
    assert(ds =~= cs@.skip(start as int));
    if start == cs.len() {
        return None;
    }
    let mut v: u64 = 0;
    let mut i: usize = start;
    while i < cs.len()
        invariant
            start <= i <= cs@.len(),
            start < cs@.len(),
            ds == cs@.skip(start as int),
            ds == unsigned(cs@),
            forall|k: int| 0 <= k < i - start ==> is_digit(#[trigger] ds[k]),
            v == digits_value(ds.take(i - start)),
            v <= max,
        decreases cs@.len() - i,
    {
        let c = cs[i];
        assert(ds[i - start] == c);
        if !('0' <= c && c <= '9') {
            return None;
        }
        let next: u128 = v as u128 * 10 + (c as u32 - '0' as u32) as u128;
        i = i + 1;
        assert(ds.take(i - start).drop_last() =~= ds.take(i - start - 1));
        if next > max as u128 {
            proof {
                if all_digits(ds) {
                    lemma_digits_grow(ds, i - start);
                }
            }
            return None;
        }
        v = next as u64;
    }
    assert(ds.take(i - start) =~= ds);
    Some(v)
}

/// A number written in decimal reads back as itself.
pub proof fn law_decimal_round_trip(n: nat)
    ensures
        all_digits(text::decimal(n)),
        digits_value(text::decimal(n)) == n,
        unsigned(text::decimal(n)) == text::decimal(n),
    decreases n,
{
    let d = text::decimal(n);
    if n < 10 {
        assert(d.drop_last() =~= Seq::<char>::empty());
        assert(digits_value(d.drop_last()) == 0);
    } else {
        law_decimal_round_trip(n / 10);
        assert(d.drop_last() =~= text::decimal(n / 10));
    }
}

} // verus!
