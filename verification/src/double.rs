//! Scaling of whole numbers as double-precision arithmetic rounds it: every step
//! keeps 53 binary digits.

use vstd::prelude::*;

verus! {

/// `n / d` to the nearest whole number; a tie goes to the even one.
pub open spec fn near(n: int, d: int) -> int {
    let q = n / d;
    let r = n % d;
    if 2 * r < d || (2 * r == d && q % 2 == 0) {
        q
    } else {
        q + 1
    }
}

/// The least of `u`, `2u`, `4u`, ... in whose multiples `n` has at most 53 binary
/// digits.
pub open spec fn spacing(n: int, u: int) -> int
    decreases n - u,
{
    if u > 0 && n / u >= 0x20_0000_0000_0000 {
        proof {
            lemma_within(n, u);
        }
        spacing(n, 2 * u)
    } else {
        u
    }
}

/// `n` rounded to 53 binary digits.
pub open spec fn rounded(n: int) -> int {
    near(n, spacing(n, 1)) * spacing(n, 1)
}

/// The least of `d`, `2d`, `4d`, ... of whose parts `a / b` holds so many that they
/// have 53 binary digits.
pub open spec fn fineness(a: int, b: int, d: int) -> int
    decreases 0x20_0000_0000_0000 * b - a * d,
{
    if a > 0 && b > 0 && d > 0 && (a * d) / b < 0x10_0000_0000_0000 {
        proof {
            lemma_coarse(a, b, d);
        }
        fineness(a, b, 2 * d)
    } else {
        d
    }
}

/// The whole part of `w * (a / b)`, with every number, the quotient and the product
/// rounded to 53 binary digits.
pub open spec fn shrunk(w: int, a: int, b: int) -> int {
    let x = rounded(a);
    let y = rounded(b);
    let d = fineness(x, y, 1);
    rounded(rounded(w) * near(x * d, y)) / d
}

/// A unit that goes into `n` so often is smaller than `n`.
pub proof fn lemma_within(n: int, u: int)
    requires
        u > 0,
        n / u >= 0x20_0000_0000_0000,
    ensures
        0x20_0000_0000_0000 * u <= n,
{
    assert(0x20_0000_0000_0000 * u <= n) by (nonlinear_arith)
        requires
            u > 0,
            n / u >= 0x20_0000_0000_0000,
    ;
}

/// Parts of which `a / b` holds too few can be halved.
pub proof fn lemma_coarse(a: int, b: int, d: int)
    requires
        a > 0,
        b > 0,
        d > 0,
        (a * d) / b < 0x10_0000_0000_0000,
    ensures
        a * d < 0x10_0000_0000_0000 * b,
        a * (2 * d) == 2 * (a * d),
        d <= a * d,
{
    let p = a * d;
    assert(p < 0x10_0000_0000_0000 * b) by (nonlinear_arith)
        requires
            b > 0,
            p / b < 0x10_0000_0000_0000,
    ;
    assert(a * (2 * d) == 2 * (a * d)) by (nonlinear_arith);
    assert(d <= a * d) by (nonlinear_arith)
        requires
            a > 0,
            d > 0,
    ;
}

proof fn lemma_near(n: int, d: int)
    requires
        0 <= n,
        0 < d,
    ensures
        0 <= n / d <= near(n, d) <= n / d + 1,
        n - d < near(n, d) * d <= n + d,
        0 <= near(n, d) * d,
{
    let q = n / d;
    let k = near(n, d);
    assert(0 <= q && n - d < q * d <= n) by (nonlinear_arith)
        requires
            0 <= n,
            0 < d,
            q == n / d,
    ;
    assert(q * d <= k * d <= q * d + d && 0 <= k * d) by (nonlinear_arith)
        requires
            0 <= q <= k <= q + 1,
            0 < d,
    ;
}

proof fn lemma_spacing(n: int, u: int)
    requires
        0 <= n,
        0 < u,
        u == 1 || 0x10_0000_0000_0000 * u <= n,
    ensures
        u <= spacing(n, u),
        spacing(n, u) == 1 || 0x10_0000_0000_0000 * spacing(n, u) <= n,
    decreases n - u,
{
    if n / u >= 0x20_0000_0000_0000 {
        lemma_within(n, u);
        lemma_spacing(n, 2 * u);
    }
}

/// Rounding changes a number by less than a half of it.
proof fn lemma_rounded(n: int)
    requires
        0 < n,
    ensures
        n <= 2 * rounded(n),
        0 < rounded(n) <= 2 * n,
{
    lemma_spacing(n, 1);
    let u = spacing(n, 1);
    lemma_near(n, u);
    if u == 1 {
        assert(near(n, 1) == n);
    }
}

/// Divides to the nearest whole number.
fn divide_near(n: u128, d: u128) -> (r: u128)
    requires
        d > 0,
        n < 0x8000_0000_0000_0000_0000_0000_0000_0000,
        d < 0x4000_0000_0000_0000_0000_0000_0000_0000,
    ensures
        r == near(n as int, d as int),
{
    let q = n / d;
    let r = n % d;
    if 2 * r < d || (2 * r == d && q % 2 == 0) {
        q
    } else {
        assert(q <= n) by (nonlinear_arith)
            requires
                q == n / d,
                d > 0,
                n >= 0,
        ;
        q + 1
    }
}

/// Rounds to 53 binary digits.
fn round_digits(n: u128) -> (r: u128)
    requires
        n < 0x0080_0000_0000_0000_0000_0000_0000_0000,
    ensures
        r == rounded(n as int),
        r <= 2 * n,
{
    let mut u: u128 = 1;
    while n / u >= 0x20_0000_0000_0000
        invariant
            n < 0x0080_0000_0000_0000_0000_0000_0000_0000,
            u > 0,
            u == 1 || 0x10_0000_0000_0000 * u <= n,
            spacing(n as int, 1) == spacing(n as int, u as int),
        decreases n - u,
    {
        proof {
            lemma_within(n as int, u as int);
        }
        u = 2 * u;
    }
    let k = divide_near(n, u);
    proof {
        lemma_near(n as int, u as int);
        if u == 1 {
            assert(near(n as int, 1) == n);
        }
    }
    k * u
}

/// Scales a whole number down by a fraction, as double-precision arithmetic does;
/// `None` where the result is no `usize`.
pub fn shrink(w: usize, a: usize, b: usize) -> (r: Option<usize>)
    requires
        0 < a < b,
    ensures
        match r {
            Some(n) => n == shrunk(w as int, a as int, b as int),
            None => shrunk(w as int, a as int, b as int) > usize::MAX,
        },
{
    let x = round_digits(a as u128);
    let y = round_digits(b as u128);
    let z = round_digits(w as u128);
    proof {
        lemma_rounded(a as int);
        lemma_rounded(b as int);
    }
    let mut d: u128 = 1;
    assert(x * d == x) by (nonlinear_arith)
        requires
            d == 1,
    ;
    while (x * d) / y < 0x10_0000_0000_0000
        invariant
            0 < x <= 0x2_0000_0000_0000_0000,
            0 < y <= 0x2_0000_0000_0000_0000,
            d > 0,
            x * d < 0x20_0000_0000_0000 * y,
            fineness(x as int, y as int, 1) == fineness(x as int, y as int, d as int),
        decreases 0x20_0000_0000_0000 * y - x * d,
    {
        proof {
            lemma_coarse(x as int, y as int, d as int);
        }
        d = 2 * d;
    }
    let n = x * d;
    let m = divide_near(n, y);
    proof {
        lemma_near(n as int, y as int);
        assert(n / y < 0x20_0000_0000_0000) by (nonlinear_arith)
            requires
                n < 0x20_0000_0000_0000 * y,
                y > 0,
        ;
        assert(z * m <= 0x2_0000_0000_0000_0000 * 0x20_0000_0000_0000) by (nonlinear_arith)
            requires
                0 <= z <= 0x2_0000_0000_0000_0000,
                0 <= m <= 0x20_0000_0000_0000,
        ;
        assert(z * m >= 0) by (nonlinear_arith)
            requires
                0 <= z,
                0 <= m,
        ;
    }
    let v = round_digits(z * m) / d;
    if v > usize::MAX as u128 {
        None
    } else {
        Some(v as usize)
    }
}

} // verus!
