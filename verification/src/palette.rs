//! Terminal color depth and the xterm-256 palette.

use vstd::prelude::*;
use crate::style::Color;
use crate::text;
use crate::text::{find_from, matches_at, same_text, to_chars, to_lower};

verus! {

/// How many colors a terminal shows.
#[derive(Clone, Copy, Debug, PartialEq, Eq, Structural)]
pub enum ColorDepth {
    TrueColor,
    Indexed256,
}

/// True when `s` ends with `p`.
pub open spec fn ends_with(s: Seq<char>, p: Seq<char>) -> bool {
    text::occurs_at(s, p, s.len() - p.len())
}

/// True when `p` stands somewhere in `s`.
pub open spec fn contains_text(s: Seq<char>, p: Seq<char>) -> bool {
    text::first_from(s, p, 0) is Some
}

/// True of a `COLORTERM` that advertises 24-bit color.
pub open spec fn advertises(v: Seq<char>) -> bool {
    text::lower_text(v) == "truecolor"@ || text::lower_text(v) == "24bit"@
}

/// True of a `TERM_PROGRAM` known to show 24-bit color.
pub open spec fn capable_program(p: Seq<char>) -> bool {
    p == "iTerm.app"@ || p == "vscode"@ || p == "WezTerm"@ || p == "ghostty"@ || p == "Hyper"@
}

/// True of a `TERM` that names a direct-color terminal.
pub open spec fn direct_term(t: Seq<char>) -> bool {
    ends_with(t, "-direct"@) || contains_text(t, "truecolor"@) || t == "xterm-kitty"@
}

/// The depth that the terminal's environment stands for. An explicit
/// `COLORTERM` wins; Apple's terminal never shows 24-bit color by itself.
pub open spec fn depth_of(
    colorterm: Option<Seq<char>>,
    term_program: Option<Seq<char>>,
    term: Option<Seq<char>>,
) -> ColorDepth {
    if colorterm matches Some(v) && advertises(v) {
        ColorDepth::TrueColor
    } else if term_program == Some("Apple_Terminal"@) {
        ColorDepth::Indexed256
    } else if (term_program matches Some(p) && capable_program(p)) || (term matches Some(t)
        && direct_term(t)) {
        ColorDepth::TrueColor
    } else {
        ColorDepth::Indexed256
    }
}

/// The text behind an optional slice.
pub open spec fn opt_text(o: Option<&str>) -> Option<Seq<char>> {
    match o {
        Some(s) => Some(s@),
        None => None,
    }
}

fn is_direct_term(t: &str) -> (r: bool)
    ensures
        r == direct_term(t@),
{
    let cs = to_chars(t);
    let suffix = to_chars("-direct");
    let tail = cs.len() >= suffix.len() && matches_at(&cs, &suffix, cs.len() - suffix.len());
    tail || find_from(&cs, &to_chars("truecolor"), 0).is_some() || same_text(t, "xterm-kitty")
}

/// Decides the color depth from the values of `COLORTERM`, `TERM_PROGRAM` and
/// `TERM`.
pub fn depth(
    colorterm: Option<&str>,
    term_program: Option<&str>,
    term: Option<&str>,
) -> (r: ColorDepth)
    ensures
        r == depth_of(opt_text(colorterm), opt_text(term_program), opt_text(term)),
{
    match colorterm {
        Some(v) => {
            let low = to_lower(v);
            if same_text(&low, "truecolor") || same_text(&low, "24bit") {
                return ColorDepth::TrueColor;
            }
        },
        None => {},
    }
    match term_program {
        Some(p) => {
            if same_text(p, "Apple_Terminal") {
                return ColorDepth::Indexed256;
            }
            if same_text(p, "iTerm.app") || same_text(p, "vscode") || same_text(p, "WezTerm")
                || same_text(p, "ghostty") || same_text(p, "Hyper") {
                return ColorDepth::TrueColor;
            }
        },
        None => {},
    }
    match term {
        Some(t) => {
            if is_direct_term(t) {
                return ColorDepth::TrueColor;
            }
        },
        None => {},
    }
    ColorDepth::Indexed256
}

// ---------------------------------------------------------------------------
// The palette
// ---------------------------------------------------------------------------

/// The six channel levels of the color cube.
pub open spec fn level(i: int) -> int {
    if i <= 0 {
        0
    } else {
        55 + 40 * i
    }
}

/// The color at a palette index: the 6x6x6 cube at 16..=231, the grayscale ramp
/// at 232..=255.
pub open spec fn entry(i: int) -> (int, int, int) {
    if i < 232 {
        (level((i - 16) / 36), level(((i - 16) / 6) % 6), level((i - 16) % 6))
    } else {
        (8 + 10 * (i - 232), 8 + 10 * (i - 232), 8 + 10 * (i - 232))
    }
}

/// Squared distance of two values.
pub open spec fn sq(a: int, b: int) -> int {
    (a - b) * (a - b)
}

/// Squared distance of two colors.
pub open spec fn distance(a: (int, int, int), b: (int, int, int)) -> int {
    sq(a.0, b.0) + sq(a.1, b.1) + sq(a.2, b.2)
}

/// Squared distance of two colors.
pub fn sq_dist(a: (u8, u8, u8), b: (u8, u8, u8)) -> (d: i32)
    ensures
        d == distance((a.0 as int, a.1 as int, a.2 as int), (b.0 as int, b.1 as int, b.2 as int)),
        0 <= d,
{
    let dr: i32 = a.0 as i32 - b.0 as i32;
    let dg: i32 = a.1 as i32 - b.1 as i32;
    let db: i32 = a.2 as i32 - b.2 as i32;
    assert(0 <= dr * dr <= 65025) by (nonlinear_arith)
        requires
            -255 <= dr <= 255,
    ;
    assert(0 <= dg * dg <= 65025) by (nonlinear_arith)
        requires
            -255 <= dg <= 255,
    ;
    assert(0 <= db * db <= 65025) by (nonlinear_arith)
        requires
            -255 <= db <= 255,
    ;
    dr * dr + dg * dg + db * db
}

/// `i` is the first palette index from 16 on whose color is nearest to `c`.
pub open spec fn is_nearest(c: (int, int, int), i: int) -> bool {
    &&& 16 <= i <= 255
    &&& forall|j: int| 16 <= j < i ==> distance(c, entry(i)) < #[trigger] distance(c, entry(j))
    &&& forall|j: int| i < j <= 255 ==> distance(c, entry(i)) <= #[trigger] distance(c, entry(j))
}

/// A color has only one nearest palette index.
pub proof fn law_nearest_is_unique(c: (int, int, int), i: int, j: int)
    requires
        is_nearest(c, i),
        is_nearest(c, j),
    ensures
        i == j,
{
    let a = distance(c, entry(i));
    let b = distance(c, entry(j));
    if i < j {
        assert(a <= b && b < a);
    } else if j < i {
        assert(b <= a && a < b);
    }
}

/// The nearest palette index of a color.
pub open spec fn nearest(c: (int, int, int)) -> int {
    choose|i: int| is_nearest(c, i)
}

fn level_value(i: u8) -> (v: u8)
    requires
        i <= 5,
    ensures
        v == level(i as int),
{
    if i == 0 {
        0
    } else {
        55 + 40 * i
    }
}

/// The first level nearest to a channel value.
fn nearest_level(c: u8) -> (i: u8)
    ensures
        i <= 5,
        forall|j: int| 0 <= j < i ==> sq(c as int, level(i as int)) < #[trigger] sq(c as int, level(j)),
        forall|j: int| i < j <= 5 ==> sq(c as int, level(i as int)) <= #[trigger] sq(c as int, level(j)),
{
    let i: u8 = if c <= 47 {
        0
    } else if c <= 115 {
        1
    } else if c <= 155 {
        2
    } else if c <= 195 {
        3
    } else if c <= 235 {
        4
    } else {
        5
    };
    proof {
        let x = c as int;
        let v = level(i as int);
        assert forall|j: int| 0 <= j < i implies sq(x, v) < #[trigger] sq(x, level(j)) by {
            let u = level(j);
            assert((x - v) * (x - v) < (x - u) * (x - u)) by (nonlinear_arith)
                requires
                    u < v,
                    2 * x > u + v,
            ;
        }
        assert forall|j: int| i < j <= 5 implies sq(x, v) <= #[trigger] sq(x, level(j)) by {
            let u = level(j);
            assert((x - v) * (x - v) <= (x - u) * (x - u)) by (nonlinear_arith)
                requires
                    u > v,
                    2 * x <= u + v,
            ;
        }
    }
    i
}

/// The first step of the grayscale ramp nearest to a color, and its distance.
fn nearest_gray(r: u8, g: u8, b: u8) -> (res: (u8, i32))
    ensures
        res.0 < 24,
        res.1 == distance((r as int, g as int, b as int), entry(232 + res.0)),
        forall|n: int|
            232 <= n < 232 + res.0 ==> res.1 < #[trigger] distance(
                (r as int, g as int, b as int),
                entry(n),
            ),
        forall|n: int|
            232 + res.0 < n <= 255 ==> res.1 <= #[trigger] distance(
                (r as int, g as int, b as int),
                entry(n),
            ),
{
    let mut best: u8 = 0;
    let mut best_d: i32 = sq_dist((r, g, b), (8, 8, 8));
    let mut n: u8 = 1;
    while n < 24
        invariant
            1 <= n <= 24,
            best < n,
            best_d == distance((r as int, g as int, b as int), entry(232 + best)),
            forall|m: int|
                232 <= m < 232 + best ==> best_d < #[trigger] distance(
                    (r as int, g as int, b as int),
                    entry(m),
                ),
            forall|m: int|
                232 + best < m < 232 + n ==> best_d <= #[trigger] distance(
                    (r as int, g as int, b as int),
                    entry(m),
                ),
        decreases 24 - n,
    {
        let v: u8 = 8 + n * 10;
        let d = sq_dist((r, g, b), (v, v, v));
        if d < best_d {
            best = n;
            best_d = d;
        }
        n = n + 1;
    }
    (best, best_d)
}

/// A cube entry is no nearer than the one built from the nearest levels, and an
/// earlier one is farther.
proof fn lemma_cube(c: (int, int, int), ri: int, gi: int, bi: int, j: int)
    requires
        0 <= ri <= 5,
        0 <= gi <= 5,
        0 <= bi <= 5,
        16 <= j < 232,
        forall|k: int| 0 <= k < ri ==> sq(c.0, level(ri)) < #[trigger] sq(c.0, level(k)),
        forall|k: int| ri < k <= 5 ==> sq(c.0, level(ri)) <= #[trigger] sq(c.0, level(k)),
        forall|k: int| 0 <= k < gi ==> sq(c.1, level(gi)) < #[trigger] sq(c.1, level(k)),
        forall|k: int| gi < k <= 5 ==> sq(c.1, level(gi)) <= #[trigger] sq(c.1, level(k)),
        forall|k: int| 0 <= k < bi ==> sq(c.2, level(bi)) < #[trigger] sq(c.2, level(k)),
        forall|k: int| bi < k <= 5 ==> sq(c.2, level(bi)) <= #[trigger] sq(c.2, level(k)),
    ensures
        ({
            let i = 16 + 36 * ri + 6 * gi + bi;
            &&& entry(i) == (level(ri), level(gi), level(bi))
            &&& distance(c, entry(i)) <= distance(c, entry(j))
            &&& j < i ==> distance(c, entry(i)) < distance(c, entry(j))
        }),
{
    let i = 16 + 36 * ri + 6 * gi + bi;
    assert((i - 16) / 36 == ri);
    assert(((i - 16) / 6) == 6 * ri + gi);
    assert((6 * ri + gi) % 6 == gi);
    assert((i - 16) % 6 == bi);
    let a = (j - 16) / 36;
    let b = ((j - 16) / 6) % 6;
    let d = (j - 16) % 6;
    assert(j - 16 == 36 * a + 6 * b + d);
    assert(0 <= a <= 5 && 0 <= b <= 5 && 0 <= d <= 5);
    assert(sq(c.0, level(ri)) <= sq(c.0, level(a)));
    assert(sq(c.1, level(gi)) <= sq(c.1, level(b)));
    assert(sq(c.2, level(bi)) <= sq(c.2, level(d)));
}

/// Maps a color to the nearest xterm-256 index, of the 6x6x6 cube (16..=231) or
/// the grayscale ramp (232..=255); on a tie, to the lowest.
pub fn rgb_to_xterm256(r: u8, g: u8, b: u8) -> (i: u8)
    ensures
        is_nearest((r as int, g as int, b as int), i as int),
        i == nearest((r as int, g as int, b as int)),
{
    let ri = nearest_level(r);
    let gi = nearest_level(g);
    let bi = nearest_level(b);
    let cube: u8 = 16 + 36 * ri + 6 * gi + bi;
    let cube_d = sq_dist((r, g, b), (level_value(ri), level_value(gi), level_value(bi)));
    let (gray, gray_d) = nearest_gray(r, g, b);
    proof {
        let c = (r as int, g as int, b as int);
        assert forall|j: int| 16 <= j < 232 implies #[trigger] distance(c, entry(j)) >= cube_d && (j
            < cube ==> distance(c, entry(j)) > cube_d) by {
            lemma_cube(c, ri as int, gi as int, bi as int, j);
        }
        lemma_cube(c, ri as int, gi as int, bi as int, 16);
    }
    let i: u8 = if gray_d < cube_d {
        232 + gray
    } else {
        cube
    };
    proof {
        let c = (r as int, g as int, b as int);
        assert(is_nearest(c, i as int));
        law_nearest_is_unique(c, i as int, nearest(c));
    }
    i
}

/// The color that a terminal of the given depth gets for an RGB triple.
pub open spec fn shown(depth: ColorDepth, r: u8, g: u8, b: u8) -> Color {
    match depth {
        ColorDepth::TrueColor => Color::Rgb(r, g, b),
        ColorDepth::Indexed256 => Color::Indexed(nearest((r as int, g as int, b as int)) as u8),
    }
}

/// `Color::Rgb` when 24-bit color is supported, otherwise the nearest
/// `Color::Indexed` entry of the xterm-256 palette.
pub fn rgb(depth: ColorDepth, r: u8, g: u8, b: u8) -> (c: Color)
    ensures
        c == shown(depth, r, g, b),
{
    match depth {
        ColorDepth::TrueColor => Color::Rgb(r, g, b),
        ColorDepth::Indexed256 => Color::Indexed(rgb_to_xterm256(r, g, b)),
    }
}

} // verus!
