//! Scrolling: wheel, pages and the keyboard focus.

use vstd::prelude::*;
use crate::actions;
use crate::actions::{clamp_shift, max_scroll, to_scroll};
use crate::app;
use crate::app::App;
use crate::reader;
use crate::reader::{Focus, Reader};
use crate::search::wrap_index;
use crate::views;

verus! {

broadcast use crate::views::group_views;

// ---------------------------------------------------------------------------
// The wheel
// ---------------------------------------------------------------------------

/// A wheel tick this long after the last one stands for itself.
pub const DELIBERATE_MS: u64 = 200;

/// Whether a tick at `now` stands for itself.
pub open spec fn is_deliberate(last: Option<u64>, now: u64) -> bool {
    match last {
        Some(t) => now >= t + DELIBERATE_MS,
        None => true,
    }
}

/// `x / 1000`, towards zero.
pub open spec fn whole(x: int) -> int {
    if x >= 0 {
        x / 1000
    } else {
        -((-x) / 1000)
    }
}

/// The credit that a tick starts from: what is left of earlier ticks in the same
/// direction.
pub open spec fn carried(accum: int, requested: int) -> int {
    if (accum > 0 && requested < 0) || (accum < 0 && requested > 0) {
        0
    } else {
        accum
    }
}

/// Lines to scroll for a tick and the credit that is left, in thousandths of a
/// line. A tick that stands for itself moves by one line; in a burst each counts
/// half, and fractions add up.
pub open spec fn dampened(last: Option<u64>, accum: int, requested: int, now: u64) -> (int, int) {
    if requested == 0 {
        (0, accum)
    } else if is_deliberate(last, now) {
        (
            if requested > 0 {
                1
            } else {
                -1
            },
            0,
        )
    } else {
        let sum = carried(accum, requested) + requested * 500;
        (whole(sum), sum - whole(sum) * 1000)
    }
}

/// Lines to scroll for a wheel tick of `requested` lines at `now`.
pub fn compute_dampened_scroll(
    last_at: &mut Option<u64>,
    accum: &mut i32,
    requested: i32,
    now: u64,
) -> (lines: i32)
    ensures
        (lines as int, *final(accum) as int) == dampened(
            *old(last_at),
            *old(accum) as int,
            requested as int,
            now,
        ),
        *final(last_at) == (if requested == 0 {
            *old(last_at)
        } else {
            Some(now)
        }),
{
    if requested == 0 {
        return 0;
    }
    let deliberate = match *last_at {
        Some(t) => now >= t && now - t >= DELIBERATE_MS,
        None => true,
    };
    *last_at = Some(now);
    if deliberate {
        *accum = 0;
        return if requested > 0 {
            1
        } else {
            -1
        };
    }
    let carry: i32 = if (*accum > 0 && requested < 0) || (*accum < 0 && requested > 0) {
        0
    } else {
        *accum
    };
    let sum: i64 = carry as i64 + requested as i64 * 500;
    let lines: i64 = if sum >= 0 {
        sum / 1000
    } else {
        -((-sum) / 1000)
    };
    *accum = (sum - lines * 1000) as i32;
    lines as i32
}

/// Credit and lines after `n` ticks of a burst.
pub open spec fn burst(accum: int, requested: int, n: nat) -> (int, int)
    decreases n,
{
    if n == 0 {
        (0, accum)
    } else {
        let (lines, left) = burst(accum, requested, (n - 1) as nat);
        let (more, rest) = dampened(Some(0), left, requested, 0);
        (lines + more, rest)
    }
}

/// A deliberate tick moves by one line in its direction, however far the wheel
/// says that it turned, and leaves no credit.
pub proof fn law_deliberate_tick_is_one_line(
    last: Option<u64>,
    accum: int,
    requested: int,
    now: u64,
)
    requires
        requested != 0,
        is_deliberate(last, now),
    ensures
        dampened(last, accum, requested, now) == (
            if requested > 0 {
                1int
            } else {
                -1
            },
            0int,
        ),
{
}

/// A tick never scrolls against its direction, and less than a line of credit is
/// left.
pub proof fn law_tick_keeps_direction(
    last: Option<u64>,
    accum: int,
    requested: int,
    now: u64,
)
    requires
        requested != 0,
    ensures
        requested > 0 ==> dampened(last, accum, requested, now).0 >= 0,
        requested < 0 ==> dampened(last, accum, requested, now).0 <= 0,
        -1000 < dampened(last, accum, requested, now).1 < 1000,
{
}

/// A burst in one direction that starts without credit scrolls half as far as the
/// wheel says, up to the fraction of a line that is carried on.
pub proof fn law_burst_is_halved(requested: int, n: nat)
    requires
        requested != 0,
    ensures
        burst(0, requested, n).0 * 1000 + burst(0, requested, n).1 == requested * 500 * n,
        requested > 0 ==> 0 <= burst(0, requested, n).1 < 1000,
        requested < 0 ==> -1000 < burst(0, requested, n).1 <= 0,
    decreases n,
{
    if n > 0 {
        law_burst_is_halved(requested, (n - 1) as nat);
        assert(requested * 500 * n == requested * 500 * (n - 1) + requested * 500)
            by (nonlinear_arith);
    } else {
        assert(requested * 500 * 0 == 0) by (nonlinear_arith);
    }
}

// ---------------------------------------------------------------------------
// Lines and pages
// ---------------------------------------------------------------------------

impl app::BrowserModel {
    /// The list with line `i` selected, scrolled so that it is among `rows`
    /// visible ones.
    pub open spec fn at(self, i: int, rows: int) -> app::BrowserModel {
        app::BrowserModel {
            selected: i as usize,
            scroll: if i < self.scroll {
                actions::scroll_of(i)
            } else if i >= self.scroll + rows {
                actions::scroll_of(i + 1 - rows)
            } else {
                self.scroll
            },
            ..self
        }
    }
}

/// Rows of a list in a bordered body of height `h`.
pub open spec fn list_rows(h: u16) -> int {
    if h > 3 {
        h - 2
    } else {
        1
    }
}

/// Rows that a page key moves by.
pub open spec fn page_rows(h: u16, half: bool) -> int {
    if half {
        if h > 3 {
            h as int / 2
        } else {
            1
        }
    } else if h > 2 {
        h - 1
    } else {
        1
    }
}

/// The lesser of two scroll positions.
pub open spec fn lower(a: u16, b: u16) -> u16 {
    if a < b {
        a
    } else {
        b
    }
}

pub(crate) fn min_scroll(a: u16, b: u16) -> (r: u16)
    ensures
        r == lower(a, b),
{
    if a < b {
        a
    } else {
        b
    }
}

impl app::Model {
    pub open spec fn with_list(self, b: app::BrowserModel) -> app::Model {
        app::Model { view: app::Screen::Browser(b), ..self }
    }

    /// The last scroll position of the document.
    pub open spec fn last_scroll(self, r: reader::ReaderModel) -> int {
        app::max_scroll(r.total() as int, self.viewport.height as int)
    }

    /// Scrolls the document, up to its ends, or moves the selection of the list,
    /// around its ends.
    pub open spec fn scrolled(self, delta: int) -> app::Model {
        match self.view {
            app::Screen::Reader(r) => self.with_doc(
                reader::ReaderModel {
                    scroll: actions::scroll_of(
                        app::clamped(r.scroll + delta, self.last_scroll(r)),
                    ),
                    ..r
                },
            ).told(Seq::empty()),
            app::Screen::Browser(b) => if b.entries.len() == 0 {
                self
            } else {
                self.with_list(
                    b.at(
                        (b.selected + delta) % (b.entries.len() as int),
                        list_rows(self.viewport.height),
                    ),
                )
            },
        }
    }

    /// Scrolls the document to a line, or as close as its end allows.
    pub open spec fn scrolled_to(self, line: u16) -> app::Model {
        match self.doc() {
            Some(r) => self.with_doc(
                reader::ReaderModel {
                    scroll: lower(line, actions::scroll_of(self.last_scroll(r))),
                    ..r
                },
            ),
            None => self,
        }
    }

    /// Scrolls by pages or half pages.
    pub open spec fn paged(self, pages: int, down: bool, half: bool) -> app::Model {
        let amount = pages * page_rows(self.viewport.height, half);
        self.scrolled(
            if down {
                amount
            } else {
                -amount
            },
        )
    }

    /// Scrolls by a wheel tick.
    pub open spec fn wheeled(self, requested: int, now: u64) -> app::Model {
        let (lines, left) = dampened(
            self.last_scroll_at,
            self.scroll_accum as int,
            requested,
            now,
        );
        let ticked = app::Model {
            scroll_accum: left as i32,
            last_scroll_at: if requested == 0 {
                self.last_scroll_at
            } else {
                Some(now)
            },
            ..self
        };
        if lines == 0 {
            ticked
        } else {
            ticked.scrolled(lines)
        }
    }

    /// Brings a line of the document into view.
    pub open spec fn showing_line(self, line: int) -> app::Model {
        let h = self.viewport.height as int;
        match self.doc() {
            Some(r) => if line < r.scroll || line >= r.scroll + app::max_scroll(h, 1) {
                self.with_doc(
                    reader::ReaderModel {
                        scroll: actions::scroll_of(app::max_scroll(line, h / 2)),
                        ..r
                    },
                )
            } else {
                self
            },
            None => self,
        }
    }
}

impl App {
    /// Scrolls by `delta` lines.
    pub fn scroll_by(&mut self, delta: i64)
        ensures
            final(self)@ == old(self)@.scrolled(delta as int),
    {
        let h = self.viewport.height as usize;
        match &mut self.view {
            app::View::Reader(r) => {
                let max = max_scroll(lines_of(r), h);
                r.scroll = to_scroll(clamp_shift(r.scroll as usize, delta, max));
                self.status = String::new();
                assert(self.status@ =~= Seq::empty());
            },
            app::View::Browser(b) => {
                let n = b.entries.len();
                if n == 0 {
                    return ;
                }
                let rows: usize = if h > 3 {
                    h - 2
                } else {
                    1
                };
                b.selected = wrap_index(b.selected, delta, n);
                if b.selected < b.scroll as usize {
                    b.scroll = to_scroll(b.selected);
                } else if b.selected - b.scroll as usize >= rows {
                    b.scroll = to_scroll(b.selected - (rows - 1));
                }
            },
        }
    }

    /// Scrolls by `pages` pages or half pages.
    pub fn scroll_by_page(&mut self, pages: u32, down: bool, half: bool)
        ensures
            final(self)@ == old(self)@.paged(pages as int, down, half),
    {
        let h = self.viewport.height;
        let rows: i64 = if half {
            if h > 3 {
                h as i64 / 2
            } else {
                1
            }
        } else if h > 2 {
            h as i64 - 1
        } else {
            1
        };
        assert(0 <= pages * rows <= 0xffff_ffff * 0xffff) by (nonlinear_arith)
            requires
                0 <= pages <= 0xffff_ffff,
                0 <= rows <= 0xffff,
        ;
        let amount: i64 = pages as i64 * rows;
        self.scroll_by(
            if down {
                amount
            } else {
                -amount
            },
        );
    }

    /// Scrolls to a line.
    pub fn scroll_to(&mut self, line: u16)
        ensures
            final(self)@ == old(self)@.scrolled_to(line),
    {
        let h = self.viewport.height as usize;
        match &mut self.view {
            app::View::Reader(r) => {
                r.scroll = min_scroll(line, to_scroll(max_scroll(lines_of(r), h)));
            },
            app::View::Browser(_) => {},
        }
    }

    /// Scrolls by a wheel tick.
    pub fn wheel_scroll(&mut self, requested: i32, now: u64)
        ensures
            final(self)@ == old(self)@.wheeled(requested as int, now),
    {
        let lines = compute_dampened_scroll(
            &mut self.last_scroll_at,
            &mut self.scroll_accum,
            requested,
            now,
        );
        if lines != 0 {
            self.scroll_by(lines as i64);
        }
    }

    fn center_on_line(&mut self, line: usize)
        ensures
            final(self)@ == old(self)@.showing_line(line as int),
    {
        let h = self.viewport.height as usize;
        match &mut self.view {
            app::View::Reader(r) => {
                let scroll = r.scroll as usize;
                if line < scroll || line - scroll >= h.saturating_sub(1) {
                    r.scroll = to_scroll(line.saturating_sub(h / 2));
                }
            },
            app::View::Browser(_) => {},
        }
    }
}

/// How many lines are rendered.
pub(crate) fn lines_of(r: &Reader) -> (n: usize)
    ensures
        n == r@.total(),
{
    match &r.rendered {
        Some(rd) => rd.lines.len(),
        None => 0,
    }
}

// ---------------------------------------------------------------------------
// Focus
// ---------------------------------------------------------------------------

/// How far a focus target is from a line.
pub open spec fn distance(target: (Focus, usize, usize), line: int) -> int {
    if target.1 >= line {
        target.1 - line
    } else {
        line - target.1
    }
}

/// The first of the targets that are nearest to a line.
pub open spec fn is_closest(targets: Seq<(Focus, usize, usize)>, line: int, i: int) -> bool {
    &&& 0 <= i < targets.len()
    &&& forall|j: int|
        0 <= j < targets.len() ==> distance(targets[i], line) <= #[trigger] distance(
            targets[j],
            line,
        )
    &&& forall|j: int|
        0 <= j < i ==> distance(targets[i], line) < #[trigger] distance(targets[j], line)
}

/// The first of the targets that are nearest to a line.
pub open spec fn closest(targets: Seq<(Focus, usize, usize)>, line: int) -> int {
    choose|i: int| is_closest(targets, line, i)
}

/// At most one target is the first of the nearest.
pub proof fn law_closest_is_unique(
    targets: Seq<(Focus, usize, usize)>,
    line: int,
    i: int,
    j: int,
)
    requires
        is_closest(targets, line, i),
        is_closest(targets, line, j),
    ensures
        i == j,
{
    if i < j {
        assert(distance(targets[j], line) < distance(targets[i], line));
    } else if j < i {
        assert(distance(targets[i], line) < distance(targets[j], line));
    }
}

/// Part of the screen to put the focus on.
#[derive(Clone, Copy, Debug, PartialEq, Eq, Structural)]
pub enum ViewportTarget {
    Top,
    Middle,
    Bottom,
}

/// Whether a target is focused.
pub open spec fn is_focus(f: Focus) -> spec_fn((Focus, usize, usize)) -> bool {
    |t: (Focus, usize, usize)| t.0 == f
}

impl reader::ReaderModel {
    /// The focused one among the targets.
    pub open spec fn focus_index(self) -> Option<int> {
        match self.focus {
            Some(f) => views::first_where(self.focus_targets(), is_focus(f), 0),
            None => None,
        }
    }

    /// The target that a step leads to: around the ends, and from nothing to the
    /// first or the last.
    pub open spec fn focus_after(self, delta: int) -> int {
        let n = self.focus_targets().len() as int;
        match self.focus_index() {
            Some(i) => (i + delta) % n,
            None => if delta >= 0 {
                0
            } else {
                n - 1
            },
        }
    }

    /// The line on a part of a screen of height `h`, within the document.
    pub open spec fn line_on_screen(self, target: ViewportTarget, h: int) -> int {
        let last = app::max_scroll(self.total() as int, 1);
        match target {
            ViewportTarget::Top => self.scroll as int,
            ViewportTarget::Middle => app::clamped(self.scroll + h / 2, last),
            ViewportTarget::Bottom => app::clamped(self.scroll + app::max_scroll(h, 1), last),
        }
    }
}

impl app::Model {
    /// Moves the focus among links and task markers.
    pub open spec fn focus_walked(self, delta: int) -> app::Model {
        match self.doc() {
            Some(r) => {
                let targets = r.focus_targets();
                if targets.len() == 0 {
                    self
                } else {
                    let to = targets[r.focus_after(delta)];
                    self.with_doc(
                        reader::ReaderModel { focus: Some(to.0), ..r },
                    ).showing_line(to.1 as int)
                }
            },
            None => self,
        }
    }

    /// Focuses what is nearest to a part of the screen.
    pub open spec fn focus_on_screen(self, target: ViewportTarget) -> app::Model {
        match self.doc() {
            Some(r) => {
                let targets = r.focus_targets();
                if targets.len() == 0 {
                    self
                } else {
                    let line = r.line_on_screen(target, self.viewport.height as int);
                    self.with_doc(
                        reader::ReaderModel {
                            focus: Some(targets[closest(targets, line)].0),
                            ..r
                        },
                    )
                }
            },
            None => self,
        }
    }

    /// Scrolls the focused line to the middle of the screen; the top of the
    /// document when nothing is focused.
    pub open spec fn focus_centered(self) -> app::Model {
        match self.doc() {
            Some(r) => {
                let line = match r.focus_position() {
                    Some((l, _)) => l as int,
                    None => 0,
                };
                self.with_doc(
                    reader::ReaderModel {
                        scroll: actions::scroll_of(
                            app::clamped(
                                app::max_scroll(line, self.viewport.height as int / 2),
                                self.last_scroll(r),
                            ),
                        ),
                        ..r
                    },
                )
            },
            None => self,
        }
    }
}

/// Finds the focused one among the targets.
fn find_focus(targets: &[(Focus, usize, usize)], f: Focus) -> (r: Option<usize>)
    ensures
        match r {
            Some(i) => i < targets@.len() && views::first_where(targets@, is_focus(f), 0) == Some(
                i as int,
            ),
            None => views::first_where(targets@, is_focus(f), 0) is None,
        },
{
    let mut i: usize = 0;
    while i < targets.len()
        invariant
            i <= targets@.len(),
            views::first_where(targets@, is_focus(f), 0) == views::first_where(
                targets@,
                is_focus(f),
                i as int,
            ),
        decreases targets@.len() - i,
    {
        if targets[i].0 == f {
            return Some(i);
        }
        i = i + 1;
    }
    None
}

fn apart(a: usize, b: usize) -> (r: usize)
    ensures
        r == (if a >= b {
            a - b
        } else {
            b - a
        }),
{
    if a >= b {
        a - b
    } else {
        b - a
    }
}

/// Finds the first of the targets that are nearest to a line.
fn find_closest(targets: &[(Focus, usize, usize)], line: usize) -> (r: usize)
    requires
        targets@.len() > 0,
    ensures
        r < targets@.len(),
        r == closest(targets@, line as int),
{
    let mut best: usize = 0;
    let mut i: usize = 1;
    while i < targets.len()
        invariant
            1 <= i <= targets@.len(),
            best < i,
            forall|j: int|
                0 <= j < i ==> distance(targets@[best as int], line as int) <= #[trigger] distance(
                    targets@[j],
                    line as int,
                ),
            forall|j: int|
                0 <= j < best ==> distance(targets@[best as int], line as int)
                    < #[trigger] distance(targets@[j], line as int),
        decreases targets@.len() - i,
    {
        if apart(targets[i].1, line) < apart(targets[best].1, line) {
            best = i;
        }
        i = i + 1;
    }
    proof {
        assert(is_closest(targets@, line as int, best as int));
        law_closest_is_unique(
            targets@,
            line as int,
            best as int,
            closest(targets@, line as int),
        );
    }
    best
}

impl App {
    /// Moves the focus forward or back.
    pub fn walk_focus(&mut self, forward: bool)
        ensures
            final(self)@ == old(self)@.focus_walked(
                if forward {
                    1
                } else {
                    -1
                },
            ),
    {
        match &mut self.view {
            app::View::Reader(r) => {
                let targets = r.focus_targets();
                let n = targets.len();
                if n == 0 {
                    return ;
                }
                let cur = match r.focus {
                    Some(f) => find_focus(&targets, f),
                    None => None,
                };
                let to: usize = match cur {
                    Some(i) => wrap_index(
                        i,
                        if forward {
                            1
                        } else {
                            -1
                        },
                        n,
                    ),
                    None => if forward {
                        0
                    } else {
                        n - 1
                    },
                };
                r.focus = Some(targets[to].0);
                let line = targets[to].1;
                self.center_on_line(line);
            },
            app::View::Browser(_) => {},
        }
    }

    /// Focuses what is nearest to a part of the screen.
    pub fn scroll_viewport_relative(&mut self, target: ViewportTarget)
        ensures
            final(self)@ == old(self)@.focus_on_screen(target),
    {
        let h = self.viewport.height as usize;
        match &mut self.view {
            app::View::Reader(r) => {
                let targets = r.focus_targets();
                if targets.len() == 0 {
                    return ;
                }
                let last = lines_of(r).saturating_sub(1);
                let scroll = r.scroll as usize;
                let want: usize = match target {
                    ViewportTarget::Top => scroll,
                    ViewportTarget::Middle => clamp_shift(scroll, (h / 2) as i64, last),
                    ViewportTarget::Bottom => clamp_shift(scroll, h.saturating_sub(1) as i64, last),
                };
                r.focus = Some(targets[find_closest(&targets, want)].0);
            },
            app::View::Browser(_) => {},
        }
    }

    /// Scrolls the focused line to the middle of the screen.
    pub fn center_focus_or_top(&mut self)
        ensures
            final(self)@ == old(self)@.focus_centered(),
    {
        let h = self.viewport.height as usize;
        match &mut self.view {
            app::View::Reader(r) => {
                let line: usize = match r.focus_position() {
                    Some((l, _)) => l,
                    None => 0,
                };
                let top = line.saturating_sub(h / 2);
                let max = max_scroll(lines_of(r), h);
                r.scroll = to_scroll(
                    if top > max {
                        max
                    } else {
                        top
                    },
                );
            },
            app::View::Browser(_) => {},
        }
    }
}

} // verus!
