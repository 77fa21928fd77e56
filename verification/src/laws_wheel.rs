//! What the wheel, the back button and the buttons of long lines do.

use vstd::prelude::*;
use crate::app;
use crate::jsonl;
use crate::laws_keys::goes_back;
use crate::laws_motion::{at_least_zero, at_most, is_reading};
use crate::laws_shown::{lemma_shown_concat, shown};
use crate::pointer::{Button, MouseInput, MouseKind, NOTCH};
use crate::reader;
use crate::style;
use crate::text;

verus! {

// ---------------------------------------------------------------------------
// The mouse
// ---------------------------------------------------------------------------

/// A turn of the wheel after a pause moves the document by one line in its direction, up to
/// the ends, and nothing else of it changes.
pub proof fn law_wheel_scrolls_the_document(
    m: app::Model,
    r: reader::ReaderModel,
    h: int,
    last: int,
    now: u64,
)
    requires
        is_reading(m, r, h, last),
        m.last_scroll_at matches Some(t) ==> now >= t + 200,
    ensures
        ({
            let down = m.wheeled(NOTCH as int, now);
            let up = m.wheeled(-NOTCH, now);
            &&& down.view is Reader && up.view is Reader
            &&& down.view->Reader_0 == (reader::ReaderModel {
                scroll: at_most(r.scroll + 1, last) as u16,
                ..r
            })
            &&& up.view->Reader_0 == (reader::ReaderModel {
                scroll: at_least_zero(r.scroll - 1) as u16,
                ..r
            })
            &&& down.last_scroll_at == Some(now)
        }),
{
}

/// A click on the back button goes back, whatever is on screen.
pub proof fn law_back_button_goes_back(
    m: app::Model,
    area: app::Rect,
    col: u16,
    row: u16,
    now: u64,
)
    requires
        m.history.len() > 0,
        m.statusline_area == area,
        m.back_button_hit matches Some((from, to)) && from <= col < to,
        row == area.y,
    ensures
        goes_back(
            m,
            m.mouse(MouseInput { kind: MouseKind::Down(Button::Left), column: col, row }, now),
        ),
{
    let s = app::Model { mouse_recent: true, last_mouse_col: col, last_mouse_row: row, ..m };
    assert(s.here() == m.here());
}

// ---------------------------------------------------------------------------
// Buttons of long lines
// ---------------------------------------------------------------------------

/// Whether a code line belongs to a source line that is too wide or expanded.
pub open spec fn has_button(p: jsonl::ButtonPlan, j: int) -> bool {
    let line = p.line_map[j];
    ||| p.expanded.contains(line)
    ||| line < p.raw.len() && text::display_width(p.raw[line as int]@) > p.limit
}

/// Whether a button belongs to code line `j`: it stands in the first two columns of that
/// line's row and names its source line.
pub open spec fn is_button_of(p: jsonl::ButtonPlan, b: jsonl::JsonlButton, j: int) -> bool {
    &&& b.line == p.pre_start + j
    &&& b.col_start == 0
    &&& b.col_end == 2
    &&& b.source_line == p.line_map[j]
}

/// Whether a button belongs to one of the first `n` code lines that are to have one.
pub open spec fn is_button(p: jsonl::ButtonPlan, b: jsonl::JsonlButton, n: int) -> bool {
    exists|j: int| 0 <= j < n && has_button(p, j) && #[trigger] is_button_of(p, b, j)
}

/// The glyph of a code line: an arrow on the first line of its source line, which points
/// down where that is expanded, and a bar on the others.
pub open spec fn glyph_of(p: jsonl::ButtonPlan, j: int) -> char {
    if j > 0 && p.line_map[j - 1] == p.line_map[j] {
        '│'
    } else if p.expanded.contains(p.line_map[j]) {
        '▼'
    } else {
        '▶'
    }
}

proof fn lemma_active(p: jsonl::ButtonPlan, j: int)
    requires
        0 <= j < p.line_map.len(),
    ensures
        p.active(j) == has_button(p, j),
        p.glyph(j) == seq![glyph_of(p, j)],
{
    let line = p.line_map[j];
    if line >= p.raw.len() {
        reveal(text::display_width);
        assert(text::is_printable(Seq::<char>::empty()));
    }
    reveal_strlit("│");
    reveal_strlit("▼");
    reveal_strlit("▶");
    assert("│"@ =~= seq!['│']);
    assert("▼"@ =~= seq!['▼']);
    assert("▶"@ =~= seq!['▶']);
}

proof fn lemma_glyphed(line: Seq<style::SpanView>, g: Seq<char>, s: style::Style)
    ensures
        line.len() > 0 && line[0].content == "  "@ ==> shown(jsonl::glyphed(line, g, s)) == g
            + seq![' '] + shown(line.skip(1)),
        !(line.len() > 0 && line[0].content == "  "@) ==> jsonl::glyphed(line, g, s) == line,
{
    if line.len() > 0 && line[0].content == "  "@ {
        reveal_strlit(" ");
        assert(" "@ =~= seq![' ']);
        let a = style::span(g, s);
        let b = style::span(" "@, line[0].style);
        let front = seq![a, b];
        lemma_shown_concat(front, line.skip(1));
        assert(front.map_values(|x: style::SpanView| x.content) =~= seq![g].push(" "@));
        seq![g].lemma_flatten_push(" "@);
        seq![g].lemma_flatten_one_element();
    }
}

/// Whether a row is a code line with its glyph in the first of the two spaces before it.
pub open spec fn shows_glyph(
    before: Seq<style::SpanView>,
    after: Seq<style::SpanView>,
    g: char,
) -> bool {
    if before.len() > 0 && before[0].content == "  "@ {
        shown(after) == seq![g] + seq![' '] + shown(before.skip(1))
    } else {
        after == before
    }
}

proof fn lemma_buttons(p: jsonl::ButtonPlan, lines: Seq<Seq<style::SpanView>>, n: int)
    requires
        0 <= n <= p.line_map.len(),
        p.pre_start + p.line_map.len() <= usize::MAX,
    ensures
        ({
            let (ls, bs) = p.buttons(lines, n);
            &&& ls.len() == lines.len()
            &&& forall|k: int|
                0 <= k < bs.len() ==> is_button(p, #[trigger] bs[k], n)
            &&& forall|j: int|
                0 <= j < n && #[trigger] has_button(p, j) && p.pre_start + j < lines.len()
                    ==> exists|k: int| 0 <= k < bs.len() && is_button_of(p, #[trigger] bs[k], j)
            &&& forall|j: int|
                0 <= j < n && p.pre_start + j < lines.len() && #[trigger] has_button(p, j)
                    ==> shows_glyph(
                    lines[p.pre_start + j],
                    ls[p.pre_start + j],
                    glyph_of(p, j),
                )
            &&& forall|x: int|
                0 <= x < lines.len() && (x < p.pre_start || x >= p.pre_start + n || !has_button(
                    p,
                    x - p.pre_start,
                )) ==> #[trigger] ls[x] == lines[x]
        }),
    decreases n,
{
    if n > 0 {
        lemma_buttons(p, lines, n - 1);
        let (ls, bs) = p.buttons(lines, n - 1);
        let (ls2, bs2) = p.buttons(lines, n);
        let row = p.pre_start + n - 1;
        lemma_active(p, n - 1);
        if has_button(p, n - 1) && row < ls.len() {
            assert(ls[row] == lines[row]);
            lemma_glyphed(ls[row], p.glyph(n - 1), p.glyph_style(n - 1));
            assert(is_button_of(p, bs2[bs.len() as int], n - 1));
        }
        assert forall|k: int| 0 <= k < bs2.len() implies is_button(p, #[trigger] bs2[k], n) by {
            if k < bs.len() {
                assert(is_button(p, bs[k], n - 1));
                let j = choose|j: int|
                    0 <= j < n - 1 && has_button(p, j) && #[trigger] is_button_of(p, bs[k], j);
                assert(is_button_of(p, bs2[k], j));
            } else {
                assert(is_button_of(p, bs2[k], n - 1));
            }
        }
        assert forall|j: int|
            0 <= j < n && #[trigger] has_button(p, j) && p.pre_start + j
                < lines.len() implies exists|k: int|
            0 <= k < bs2.len() && is_button_of(p, #[trigger] bs2[k], j) by {
            if j < n - 1 {
                let k = choose|k: int| 0 <= k < bs.len() && is_button_of(p, #[trigger] bs[k], j);
                assert(bs2[k] == bs[k]);
            } else {
                assert(is_button_of(p, bs2[bs.len() as int], n - 1));
            }
        }
    }
}

/// Every code line of a source line that is too wide or expanded has a button, and no other
/// line has one. Its row shows a glyph in the first of the two spaces before the code, and
/// all other rows stay as they are.
pub proof fn law_long_lines_have_buttons(p: jsonl::ButtonPlan, lines: Seq<Seq<style::SpanView>>)
    requires
        p.pre_start + p.line_map.len() <= usize::MAX,
    ensures
        ({
            let n = p.line_map.len() as int;
            let (ls, bs) = p.buttons(lines, n);
            &&& ls.len() == lines.len()
            &&& forall|k: int|
                0 <= k < bs.len() ==> is_button(p, #[trigger] bs[k], n)
            &&& forall|j: int|
                0 <= j < n && #[trigger] has_button(p, j) && p.pre_start + j < lines.len()
                    ==> exists|k: int| 0 <= k < bs.len() && is_button_of(p, #[trigger] bs[k], j)
            &&& forall|j: int|
                0 <= j < n && p.pre_start + j < lines.len() && #[trigger] has_button(p, j)
                    ==> shows_glyph(
                    lines[p.pre_start + j],
                    ls[p.pre_start + j],
                    glyph_of(p, j),
                )
            &&& forall|x: int|
                0 <= x < lines.len() && (x < p.pre_start || x >= p.pre_start + n || !has_button(
                    p,
                    x - p.pre_start,
                )) ==> #[trigger] ls[x] == lines[x]
        }),
{
    lemma_buttons(p, lines, p.line_map.len() as int);
}

} // verus!
