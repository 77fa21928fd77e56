//! What a rendered document shows of paragraphs, headings, list items and rules.

use vstd::prelude::*;
use crate::laws_blocks;
use crate::laws_blocks::{bars, blanks, quotes_open, Page};
use crate::laws_shown::{lemma_shown_concat, shown};
use crate::laws_tables;
use crate::laws_tables::{code_open, is_inline, pieces_of, stand_at, texts};
use crate::laws_text;
use crate::laws_wrap;
use crate::laws_wrap::{bare_lines, is_parted};
use crate::links;
use crate::markdown;
use crate::markdown::BlockView;
use crate::parse::{EventView, Level, MdTagEnd, TagView};
use crate::style;
use crate::text;
use crate::wrap;
use crate::wrap::{PendingCheckbox, RunView};

verus! {

/// Whether a text stands in the lines from `row` on: divided into lines between which
/// nothing but white space is left out, with `first` before the first of them and `more`
/// before each other.
pub open spec fn shows_text(
    lines: Seq<Seq<style::SpanView>>,
    row: int,
    t: Seq<char>,
    first: Seq<char>,
    more: Seq<char>,
) -> bool {
    exists|ls: Seq<Seq<char>>|
        {
            &&& #[trigger] is_parted(t, ls)
            &&& ls.len() > 0
            &&& 0 <= row
            &&& row + ls.len() <= lines.len()
            &&& shown(lines[row]) == first + ls[0]
            &&& forall|k: int|
                0 < k < ls.len() ==> shown(#[trigger] lines[row + k]) == more + ls[k]
        }
}

/// Whether a text takes one line behind a prefix of `taken` columns, because there is room
/// for it. Told of printable ASCII that begins with no space.
pub open spec fn has_room(t: Seq<char>, taken: int, cols: int) -> bool {
    &&& text::is_printable(t)
    &&& t.len() > 0 ==> !text::is_space(t[0])
    &&& taken < cols
    &&& taken + t.len() <= cols
}

/// Whether nothing is left over from what was read before.
pub open spec fn is_clear(b: markdown::BuilderView) -> bool {
    &&& b.runs.len() == 0
    &&& b.prefix.len() == 0
    &&& b.hanging.len() == 0
}

proof fn lemma_spans_texts(rs: Seq<RunView>)
    ensures
        shown(wrap::spans_of(rs)) == texts(rs).flatten(),
{
    assert(wrap::spans_of(rs).map_values(|s: style::SpanView| s.content) =~= texts(rs));
}

proof fn lemma_line_parts(line: Seq<style::SpanView>, front: Seq<style::SpanView>)
    requires
        front.is_prefix_of(line),
    ensures
        shown(line) == shown(front) + shown(line.skip(front.len() as int)),
{
    lemma_shown_concat(front, line.skip(front.len() as int));
    assert(front + line.skip(front.len() as int) =~= line);
}

/// A wrapped block shows its runs behind the lines that were there.
proof fn lemma_wrapped(
    p: wrap::PenView,
    runs: Seq<RunView>,
    prefix: Seq<RunView>,
    hanging: Seq<RunView>,
    width: usize,
    targets: Seq<links::TargetView>,
    boxes: Seq<PendingCheckbox>,
)
    ensures
        shows_text(
            p.wrapped(runs, prefix, hanging, width, targets, boxes).lines,
            p.lines.len() as int,
            texts(runs).flatten(),
            texts(prefix).flatten(),
            texts(hanging).flatten(),
        ),
{
    let q = p.wrapped(runs, prefix, hanging, width, targets, boxes);
    let row = p.lines.len() as int;
    let block = q.lines.skip(row);
    let a = wrap::spans_of(prefix);
    let b = wrap::spans_of(hanging);
    laws_text::law_wrapping_keeps_text(p, runs, prefix, hanging, width, targets, boxes);
    laws_wrap::law_wrapping_parts_the_text(p, runs, prefix, hanging, width, targets, boxes);
    lemma_spans_texts(prefix);
    lemma_spans_texts(hanging);
    let ls = bare_lines(block, prefix.len(), hanging.len());
    assert(a.is_prefix_of(block[0]));
    lemma_line_parts(block[0], a);
    assert(block[0] == q.lines[row]);
    assert forall|k: int| 0 < k < ls.len() implies shown(#[trigger] q.lines[row + k]) == texts(
        hanging,
    ).flatten() + ls[k] by {
        assert(q.lines[row + k] == block[k]);
        assert(b.is_prefix_of(block[k]));
        lemma_line_parts(block[k], b);
    }
}

proof fn lemma_piece_printable(ps: Seq<Seq<char>>, k: int)
    requires
        0 <= k < ps.len(),
        text::is_printable(ps.flatten()),
    ensures
        text::is_printable(ps[k]),
    decreases ps.len(),
{
    let init = ps.drop_last();
    init.lemma_flatten_push(ps.last());
    assert(init.push(ps.last()) =~= ps);
    let a = init.flatten();
    let b = ps.last();
    assert(ps.flatten() == a + b);
    assert forall|x: int| 0 <= x < a.len() implies text::is_printable_ascii(#[trigger] a[x]) by {
        assert((a + b)[x] == a[x]);
        assert(text::is_printable_ascii(ps.flatten()[x]));
    }
    assert forall|x: int| 0 <= x < b.len() implies text::is_printable_ascii(#[trigger] b[x]) by {
        assert((a + b)[a.len() + x] == b[x]);
        assert(text::is_printable_ascii(ps.flatten()[a.len() + x]));
    }
    if k < init.len() {
        lemma_piece_printable(init, k);
    }
}

/// A wrapped block that has room takes one line.
proof fn lemma_wrapped_short(
    p: wrap::PenView,
    runs: Seq<RunView>,
    prefix: Seq<RunView>,
    hanging: Seq<RunView>,
    width: usize,
    targets: Seq<links::TargetView>,
    boxes: Seq<PendingCheckbox>,
)
    requires
        p.lines.len() <= usize::MAX,
        has_room(texts(runs).flatten(), wrap::runs_width(prefix) as int, width as int),
    ensures
        ({
            let q = p.wrapped(runs, prefix, hanging, width, targets, boxes);
            &&& q.lines.len() == p.lines.len() + 1
            &&& shown(q.lines[p.lines.len() as int]) == texts(prefix).flatten() + texts(
                runs,
            ).flatten()
        }),
{
    assert forall|k: int| 0 <= k < runs.len() implies text::is_printable(
        (#[trigger] runs[k]).text,
    ) by {
        lemma_piece_printable(texts(runs), k);
        assert(texts(runs)[k] == runs[k].text);
    }
    laws_wrap::law_short_text_keeps_its_line(p, runs, prefix, hanging, width, targets, boxes);
}

proof fn lemma_text_prefix(
    a: Seq<Seq<style::SpanView>>,
    b: Seq<Seq<style::SpanView>>,
    row: int,
    t: Seq<char>,
    first: Seq<char>,
    more: Seq<char>,
)
    requires
        shows_text(a, row, t, first, more),
        a.is_prefix_of(b),
    ensures
        shows_text(b, row, t, first, more),
        row < a.len(),
        b[row] == a[row],
{
    let ls = choose|ls: Seq<Seq<char>>|
        {
            &&& #[trigger] is_parted(t, ls)
            &&& ls.len() > 0
            &&& 0 <= row
            &&& row + ls.len() <= a.len()
            &&& shown(a[row]) == first + ls[0]
            &&& forall|k: int| 0 < k < ls.len() ==> shown(#[trigger] a[row + k]) == more + ls[k]
        };
    assert(a[row] == b[row]);
    assert forall|k: int| 0 < k < ls.len() implies shown(#[trigger] b[row + k]) == more + ls[k] by {
        assert(a[row + k] == b[row + k]);
    }
}

proof fn lemma_laid_paragraph(
    p: Page,
    bs: Seq<(BlockView, usize)>,
    k: int,
    runs: Seq<RunView>,
    prefix: Seq<RunView>,
    hanging: Seq<RunView>,
)
    requires
        0 <= k < bs.len(),
        bs[k].0 == (BlockView::Paragraph { runs, prefix, hanging }),
    ensures
        p.laid(bs, k + 1).pen == p.laid(bs, k).pen.wrapped(
            runs,
            prefix,
            hanging,
            p.cols(),
            p.all_read().targets,
            p.all_read().boxes,
        ),
{
    reveal(Page::laid);
}

/// A paragraph that is the first block of a stretch of events is shown where the stretch
/// begins.
proof fn lemma_paragraph_shown(
    p: Page,
    i: int,
    j: int,
    runs: Seq<RunView>,
    prefix: Seq<RunView>,
    hanging: Seq<RunView>,
)
    requires
        0 <= i <= j <= p.evs.len(),
        p.read(j).blocks.len() > p.read(i).blocks.len(),
        p.read(j).blocks[p.read(i).blocks.len() as int].0 == (BlockView::Paragraph {
            runs,
            prefix,
            hanging,
        }),
        p.rows_before(i) <= usize::MAX,
    ensures
        shows_text(
            p.rendered().lines,
            p.rows_before(i),
            texts(runs).flatten(),
            texts(prefix).flatten(),
            texts(hanging).flatten(),
        ),
        has_room(texts(runs).flatten(), wrap::runs_width(prefix) as int, p.cols() as int)
            ==> shown(p.rendered().lines[p.rows_before(i)]) == texts(prefix).flatten() + texts(
            runs,
        ).flatten(),
{
    laws_blocks::lemma_stretch(p, i, j);
    let bs = p.read(j).blocks;
    let k0 = p.read(i).blocks.len() as int;
    let w = p.cols();
    let all = p.all_read();
    let l0 = p.laid(bs, k0).pen;
    let l1 = p.laid(bs, k0 + 1).pen;
    let l2 = p.laid(bs, bs.len() as int).pen;
    laws_blocks::lemma_laid_grows(p, bs, k0 + 1, bs.len() as int);
    lemma_laid_paragraph(p, bs, k0, runs, prefix, hanging);
    lemma_wrapped(l0, runs, prefix, hanging, w, all.targets, all.boxes);
    let row = p.rows_before(i);
    let t = texts(runs).flatten();
    let a = texts(prefix).flatten();
    let b = texts(hanging).flatten();
    lemma_text_prefix(l1.lines, l2.lines, row, t, a, b);
    lemma_text_prefix(l2.lines, p.rendered().lines, row, t, a, b);
    if has_room(t, wrap::runs_width(prefix) as int, w as int) {
        lemma_wrapped_short(l0, runs, prefix, hanging, w, all.targets, all.boxes);
    }
}

// ---------------------------------------------------------------------------
// Paragraphs
// ---------------------------------------------------------------------------

/// What a line of text leaves as it is.
spec fn inside(b: markdown::BuilderView, a: markdown::BuilderView) -> bool {
    &&& a.hanging == b.hanging
    &&& a.quote_depth == b.quote_depth
    &&& a.lists == b.lists
    &&& a.theme == b.theme
    &&& a.in_heading == b.in_heading
}

proof fn lemma_inline_inside(b: markdown::BuilderView, ev: EventView, offset: usize)
    requires
        is_inline(ev),
    ensures
        inside(b, b.event(ev, offset)),
{
}

proof fn lemma_inside(p: Page, i: int, es: Seq<EventView>)
    requires
        stand_at(p.evs, i, es),
        forall|k: int| 0 <= k < es.len() ==> is_inline(#[trigger] es[k]),
    ensures
        inside(p.read(i), p.read(i + es.len())),
    decreases es.len(),
{
    if es.len() > 0 {
        let init = es.drop_last();
        let j = i + init.len();
        assert(init + seq![es.last()] =~= es);
        laws_tables::lemma_stand_parts(p.evs, i, init, seq![es.last()]);
        assert forall|k: int| 0 <= k < init.len() implies is_inline(#[trigger] init[k]) by {
            assert(init[k] == es[k]);
        }
        lemma_inside(p, i, init);
        assert(is_inline(es[es.len() - 1]));
        assert(p.evs[j + 0].0 == seq![es.last()][0]);
        laws_blocks::lemma_read_step(p, j);
        lemma_inline_inside(p.read(j), p.evs[j].0, p.evs[j].1);
    }
}

/// What the end of a paragraph or an item adds where something is pending.
proof fn lemma_finish(p: Page, j: int, end: MdTagEnd)
    requires
        0 <= j < p.evs.len(),
        p.evs[j].0 == EventView::End(end),
        end is Paragraph || end is Item,
        p.read(j).runs.len() > 0 || p.read(j).prefix.len() > 0,
    ensures
        ({
            let b = p.read(j);
            let a = p.read(j + 1);
            let n = b.blocks.len() as int;
            &&& is_clear(a)
            &&& a.blocks.len() > n
            &&& a.blocks[n].0 == (BlockView::Paragraph {
                runs: b.runs,
                prefix: b.quote_prefix() + b.prefix,
                hanging: b.quote_prefix() + b.hanging,
            })
        }),
{
    laws_blocks::lemma_read_step(p, j);
}

/// A paragraph is shown behind what comes before it, each line behind the bars of the open
/// quotes, and on one line where it has room.
pub proof fn law_paragraph_is_shown(p: Page, i: int, es: Seq<EventView>)
    requires
        p.evs.len() <= usize::MAX,
        p.rows_before(i) <= usize::MAX,
        stand_at(p.evs, i, es.push(EventView::End(MdTagEnd::Paragraph))),
        forall|k: int| 0 <= k < es.len() ==> is_inline(#[trigger] es[k]),
        pieces_of(es).len() > 0,
        !code_open(p.evs, i),
        is_clear(p.read(i)),
    ensures
        ({
            let t = pieces_of(es).flatten();
            let front = bars(quotes_open(p.evs, i));
            let row = p.rows_before(i);
            &&& shows_text(p.rendered().lines, row, t, front, front)
            &&& has_room(t, text::display_width(front) as int, p.cols() as int) ==> shown(
                p.rendered().lines[row],
            ) == front + t
        }),
        is_clear(p.read(i + es.len() + 1)),
{
    let end = EventView::End(MdTagEnd::Paragraph);
    let j = i + es.len();
    assert(es.push(end) =~= es + seq![end]);
    laws_tables::lemma_stand_parts(p.evs, i, es, seq![end]);
    assert(p.evs[j + 0].0 == seq![end][0]);
    lemma_text_read(p, i, es);
    lemma_finish(p, j, MdTagEnd::Paragraph);
    let b = p.read(j);
    laws_blocks::lemma_quotes(p, i);
    laws_blocks::lemma_quote_text(b);
    lemma_quote_width(b);
    let q = b.quote_prefix();
    assert(q + b.prefix =~= q);
    assert(q + b.hanging =~= q);
    lemma_paragraph_shown(p, i, j + 1, b.runs, q, q);
}

proof fn lemma_quote_width(b: markdown::BuilderView)
    ensures
        wrap::runs_width(b.quote_prefix()) == text::display_width(bars(b.quote_depth as int)),
        texts(b.quote_prefix()).flatten() == bars(b.quote_depth as int),
{
    let q = b.quote_prefix();
    laws_blocks::lemma_quote_text(b);
    if b.quote_depth == 0 {
        reveal(text::display_width);
        assert(text::is_printable(bars(0)));
    } else {
        assert(texts(q) =~= seq![q[0].text]);
        seq![q[0].text].lemma_flatten_one_element();
        assert(q.drop_last() =~= Seq::empty());
        reveal_with_fuel(wrap::runs_width, 2);
    }
}

/// Reading a line of text where nothing is pending collects its texts.
proof fn lemma_text_read(p: Page, i: int, es: Seq<EventView>)
    requires
        stand_at(p.evs, i, es),
        forall|k: int| 0 <= k < es.len() ==> is_inline(#[trigger] es[k]),
        !code_open(p.evs, i),
        p.read(i).runs.len() == 0,
    ensures
        ({
            let b = p.read(i);
            let a = p.read(i + es.len());
            &&& inside(b, a)
            &&& a.blocks == b.blocks
            &&& a.prefix == b.prefix
            &&& texts(a.runs) == pieces_of(es)
            &&& a.runs.len() == pieces_of(es).len()
        }),
{
    laws_tables::lemma_code_open(p, i);
    laws_tables::lemma_inline_read(p, i, es);
    lemma_inside(p, i, es);
    let a = p.read(i + es.len());
    assert(a.runs.skip(0) =~= a.runs);
    assert(texts(a.runs).len() == a.runs.len());
}

// ---------------------------------------------------------------------------
// List items
// ---------------------------------------------------------------------------

/// The lists that are open after the first `n` events, innermost last: the number that
/// each begins with, if it is ordered, and how many of its items have begun.
pub open spec fn lists_open(evs: Seq<(EventView, usize)>, n: int) -> Seq<(Option<u64>, nat)>
    decreases n,
{
    if n <= 0 {
        Seq::empty()
    } else {
        let before = lists_open(evs, n - 1);
        match evs[n - 1].0 {
            EventView::Start(TagView::List(first)) => before.push((first, 0)),
            EventView::End(MdTagEnd::List) => if before.len() > 0 {
                before.drop_last()
            } else {
                before
            },
            EventView::Start(TagView::Item) => if before.len() > 0 {
                before.drop_last().push((before.last().0, before.last().1 + 1))
            } else {
                before
            },
            _ => before,
        }
    }
}

/// The marker of an item: the number that its list begins with and one more for each item
/// before it, or a bullet. Numbers stay at the largest `u64`.
pub open spec fn item_marker(list: (Option<u64>, nat)) -> Seq<char> {
    match list.0 {
        Some(first) => text::decimal(
            if first + list.1 <= u64::MAX {
                (first + list.1) as nat
            } else {
                u64::MAX as nat
            },
        ) + seq!['.', ' '],
        None => seq!['•', ' '],
    }
}

/// Whether the lists of a state are the open ones.
spec fn lists_match(b: markdown::BuilderView, ls: Seq<(Option<u64>, nat)>) -> bool {
    &&& b.lists.len() == ls.len()
    &&& forall|k: int|
        0 <= k < ls.len() ==> #[trigger] b.lists[k] == match ls[k].0 {
            Some(first) => Some(
                if first + ls[k].1 <= u64::MAX {
                    (first + ls[k].1) as u64
                } else {
                    u64::MAX
                },
            ),
            None => None,
        }
}

proof fn lemma_lists_step(b: markdown::BuilderView, ev: EventView, offset: usize)
    ensures
        b.event(ev, offset).lists == (match ev {
            EventView::Start(TagView::List(first)) => b.lists.push(first),
            EventView::End(MdTagEnd::List) => if b.lists.len() > 0 {
                b.lists.drop_last()
            } else {
                b.lists
            },
            EventView::Start(TagView::Item) => if b.lists.len() > 0 && b.lists.last() is Some {
                b.lists.update(
                    b.lists.len() - 1,
                    Some(markdown::next_number(b.lists.last()->0)),
                )
            } else {
                b.lists
            },
            _ => b.lists,
        }),
{
}

proof fn lemma_lists(p: Page, n: int)
    requires
        0 <= n <= p.evs.len(),
    ensures
        lists_match(p.read(n), lists_open(p.evs, n)),
    decreases n,
{
    laws_blocks::lemma_read_start(p);
    if n > 0 {
        lemma_lists(p, n - 1);
        laws_blocks::lemma_read_step(p, n - 1);
        let ev = p.evs[n - 1].0;
        let b = p.read(n - 1);
        lemma_lists_step(b, ev, p.evs[n - 1].1);
        let ls = lists_open(p.evs, n - 1);
        let next = lists_open(p.evs, n);
        let a = p.read(n).lists;
        assert forall|k: int| 0 <= k < next.len() implies #[trigger] a[k] == match next[k].0 {
            Some(first) => Some(
                if first + next[k].1 <= u64::MAX {
                    (first + next[k].1) as u64
                } else {
                    u64::MAX
                },
            ),
            None => None,
        } by {
            if k < ls.len() {
                assert(b.lists[k] == b.lists[k]);
            }
        }
    }
}

proof fn lemma_item_start(p: Page, i: int)
    requires
        0 <= i < p.evs.len(),
        p.evs[i].0 == EventView::Start(TagView::Item),
        p.read(i).lists.len() > 0,
    ensures
        ({
            let b = p.read(i);
            let a = p.read(i + 1);
            let indent = text::times("  "@, (b.lists.len() - 1) as nat);
            let marker = markdown::list_marker(b.lists.last());
            &&& a.runs == b.runs
            &&& a.blocks == b.blocks
            &&& a.quote_depth == b.quote_depth
            &&& a.in_code_block == b.in_code_block
            &&& texts(a.prefix) == seq![indent, marker]
            &&& texts(a.hanging) == seq![indent + text::repeated(' ', marker.len())]
        }),
{
    laws_blocks::lemma_read_step(p, i);
    let b = p.read(i);
    let a = p.read(i + 1);
    let indent = text::times("  "@, (b.lists.len() - 1) as nat);
    let marker = markdown::list_marker(b.lists.last());
    assert(texts(a.prefix) =~= seq![indent, marker]);
    assert(texts(a.hanging) =~= seq![indent + text::repeated(' ', marker.len())]);
}

proof fn lemma_indent(n: nat)
    ensures
        text::times("  "@, n) == blanks(2 * n),
    decreases n,
{
    reveal_strlit("  ");
    assert("  "@ =~= seq![' ', ' ']);
    if n > 0 {
        lemma_indent((n - 1) as nat);
        assert(blanks((2 * (n - 1)) as nat) + seq![' ', ' '] =~= blanks(2 * n));
    } else {
        assert(blanks(0) =~= Seq::<char>::empty());
    }
}

proof fn lemma_texts_concat(a: Seq<RunView>, b: Seq<RunView>)
    ensures
        texts(a + b).flatten() == texts(a).flatten() + texts(b).flatten(),
{
    assert(texts(a + b) =~= texts(a) + texts(b));
    vstd::seq_lib::lemma_flatten_concat(texts(a), texts(b));
}

proof fn lemma_flatten_two(a: Seq<char>, b: Seq<char>)
    ensures
        seq![a, b].flatten() == a + b,
{
    seq![a].lemma_flatten_push(b);
    seq![a].lemma_flatten_one_element();
    assert(seq![a].push(b) =~= seq![a, b]);
}

proof fn lemma_marker(p: Page, i: int)
    requires
        0 <= i <= p.evs.len(),
        lists_open(p.evs, i).len() > 0,
    ensures
        p.read(i).lists.len() == lists_open(p.evs, i).len(),
        markdown::list_marker(p.read(i).lists.last()) == item_marker(lists_open(p.evs, i).last()),
{
    lemma_lists(p, i);
    let lists = lists_open(p.evs, i);
    assert(p.read(i).lists[lists.len() - 1] == p.read(i).lists.last());
    reveal_strlit(". ");
    reveal_strlit("• ");
    assert(". "@ =~= seq!['.', ' ']);
    assert("• "@ =~= seq!['•', ' ']);
}

proof fn lemma_item_front(
    q: Seq<RunView>,
    prefix: Seq<RunView>,
    hanging: Seq<RunView>,
    depth: nat,
    marker: Seq<char>,
)
    requires
        depth > 0,
        texts(prefix) == seq![text::times("  "@, (depth - 1) as nat), marker],
        texts(hanging) == seq![
            text::times("  "@, (depth - 1) as nat) + text::repeated(' ', marker.len()),
        ],
    ensures
        ({
            let front = texts(q).flatten() + blanks((2 * (depth - 1)) as nat);
            &&& texts(q + prefix).flatten() == front + marker
            &&& texts(q + hanging).flatten() == front + blanks(marker.len())
        }),
{
    lemma_texts_concat(q, prefix);
    lemma_texts_concat(q, hanging);
    let pad = blanks((2 * (depth - 1)) as nat);
    lemma_indent((depth - 1) as nat);
    lemma_flatten_two(pad, marker);
    assert(text::repeated(' ', marker.len()) =~= blanks(marker.len()));
    seq![pad + blanks(marker.len())].lemma_flatten_one_element();
    let bs = texts(q).flatten();
    assert(bs + (pad + marker) =~= bs + pad + marker);
    assert(bs + (pad + blanks(marker.len())) =~= bs + pad + blanks(marker.len()));
}

/// The runs of an item: those before its text, and its text.
struct ItemRuns {
    runs: Seq<RunView>,
    quote: Seq<RunView>,
    prefix: Seq<RunView>,
    hanging: Seq<RunView>,
}

/// Reading an item adds a paragraph.
proof fn lemma_item_read(p: Page, i: int, es: Seq<EventView>, end: MdTagEnd) -> (r: ItemRuns)
    requires
        p.evs.len() <= usize::MAX,
        stand_at(
            p.evs,
            i,
            seq![EventView::Start(TagView::Item)] + es + seq![EventView::End(end)],
        ),
        end is Item || end is Paragraph,
        forall|k: int| 0 <= k < es.len() ==> is_inline(#[trigger] es[k]),
        !code_open(p.evs, i + 1),
        is_clear(p.read(i)),
        p.read(i).lists.len() > 0,
    ensures
        ({
            let b = p.read(i);
            let a = p.read(i + es.len() + 2);
            let n = b.blocks.len() as int;
            let indent = text::times("  "@, (b.lists.len() - 1) as nat);
            let marker = markdown::list_marker(b.lists.last());
            &&& i + es.len() + 2 <= p.evs.len()
            &&& is_clear(a)
            &&& a.blocks.len() > n
            &&& a.blocks[n].0 == (BlockView::Paragraph {
                runs: r.runs,
                prefix: r.quote + r.prefix,
                hanging: r.quote + r.hanging,
            })
            &&& texts(r.runs) == pieces_of(es)
            &&& texts(r.quote).flatten() == bars(b.quote_depth as int)
            &&& texts(r.prefix) == seq![indent, marker]
            &&& texts(r.hanging) == seq![indent + text::repeated(' ', marker.len())]
        }),
{
    let first = seq![EventView::Start(TagView::Item)];
    let last = seq![EventView::End(end)];
    laws_tables::lemma_stand_parts(p.evs, i, first + es, last);
    laws_tables::lemma_stand_parts(p.evs, i, first, es);
    let j = i + 1 + es.len();
    assert(p.evs[i + 0].0 == first[0]);
    assert(p.evs[i + (first + es).len() + 0].0 == last[0]);
    lemma_item_start(p, i);
    lemma_text_read(p, i + 1, es);
    let s = p.read(i + 1);
    let b = p.read(j);
    assert(s.prefix.len() == texts(s.prefix).len());
    lemma_finish(p, j, end);
    lemma_quote_width(b);
    ItemRuns { runs: b.runs, quote: b.quote_prefix(), prefix: b.prefix, hanging: b.hanging }
}

/// A list item is shown behind what comes before it: behind the bars of the open quotes and
/// two spaces for each outer list its marker, which counts the items of its list, and then
/// its text, the further lines of which are indented as far. That holds of an item that
/// ends with its text, and of one whose text is a paragraph.
pub proof fn law_item_is_shown(p: Page, i: int, es: Seq<EventView>, end: MdTagEnd)
    requires
        p.evs.len() <= usize::MAX,
        p.rows_before(i) <= usize::MAX,
        stand_at(
            p.evs,
            i,
            seq![EventView::Start(TagView::Item)] + es + seq![EventView::End(end)],
        ),
        end is Item || end is Paragraph,
        forall|k: int| 0 <= k < es.len() ==> is_inline(#[trigger] es[k]),
        !code_open(p.evs, i),
        is_clear(p.read(i)),
        lists_open(p.evs, i).len() > 0,
    ensures
        ({
            let t = pieces_of(es).flatten();
            let lists = lists_open(p.evs, i);
            let marker = item_marker(lists.last());
            let front = bars(quotes_open(p.evs, i)) + blanks((2 * (lists.len() - 1)) as nat);
            shows_text(
                p.rendered().lines,
                p.rows_before(i),
                t,
                front + marker,
                front + blanks(marker.len()),
            )
        }),
        is_clear(p.read(i + es.len() + 2)),
{
    let lists = lists_open(p.evs, i);
    lemma_marker(p, i);
    laws_blocks::lemma_quotes(p, i);
    assert(!code_open(p.evs, i + 1)) by {
        let es0 = seq![EventView::Start(TagView::Item)] + es + seq![EventView::End(end)];
        assert(p.evs[i + 0].0 == es0[0]);
    }
    let r = lemma_item_read(p, i, es, end);
    let j = i + es.len() + 2;
    lemma_paragraph_shown(p, i, j, r.runs, r.quote + r.prefix, r.quote + r.hanging);
    lemma_item_front(r.quote, r.prefix, r.hanging, lists.len(), item_marker(lists.last()));
}

// ---------------------------------------------------------------------------
// Rules
// ---------------------------------------------------------------------------

/// A rule is a line as wide as the screen, behind what comes before it.
pub proof fn law_rule_is_shown(p: Page, i: int)
    requires
        0 <= i < p.evs.len(),
        p.evs[i].0 is Rule,
    ensures
        p.rows_before(i) < p.rendered().lines.len(),
        shown(p.rendered().lines[p.rows_before(i)]).len() == p.cols(),
        forall|k: int|
            0 <= k < p.cols() ==> #[trigger] shown(p.rendered().lines[p.rows_before(i)])[k] == '─',
        p.rows_before(i + 1) == p.rows_before(i) + 1,
{
    reveal(Page::laid);
    laws_blocks::lemma_stretch(p, i, i + 1);
    laws_blocks::lemma_stretch(p, i + 1, i + 1);
    laws_blocks::lemma_read_step(p, i);
    let bs = p.read(i + 1).blocks;
    let k0 = p.read(i).blocks.len() as int;
    assert(bs[k0].0 is Rule);
    assert(bs.len() == k0 + 1);
    let l0 = p.laid(bs, k0).pen.lines;
    let l1 = p.laid(bs, k0 + 1).pen.lines;
    let row = p.rows_before(i);
    assert(l1.len() == row + 1);
    assert(p.rendered().lines[row] == l1[row]);
    let w = p.cols();
    let bar = text::repeated('─', w as nat);
    assert(l1[row].map_values(|s: style::SpanView| s.content) =~= seq![bar]);
    seq![bar].lemma_flatten_one_element();
}

// ---------------------------------------------------------------------------
// Headings
// ---------------------------------------------------------------------------

/// What an event adds to the name of a heading.
pub open spec fn named(ev: EventView) -> Seq<char> {
    match ev {
        EventView::Text(s) => s,
        EventView::Code(s) => s,
        _ => Seq::empty(),
    }
}

/// The name of a heading with the given events.
pub open spec fn name_of(es: Seq<EventView>) -> Seq<char> {
    es.map_values(|ev: EventView| named(ev)).flatten()
}

proof fn lemma_named_step(b: markdown::BuilderView, ev: EventView, offset: usize)
    requires
        is_inline(ev),
        b.in_heading,
        !b.in_code_block,
    ensures
        b.event(ev, offset).heading_buf == b.heading_buf + named(ev),
{
    let a = b.event(ev, offset);
    assert(a.heading_buf =~= b.heading_buf + named(ev));
}

proof fn lemma_named(p: Page, i: int, es: Seq<EventView>)
    requires
        stand_at(p.evs, i, es),
        forall|k: int| 0 <= k < es.len() ==> is_inline(#[trigger] es[k]),
        p.read(i).in_heading,
        !p.read(i).in_code_block,
    ensures
        p.read(i + es.len()).heading_buf == p.read(i).heading_buf + name_of(es),
    decreases es.len(),
{
    let f = |ev: EventView| named(ev);
    let b = p.read(i);
    if es.len() == 0 {
        assert(name_of(es) =~= Seq::<char>::empty());
        assert(b.heading_buf + name_of(es) =~= b.heading_buf);
    } else {
        let init = es.drop_last();
        let j = i + init.len();
        assert(init + seq![es.last()] =~= es);
        laws_tables::lemma_stand_parts(p.evs, i, init, seq![es.last()]);
        assert forall|k: int| 0 <= k < init.len() implies is_inline(#[trigger] init[k]) by {
            assert(init[k] == es[k]);
        }
        lemma_named(p, i, init);
        lemma_inside(p, i, init);
        laws_tables::lemma_inline_read(p, i, init);
        assert(is_inline(es[es.len() - 1]));
        assert(p.evs[j + 0].0 == seq![es.last()][0]);
        laws_blocks::lemma_read_step(p, j);
        lemma_named_step(p.read(j), es.last(), p.evs[j].1);
        assert(es.map_values(f) =~= init.map_values(f).push(named(es.last())));
        init.map_values(f).lemma_flatten_push(named(es.last()));
        assert(b.heading_buf + name_of(init) + named(es.last()) =~= b.heading_buf + name_of(es));
    }
}

proof fn lemma_heading_start(p: Page, i: int)
    requires
        0 <= i < p.evs.len(),
        p.evs[i].0 matches EventView::Start(TagView::Heading(_)),
    ensures
        ({
            let b = p.read(i);
            let a = p.read(i + 1);
            &&& a.runs == b.runs
            &&& a.blocks == b.blocks
            &&& a.in_code_block == b.in_code_block
            &&& a.in_heading
            &&& a.heading_buf.len() == 0
        }),
{
    laws_blocks::lemma_read_step(p, i);
}

proof fn lemma_heading_end(p: Page, j: int)
    requires
        0 <= j < p.evs.len(),
        p.evs[j].0 == EventView::End(MdTagEnd::Heading),
    ensures
        ({
            let b = p.read(j);
            let a = p.read(j + 1);
            let n = b.blocks.len() as int;
            &&& is_clear(a)
            &&& a.blocks.len() == n + 3
            &&& a.blocks[n].0 is Blank
            &&& a.blocks[n + 1].0 == (BlockView::Heading {
                runs: b.runs,
                anchor: links::slug(b.heading_buf),
            })
            &&& a.blocks[n + 2].0 is Blank
        }),
{
    laws_blocks::lemma_read_step(p, j);
}

proof fn lemma_heading_read(p: Page, i: int, level: Level, es: Seq<EventView>) -> (runs: Seq<RunView>)
    requires
        stand_at(
            p.evs,
            i,
            seq![EventView::Start(TagView::Heading(level))] + es + seq![
                EventView::End(MdTagEnd::Heading),
            ],
        ),
        forall|k: int| 0 <= k < es.len() ==> is_inline(#[trigger] es[k]),
        !code_open(p.evs, i),
        p.read(i).runs.len() == 0,
    ensures
        texts(runs) == pieces_of(es),
        ({
            let a = p.read(i + es.len() + 2);
            let n = p.read(i).blocks.len() as int;
            &&& is_clear(a)
            &&& a.blocks.len() == n + 3
            &&& a.blocks[n].0 is Blank
            &&& a.blocks[n + 1].0 == (BlockView::Heading {
                runs,
                anchor: links::slug(name_of(es)),
            })
            &&& a.blocks[n + 2].0 is Blank
        }),
{
    let first = seq![EventView::Start(TagView::Heading(level))];
    let last = seq![EventView::End(MdTagEnd::Heading)];
    laws_tables::lemma_stand_parts(p.evs, i, first + es, last);
    laws_tables::lemma_stand_parts(p.evs, i, first, es);
    let j = i + 1 + es.len();
    assert(p.evs[i + 0].0 == first[0]);
    assert(p.evs[i + (first + es).len() + 0].0 == last[0]);
    lemma_heading_start(p, i);
    assert(!code_open(p.evs, i + 1));
    laws_tables::lemma_code_open(p, i + 1);
    lemma_text_read(p, i + 1, es);
    lemma_named(p, i + 1, es);
    lemma_heading_end(p, j);
    assert(p.read(i + 1).heading_buf + name_of(es) =~= name_of(es));
    p.read(j).runs
}

/// Blocks behind a heading leave its anchor where it is, unless a later heading has it too.
proof fn lemma_anchor_stays(p: Page, bs: Seq<(BlockView, usize)>, j: int, k: int, a: Seq<char>)
    requires
        0 <= j <= k <= bs.len(),
        p.laid(bs, j).anchors.contains_key(a),
        p.laid(bs, j).anchors[a] <= p.laid(bs, j).pen.lines.len(),
        p.laid(bs, k).pen.lines.len() <= usize::MAX,
    ensures
        ({
            let l = p.laid(bs, j);
            let m = p.laid(bs, k);
            &&& m.anchors.contains_key(a)
            &&& m.anchors[a] <= m.pen.lines.len()
            &&& m.anchors[a] >= l.anchors[a]
            &&& (forall|x: int| j <= x < k ==> !((#[trigger] bs[x]).0 is Heading)) ==> m.anchors[a]
                == l.anchors[a]
        }),
    decreases k - j,
{
    reveal(Page::laid);
    if j < k {
        laws_blocks::lemma_laid_grows(p, bs, k - 1, k);
        lemma_anchor_stays(p, bs, j, k - 1, a);
        laws_blocks::lemma_laid_grows(p, bs, j, k - 1);
        let m = p.laid(bs, k - 1);
        let n = p.laid(bs, k);
        lemma_block_anchors(
            m,
            bs[k - 1].0,
            p.theme,
            p.cols(),
            p.all_read().targets,
            p.all_read().boxes,
            p.cursor,
        );
        if forall|x: int| j <= x < k ==> !((#[trigger] bs[x]).0 is Heading) {
            assert(!(bs[k - 1].0 is Heading));
        }
    }
}

proof fn lemma_block_anchors(
    l: markdown::LayoutView,
    b: BlockView,
    theme: crate::theme::Theme,
    width: usize,
    targets: Seq<links::TargetView>,
    boxes: Seq<PendingCheckbox>,
    cursor: Option<usize>,
)
    ensures
        l.block(b, theme, width, targets, boxes, cursor).anchors == match b {
            BlockView::Heading { runs, anchor } => l.anchors.insert(
                anchor,
                l.pen.lines.len() as usize,
            ),
            _ => l.anchors,
        },
{
}

/// Only the end of a heading adds one.
proof fn lemma_event_headings(b: markdown::BuilderView, ev: EventView, offset: usize)
    requires
        ev != EventView::End(MdTagEnd::Heading),
    ensures
        forall|k: int|
            b.blocks.len() <= k < b.event(ev, offset).blocks.len() ==> !((#[trigger] b.event(
                ev,
                offset,
            ).blocks[k]).0 is Heading),
{
}

proof fn lemma_no_headings(p: Page, j: int, n: int)
    requires
        0 <= j <= n <= p.evs.len(),
        forall|k: int| j <= k < n ==> (#[trigger] p.evs[k]).0 != EventView::End(MdTagEnd::Heading),
    ensures
        forall|k: int|
            p.read(j).blocks.len() <= k < p.read(n).blocks.len() ==> !((#[trigger] p.read(
                n,
            ).blocks[k]).0 is Heading),
    decreases n - j,
{
    if j < n {
        lemma_no_headings(p, j, n - 1);
        laws_blocks::lemma_read_step(p, n - 1);
        laws_blocks::lemma_read_grows(p, n - 1, n);
        let b = p.read(n - 1);
        let a = p.read(n);
        lemma_event_headings(b, p.evs[n - 1].0, p.evs[n - 1].1);
        assert forall|k: int| p.read(j).blocks.len() <= k < a.blocks.len() implies !((
        #[trigger] a.blocks[k]).0 is Heading) by {
            if k < b.blocks.len() {
                assert(a.blocks[k] == b.blocks[k]);
            }
        }
    }
}

/// Where a heading stands: its text is shown from `row` on, behind no prefix, and its
/// anchor leads there or, if there is a heading with the same anchor further down, below.
pub open spec fn shows_heading(p: Page, row: int, t: Seq<char>, anchor: Seq<char>) -> bool {
    &&& shows_text(p.rendered().lines, row, t, Seq::empty(), Seq::empty())
    &&& has_room(t, 0, p.cols() as int) ==> shown(p.rendered().lines[row]) == t
    &&& p.rendered().anchors.contains_key(anchor)
    &&& p.rendered().anchors[anchor] >= row
}

/// The row at which the second block of a stretch of events begins.
spec fn second_row(p: Page, i: int, j: int) -> int {
    p.laid(p.read(j).blocks, p.read(i).blocks.len() as int + 1).pen.lines.len() as int
}

proof fn lemma_heading_text(p: Page, i: int, j: int, runs: Seq<RunView>, anchor: Seq<char>)
    requires
        0 <= i <= j <= p.evs.len(),
        p.rendered().lines.len() <= usize::MAX,
        p.read(j).blocks.len() == p.read(i).blocks.len() + 3,
        p.read(j).blocks[p.read(i).blocks.len() as int].0 is Blank,
        p.read(j).blocks[p.read(i).blocks.len() as int + 1].0 == (BlockView::Heading {
            runs,
            anchor,
        }),
        p.read(j).blocks[p.read(i).blocks.len() as int + 2].0 is Blank,
    ensures
        ({
            let row = second_row(p, i, j);
            let t = texts(runs).flatten();
            &&& row == p.rows_before(i) || row == p.rows_before(i) + 1
            &&& shows_text(p.rendered().lines, row, t, Seq::empty(), Seq::empty())
            &&& has_room(t, 0, p.cols() as int) ==> shown(p.rendered().lines[row]) == t
        }),
{
    laws_blocks::lemma_stretch(p, i, j);
    let bs = p.read(j).blocks;
    let k0 = p.read(i).blocks.len() as int;
    let w = p.cols();
    let all = p.all_read();
    let l0 = p.laid(bs, k0).pen;
    let l1 = p.laid(bs, k0 + 1).pen;
    let l2 = p.laid(bs, k0 + 2).pen;
    let l3 = p.laid(bs, k0 + 3).pen;
    laws_blocks::lemma_laid_grows(p, bs, k0 + 1, k0 + 2);
    laws_blocks::lemma_laid_grows(p, bs, k0 + 2, k0 + 3);
    let none = Seq::<RunView>::empty();
    lemma_laid_blank(p, bs, k0);
    lemma_laid_heading(p, bs, k0 + 1, runs, anchor);
    lemma_wrapped(l1, runs, none, none, w, all.targets, all.boxes);
    assert(texts(none).flatten() =~= Seq::<char>::empty());
    let row = l1.lines.len() as int;
    assert(row == l0.lines.len() || row == l0.lines.len() + 1);
    let t = texts(runs).flatten();
    let e = Seq::<char>::empty();
    lemma_text_prefix(l2.lines, l3.lines, row, t, e, e);
    lemma_text_prefix(l3.lines, p.rendered().lines, row, t, e, e);
    if has_room(t, 0, w as int) {
        lemma_wrapped_short(l1, runs, none, none, w, all.targets, all.boxes);
        assert(e + t =~= t);
    }
}

/// What is left over at the end is no heading.
proof fn lemma_last_headings(p: Page)
    ensures
        ({
            let rb = p.read(p.evs.len() as int).blocks;
            let ab = p.all_read().blocks;
            &&& rb.len() <= ab.len()
            &&& forall|x: int| 0 <= x < rb.len() ==> ab[x] == rb[x]
            &&& forall|x: int| rb.len() <= x < ab.len() ==> !((#[trigger] ab[x]).0 is Heading)
        }),
{
}

proof fn lemma_rendered(p: Page)
    ensures
        ({
            let ab = p.all_read().blocks;
            let end = p.laid(ab, ab.len() as int);
            &&& p.rendered().lines == end.pen.lines
            &&& p.rendered().anchors == end.anchors
        }),
{
    reveal(Page::laid);
    reveal(Page::read);
}

proof fn lemma_laid_blank(p: Page, bs: Seq<(BlockView, usize)>, k: int)
    requires
        0 <= k < bs.len(),
        bs[k].0 is Blank,
    ensures
        ({
            let a = p.laid(bs, k).pen.lines.len();
            let b = p.laid(bs, k + 1).pen.lines.len();
            b == a || b == a + 1
        }),
{
    reveal(Page::laid);
}

/// A heading block notes its row.
proof fn lemma_laid_heading(
    p: Page,
    bs: Seq<(BlockView, usize)>,
    k: int,
    runs: Seq<RunView>,
    anchor: Seq<char>,
)
    requires
        0 <= k < bs.len(),
        bs[k].0 == (BlockView::Heading { runs, anchor }),
        p.laid(bs, k).pen.lines.len() <= usize::MAX,
    ensures
        p.laid(bs, k + 1).pen == p.laid(bs, k).pen.wrapped(
            runs,
            Seq::empty(),
            Seq::empty(),
            p.cols(),
            p.all_read().targets,
            p.all_read().boxes,
        ),
        p.laid(bs, k + 1).anchors.contains_key(anchor),
        p.laid(bs, k + 1).anchors[anchor] == p.laid(bs, k).pen.lines.len(),
{
    reveal(Page::laid);
    lemma_block_anchors(
        p.laid(bs, k),
        bs[k].0,
        p.theme,
        p.cols(),
        p.all_read().targets,
        p.all_read().boxes,
        p.cursor,
    );
}

/// Where no heading ends any more, no heading is added.
proof fn lemma_rest_headings(p: Page, j: int)
    requires
        0 <= j <= p.evs.len(),
        forall|k: int|
            j <= k < p.evs.len() ==> (#[trigger] p.evs[k]).0 != EventView::End(MdTagEnd::Heading),
    ensures
        forall|x: int|
            p.read(j).blocks.len() <= x < p.all_read().blocks.len()
                ==> !((#[trigger] p.all_read().blocks[x]).0 is Heading),
{
    let n = p.evs.len() as int;
    lemma_no_headings(p, j, n);
    lemma_last_headings(p);
    let rb = p.read(n).blocks;
    let ab = p.all_read().blocks;
    assert forall|x: int| p.read(j).blocks.len() <= x < ab.len() implies !((
    #[trigger] ab[x]).0 is Heading) by {
        if x < rb.len() {
            assert(ab[x] == rb[x]);
        }
    }
}

proof fn lemma_heading_anchor(p: Page, i: int, j: int, runs: Seq<RunView>, anchor: Seq<char>)
    requires
        0 <= i <= j <= p.evs.len(),
        p.rendered().lines.len() <= usize::MAX,
        p.read(j).blocks.len() == p.read(i).blocks.len() + 3,
        p.read(j).blocks[p.read(i).blocks.len() as int].0 is Blank,
        p.read(j).blocks[p.read(i).blocks.len() as int + 1].0 == (BlockView::Heading {
            runs,
            anchor,
        }),
        p.read(j).blocks[p.read(i).blocks.len() as int + 2].0 is Blank,
    ensures
        ({
            let row = second_row(p, i, j);
            &&& p.rendered().anchors.contains_key(anchor)
            &&& p.rendered().anchors[anchor] >= row
            &&& (forall|k: int|
                j <= k < p.evs.len() ==> (#[trigger] p.evs[k]).0 != EventView::End(
                    MdTagEnd::Heading,
                )) ==> p.rendered().anchors[anchor] == row
        }),
{
    let bs = p.read(j).blocks;
    let k0 = p.read(i).blocks.len() as int;
    let ab = p.all_read().blocks;
    let n = ab.len() as int;
    laws_blocks::lemma_all_read(p, j);
    assert(forall|x: int| 0 <= x < bs.len() ==> ab[x] == bs[x]);
    laws_blocks::lemma_laid_same(p, ab, bs, k0 + 1);
    lemma_rendered(p);
    laws_blocks::lemma_laid_grows(p, ab, k0 + 1, k0 + 2);
    laws_blocks::lemma_laid_grows(p, ab, k0 + 2, n);
    lemma_laid_heading(p, ab, k0 + 1, runs, anchor);
    lemma_anchor_stays(p, ab, k0 + 2, n, anchor);
    if forall|k: int|
        j <= k < p.evs.len() ==> (#[trigger] p.evs[k]).0 != EventView::End(MdTagEnd::Heading) {
        lemma_rest_headings(p, j);
        assert forall|x: int| k0 + 2 <= x < n implies !((#[trigger] ab[x]).0 is Heading) by {
            if x < k0 + 3 {
                assert(ab[x] == bs[x]);
            }
        }
    }
}

/// A heading is shown where what comes before it ends, perhaps behind one empty line, and
/// its anchor, the slug of its name, leads to its first line, unless a later heading takes
/// the anchor over.
pub proof fn law_heading_is_shown(p: Page, i: int, level: Level, es: Seq<EventView>)
    requires
        p.rendered().lines.len() <= usize::MAX,
        stand_at(
            p.evs,
            i,
            seq![EventView::Start(TagView::Heading(level))] + es + seq![
                EventView::End(MdTagEnd::Heading),
            ],
        ),
        forall|k: int| 0 <= k < es.len() ==> is_inline(#[trigger] es[k]),
        !code_open(p.evs, i),
        is_clear(p.read(i)),
    ensures
        exists|row: int|
            {
                let anchor = links::slug(name_of(es));
                &&& row == p.rows_before(i) || row == p.rows_before(i) + 1
                &&& #[trigger] shows_heading(
                    p,
                    row,
                    pieces_of(es).flatten(),
                    links::slug(name_of(es)),
                )
                &&& (forall|k: int|
                    i + es.len() + 2 <= k < p.evs.len() ==> (#[trigger] p.evs[k]).0
                        != EventView::End(MdTagEnd::Heading)) ==> p.rendered().anchors[anchor]
                    == row
            },
        is_clear(p.read(i + es.len() + 2)),
{
    let runs = lemma_heading_read(p, i, level, es);
    let j = i + es.len() + 2;
    let anchor = links::slug(name_of(es));
    lemma_heading_text(p, i, j, runs, anchor);
    lemma_heading_anchor(p, i, j, runs, anchor);
    let row = second_row(p, i, j);
    assert(shows_heading(p, row, pieces_of(es).flatten(), links::slug(name_of(es))));
}

} // verus!
