//! What a rendered document shows of each construct, and where.

use syntect::easy::HighlightLines;
use vstd::prelude::*;
use crate::laws_shown::{lemma_shown_push, shown};
use crate::laws_text;
use crate::links;
use crate::markdown;
use crate::markdown::BlockView;
use crate::parse::{EventView, MdTagEnd, TagView};
use crate::style;
use crate::style::Style;
use crate::syntax;
use crate::syntax::{Highlighter, RegionView};
use crate::table;
use crate::text;
use crate::theme::Theme;
use crate::wrap;
use crate::wrap::PendingCheckbox;

verus! {

// ---------------------------------------------------------------------------
// Documents
// ---------------------------------------------------------------------------

/// A document to be rendered: its events, and how they are shown.
pub struct Page {
    pub evs: Seq<(EventView, usize)>,
    pub base: Option<Seq<char>>,
    pub width: u16,
    pub theme: Theme,
    pub hl: Highlighter,
    pub cursor: Option<usize>,
}

impl Page {
    /// The rendered document.
    pub open spec fn rendered(self) -> markdown::RenderedView {
        markdown::rendered(self.evs, self.base, self.width, self.theme, self.hl, self.cursor)
    }

    /// What has been read after the first `n` events.
    #[verifier::opaque]
    pub open spec fn read(self, n: int) -> markdown::BuilderView {
        markdown::builder_start(self.theme, self.hl, self.base).events(self.evs, n)
    }

    /// What has been read at the end.
    pub open spec fn all_read(self) -> markdown::BuilderView {
        self.read(self.evs.len() as int).finish_paragraph()
    }

    /// The columns that are filled.
    pub open spec fn cols(self) -> usize {
        if self.width == 0 {
            80
        } else {
            self.width as usize
        }
    }

    /// The layout of the first `k` of some blocks.
    #[verifier::opaque]
    pub open spec fn laid(self, bs: Seq<(BlockView, usize)>, k: int) -> markdown::LayoutView {
        let b = self.all_read();
        markdown::layout_start(b.images.len()).blocks(
            bs,
            self.theme,
            self.cols(),
            b.targets,
            b.boxes,
            self.cursor,
            k,
        )
    }

    /// The number of lines that the blocks of the first `n` events take.
    pub open spec fn rows_before(self, n: int) -> int {
        let bs = self.read(n).blocks;
        self.laid(bs, bs.len() as int).pen.lines.len() as int
    }
}

pub proof fn lemma_read_step(p: Page, n: int)
    requires
        0 <= n < p.evs.len(),
    ensures
        p.read(n + 1) == p.read(n).event(p.evs[n].0, p.evs[n].1),
{
    reveal(Page::read);
}

pub proof fn lemma_read_start(p: Page)
    ensures
        p.read(0) == markdown::builder_start(p.theme, p.hl, p.base),
{
    reveal(Page::read);
}

/// Whether one state holds what another held, and perhaps more blocks behind.
spec fn keeps(b: markdown::BuilderView, a: markdown::BuilderView) -> bool {
    &&& a.theme == b.theme
    &&& a.hl == b.hl
    &&& a.base_dir == b.base_dir
    &&& a.blocks.len() >= b.blocks.len()
    &&& forall|k: int| 0 <= k < b.blocks.len() ==> a.blocks[k] == b.blocks[k]
}

proof fn lemma_start_keeps(b: markdown::BuilderView, tag: TagView)
    ensures
        keeps(b, b.start_tag(tag)),
{
}

proof fn lemma_end_keeps(b: markdown::BuilderView, tag: MdTagEnd)
    ensures
        keeps(b, b.end_tag(tag)),
{
}

proof fn lemma_event_keeps(b: markdown::BuilderView, ev: EventView, offset: usize)
    ensures
        keeps(b, b.event(ev, offset)),
        b.blocks.is_prefix_of(b.event(ev, offset).blocks),
{
    let l = b.located(ev, offset);
    assert(keeps(b, l));
    let a = l.handled(ev, offset);
    match ev {
        EventView::Start(tag) => lemma_start_keeps(l, tag),
        EventView::End(tag) => lemma_end_keeps(l, tag),
        _ => {},
    }
    assert(a.blocks.subrange(0, b.blocks.len() as int) =~= b.blocks);
}

pub proof fn lemma_read_grows(p: Page, i: int, j: int)
    requires
        0 <= i <= j <= p.evs.len(),
    ensures
        p.read(i).blocks.is_prefix_of(p.read(j).blocks),
        p.read(j).theme == p.theme,
        p.read(j).hl == p.hl,
        p.read(j).base_dir == p.base,
    decreases j,
{
    if i < j {
        lemma_read_grows(p, i, j - 1);
        lemma_read_step(p, j - 1);
        let b = p.read(j - 1);
        lemma_event_keeps(b, p.evs[j - 1].0, p.evs[j - 1].1);
        let a = p.read(j);
        assert(a == b.event(p.evs[j - 1].0, p.evs[j - 1].1));
        assert(p.read(i).blocks =~= a.blocks.subrange(0, p.read(i).blocks.len() as int));
    } else {
        assert(p.read(i).blocks.subrange(0, p.read(i).blocks.len() as int) =~= p.read(i).blocks);
        lemma_read_start(p);
        if j > 0 {
            lemma_read_step(p, j - 1);
            lemma_read_grows(p, j - 1, j - 1);
            lemma_event_keeps(p.read(j - 1), p.evs[j - 1].0, p.evs[j - 1].1);
        }
    }
}

pub proof fn lemma_all_read(p: Page, i: int)
    requires
        0 <= i <= p.evs.len(),
    ensures
        p.read(i).blocks.is_prefix_of(p.all_read().blocks),
{
    let n = p.evs.len() as int;
    lemma_read_grows(p, i, n);
    let a = p.all_read().blocks;
    let b = p.read(n).blocks;
    assert(a.subrange(0, b.len() as int) =~= b);
    assert(p.read(i).blocks =~= a.subrange(0, p.read(i).blocks.len() as int));
}

// ---------------------------------------------------------------------------
// Lines of blocks
// ---------------------------------------------------------------------------

proof fn lemma_code_prefix(
    out: Seq<Seq<style::SpanView>>,
    prefix: Seq<wrap::RunView>,
    lines: Seq<Seq<style::SpanView>>,
    bg: Option<style::Color>,
    width: usize,
    n: int,
)
    requires
        0 <= n <= lines.len(),
    ensures
        ({
            let r = markdown::code_lines(out, prefix, lines, bg, width, n);
            &&& r.len() == out.len() + n
            &&& out.is_prefix_of(r)
            &&& forall|k: int|
                0 <= k < n ==> #[trigger] r[out.len() + k] == markdown::code_line(
                    prefix,
                    lines[k],
                    bg,
                    width,
                )
        }),
    decreases n,
{
    if n > 0 {
        lemma_code_prefix(out, prefix, lines, bg, width, n - 1);
        let q = markdown::code_lines(out, prefix, lines, bg, width, n - 1);
        let r = markdown::code_lines(out, prefix, lines, bg, width, n);
        assert(r.subrange(0, out.len() as int) =~= q.subrange(0, out.len() as int));
        assert forall|k: int| 0 <= k < n implies #[trigger] r[out.len() + k]
            == markdown::code_line(prefix, lines[k], bg, width) by {
            if k < n - 1 {
                assert(r[out.len() + k] == q[out.len() + k]);
            }
        }
    } else {
        assert(out.subrange(0, out.len() as int) =~= out);
    }
}

pub proof fn lemma_rows_prefix(
    lines: Seq<Seq<style::SpanView>>,
    out: Seq<links::LinkSpanView>,
    rows: Seq<Seq<Seq<wrap::RunView>>>,
    n: int,
    ws: Seq<usize>,
    aligns: Seq<table::Align>,
    border: Style,
    targets: Seq<links::TargetView>,
)
    requires
        0 <= n <= rows.len(),
    ensures
        ({
            let r = table::rows_put(lines, out, rows, n, ws, aligns, border, targets).0;
            &&& r.len() == lines.len() + n
            &&& lines.is_prefix_of(r)
        }),
    decreases n,
{
    if n > 0 {
        lemma_rows_prefix(lines, out, rows, n - 1, ws, aligns, border, targets);
        let q = table::rows_put(lines, out, rows, n - 1, ws, aligns, border, targets).0;
        let r = table::rows_put(lines, out, rows, n, ws, aligns, border, targets).0;
        assert(r.subrange(0, lines.len() as int) =~= q.subrange(0, lines.len() as int));
    } else {
        assert(lines.subrange(0, lines.len() as int) =~= lines);
    }
}

/// A block adds lines behind those that are there.
proof fn lemma_block_prefix(
    l: markdown::LayoutView,
    b: BlockView,
    theme: Theme,
    width: usize,
    targets: Seq<links::TargetView>,
    boxes: Seq<PendingCheckbox>,
    cursor: Option<usize>,
)
    ensures
        l.pen.lines.is_prefix_of(l.block(b, theme, width, targets, boxes, cursor).pen.lines),
{
    let p = l.pen;
    let n = p.lines.len() as int;
    let q = l.block(b, theme, width, targets, boxes, cursor).pen;
    match b {
        BlockView::Paragraph { runs, prefix, hanging } => {
            laws_text::law_wrapping_keeps_text(p, runs, prefix, hanging, width, targets, boxes);
        },
        BlockView::Heading { runs, anchor } => {
            laws_text::law_wrapping_keeps_text(
                p,
                runs,
                Seq::empty(),
                Seq::empty(),
                width,
                targets,
                boxes,
            );
        },
        BlockView::Pre { lines, prefix } => {
            lemma_code_prefix(p.lines, prefix, lines, theme.code_bg, width, lines.len() as int);
        },
        BlockView::Table { aligns, header, rows } => {
            let ws = table::column_widths(header, rows, width);
            let border = Style::plain().fg(theme.muted);
            if ws.len() > 0 {
                let top = p.lines.push(table::border_view(ws, '┌', '┬', '┐', border));
                let h = table::row_view(
                    header,
                    ws,
                    aligns,
                    Some(theme.heading@[1]),
                    border,
                    top.len() as usize,
                    targets,
                    p.links,
                );
                let base = top.push(h.spans).push(table::border_view(ws, '├', '┼', '┤', border));
                lemma_rows_prefix(
                    base,
                    h.links,
                    rows,
                    rows.len() as int,
                    ws,
                    aligns,
                    border,
                    targets,
                );
                assert(base.subrange(0, n) =~= p.lines);
                assert(q.lines.subrange(0, n) =~= p.lines);
            }
        },
        _ => {},
    }
    assert(q.lines.subrange(0, n) =~= p.lines);
}

pub proof fn lemma_laid_grows(p: Page, bs: Seq<(BlockView, usize)>, j: int, k: int)
    requires
        0 <= j <= k <= bs.len(),
    ensures
        p.laid(bs, j).pen.lines.is_prefix_of(p.laid(bs, k).pen.lines),
    decreases k,
{
    reveal(Page::laid);
    let a = p.laid(bs, j).pen.lines;
    if j < k {
        lemma_laid_grows(p, bs, j, k - 1);
        let l = p.laid(bs, k - 1);
        let b = p.all_read();
        lemma_block_prefix(l, bs[k - 1].0, p.theme, p.cols(), b.targets, b.boxes, p.cursor);
        assert(a =~= p.laid(bs, k).pen.lines.subrange(0, a.len() as int));
    } else {
        assert(a.subrange(0, a.len() as int) =~= a);
    }
}

pub proof fn lemma_laid_same(
    p: Page,
    bs: Seq<(BlockView, usize)>,
    cs: Seq<(BlockView, usize)>,
    k: int,
)
    requires
        0 <= k <= bs.len(),
        k <= cs.len(),
        forall|i: int| 0 <= i < k ==> bs[i] == cs[i],
    ensures
        p.laid(bs, k) == p.laid(cs, k),
    decreases k,
{
    reveal(Page::laid);
    if k > 0 {
        lemma_laid_same(p, bs, cs, k - 1);
    }
}

/// The blocks that events `i..j` add lie behind those of the events before, and their
/// lines lie at `rows_before(i)`.
pub proof fn lemma_stretch(p: Page, i: int, j: int)
    requires
        0 <= i <= j <= p.evs.len(),
    ensures
        ({
            let bs = p.read(j).blocks;
            let from = p.laid(bs, p.read(i).blocks.len() as int);
            let to = p.laid(bs, bs.len() as int);
            &&& p.read(i).blocks.is_prefix_of(bs)
            &&& from.pen.lines.len() == p.rows_before(i)
            &&& to.pen.lines.is_prefix_of(p.rendered().lines)
            &&& from.pen.lines.is_prefix_of(to.pen.lines)
        }),
{
    lemma_read_grows(p, i, j);
    lemma_all_read(p, j);
    let all = p.all_read().blocks;
    let bs = p.read(j).blocks;
    let first = p.read(i).blocks;
    let n = all.len() as int;
    lemma_laid_same(p, bs, first, first.len() as int);
    lemma_laid_grows(p, bs, first.len() as int, bs.len() as int);
    lemma_laid_same(p, all, bs, bs.len() as int);
    lemma_laid_grows(p, all, bs.len() as int, n);
    assert(p.rendered().lines == p.laid(all, n).pen.lines) by {
        reveal(Page::read);
        reveal(Page::laid);
    }
}

// ---------------------------------------------------------------------------
// Code
// ---------------------------------------------------------------------------

/// The text of regions side by side.
pub open spec fn regions_text(rs: Seq<RegionView>) -> Seq<char> {
    rs.map_values(|x: RegionView| x.text).flatten()
}

/// Whether the colored regions of a line make up the line, for each state of the
/// highlighter and each line.
pub open spec fn colors_only(hl: Highlighter) -> bool {
    forall|h: HighlightLines<'static>, line: Seq<char>|
        (#[trigger] syntax::line_regions(h, line, hl.syntax_set())) matches Some(rs)
            ==> regions_text(rs) == line
}

/// The number of quotes that are open after the first `n` events.
pub open spec fn quotes_open(evs: Seq<(EventView, usize)>, n: int) -> int
    decreases n,
{
    if n <= 0 {
        0
    } else {
        let before = quotes_open(evs, n - 1);
        match evs[n - 1].0 {
            EventView::Start(TagView::BlockQuote) => before + 1,
            EventView::End(MdTagEnd::BlockQuote) => if before > 0 {
                before - 1
            } else {
                0
            },
            _ => before,
        }
    }
}

/// The text of the events `i..j`.
pub open spec fn text_between(evs: Seq<(EventView, usize)>, i: int, j: int) -> Seq<char>
    decreases j,
{
    if j <= i || j <= 0 {
        Seq::empty()
    } else {
        match evs[j - 1].0 {
            EventView::Text(s) => text_between(evs, i, j - 1) + s,
            _ => text_between(evs, i, j - 1),
        }
    }
}

/// Lines with a newline behind each.
pub open spec fn with_newlines(ls: Seq<Seq<char>>) -> Seq<char> {
    ls.map_values(|l: Seq<char>| l.push('\n')).flatten()
}

/// Whether `ls` is a text line by line. The newline behind the last line may be missing.
pub open spec fn is_lines_of(ls: Seq<Seq<char>>, t: Seq<char>) -> bool {
    &&& forall|k: int| 0 <= k < ls.len() ==> !(#[trigger] ls[k]).contains('\n')
    &&& with_newlines(ls) == t || with_newlines(ls) == t.push('\n')
}

/// The bars of `n` quotes.
pub open spec fn bars(n: int) -> Seq<char>
    decreases n,
{
    if n <= 0 {
        Seq::empty()
    } else {
        seq!['│', ' '] + bars(n - 1)
    }
}

proof fn lemma_bars(n: nat)
    ensures
        text::times(seq!['│', ' '], n) == bars(n as int),
        seq!['│', ' '] + bars(n as int) == bars(n as int) + seq!['│', ' '],
    decreases n,
{
    let s = seq!['│', ' '];
    if n > 0 {
        lemma_bars((n - 1) as nat);
        let b = bars(n - 1);
        assert(s + (s + b) =~= s + (b + s));
        assert(s + (b + s) =~= (s + b) + s);
    } else {
        assert(s + Seq::<char>::empty() =~= Seq::<char>::empty() + s);
    }
}

/// `n` spaces.
pub open spec fn blanks(n: nat) -> Seq<char> {
    Seq::new(n, |k: int| ' ')
}

/// Whether a line of the screen is a prefix, two spaces, a line of code, and then only
/// spaces.
pub open spec fn shows_code(
    line: Seq<style::SpanView>,
    prefix: Seq<char>,
    code: Seq<char>,
) -> bool {
    exists|n: nat| shown(line) == prefix + seq![' ', ' '] + code + #[trigger] blanks(n)
}

proof fn lemma_without_newlines(t: Seq<char>)
    requires
        !t.contains('\n'),
    ensures
        syntax::without_newlines(t) == t,
        syntax::without_newlines(t.push('\n')) == t,
{
    if t.len() > 0 {
        assert(t.contains(t[t.len() - 1]));
    }
    assert(t.push('\n').drop_last() =~= t);
    reveal_with_fuel(syntax::without_newlines, 2);
}

/// The spans of regions show their text without the newline at the end.
proof fn lemma_region_spans(depth: crate::palette::ColorDepth, rs: Seq<RegionView>)
    requires
        !regions_text(rs).contains('\n') || !regions_text(rs).drop_last().contains('\n'),
    ensures
        shown(syntax::region_spans(depth, rs)) == syntax::without_newlines(regions_text(rs)),
    decreases rs.len(),
{
    let f = |x: RegionView| x.text;
    if rs.len() == 0 {
        assert(regions_text(rs) =~= Seq::<char>::empty());
        assert(shown(syntax::region_spans(depth, rs)) =~= Seq::<char>::empty());
    } else {
        let init = rs.drop_last();
        let t = rs.last().text;
        let c = regions_text(init);
        let all = regions_text(rs);
        assert(rs.map_values(f) =~= init.map_values(f).push(t));
        init.map_values(f).lemma_flatten_push(t);
        assert(all == c + t);
        let spans = syntax::region_spans(depth, init);
        if t.len() == 0 {
            assert(c + t =~= c);
            lemma_region_spans(depth, init);
        } else {
            assert(!c.contains('\n')) by {
                if c.contains('\n') {
                    let k = choose|k: int| 0 <= k < c.len() && c[k] == '\n';
                    assert(all[k] == '\n');
                    assert(all.drop_last()[k] == '\n');
                }
            }
            lemma_region_spans(depth, init);
            lemma_without_newlines(c);
            let last = t.last();
            let head = t.drop_last();
            assert(!head.contains('\n')) by {
                if head.contains('\n') {
                    let k = choose|k: int| 0 <= k < head.len() && head[k] == '\n';
                    assert(all.drop_last()[c.len() + k] == '\n');
                    assert(all[c.len() + k] == '\n');
                }
            }
            let s = syntax::without_newlines(t);
            assert(t =~= head.push(last));
            assert(!(c + head).contains('\n')) by {
                if (c + head).contains('\n') {
                    let k = choose|k: int| 0 <= k < (c + head).len() && (c + head)[k] == '\n';
                    if k < c.len() {
                        assert(c.contains('\n'));
                    } else {
                        assert(head[k - c.len()] == '\n');
                    }
                }
            }
            if last == '\n' {
                lemma_without_newlines(head);
                lemma_without_newlines(c + head);
                assert(all =~= (c + head).push('\n'));
            } else {
                assert(!t.contains('\n')) by {
                    if t.contains('\n') {
                        let k = choose|k: int| 0 <= k < t.len() && t[k] == '\n';
                        assert(head[k] == '\n');
                    }
                }
                assert(!all.contains('\n')) by {
                    if all.contains('\n') {
                        let k = choose|k: int| 0 <= k < all.len() && all[k] == '\n';
                        if k < c.len() {
                            assert(c[k] == '\n');
                        } else {
                            assert(t[k - c.len()] == '\n');
                        }
                    }
                }
                lemma_without_newlines(t);
                lemma_without_newlines(all);
            }
            assert(syntax::without_newlines(all) == c + s);
            if s.len() > 0 {
                lemma_shown_push(
                    spans,
                    style::span(s, syntax::region_style(depth, rs.last())),
                );
            } else {
                assert(c + s =~= c);
            }
        }
    }
}

/// Highlighted code shows the code, line by line.
proof fn lemma_code_spans(
    hl: Highlighter,
    depth: crate::palette::ColorDepth,
    h: HighlightLines<'static>,
    code: Seq<char>,
    i: int,
) -> (ls: Seq<Seq<char>>)
    requires
        colors_only(hl),
        0 <= i <= code.len(),
    ensures
        is_lines_of(ls, code.skip(i)),
        ({
            let r = syntax::code_spans(depth, h, hl.syntax_set(), code, i);
            &&& r.len() == ls.len()
            &&& forall|k: int| 0 <= k < r.len() ==> shown(#[trigger] r[k]) == ls[k]
        }),
    decreases code.len() - i,
{
    let set = hl.syntax_set();
    let g = |l: Seq<char>| l.push('\n');
    if i == code.len() {
        let ls = Seq::<Seq<char>>::empty();
        assert(code.skip(i) =~= Seq::<char>::empty());
        assert(with_newlines(ls) =~= Seq::<char>::empty());
        ls
    } else {
        text::lemma_first_char(code, '\n', i);
        let e = syntax::line_end(code, i);
        let line = code.subrange(i, e);
        let next = syntax::after_line(h, line, set);
        let more = lemma_code_spans(hl, depth, next, code, e);
        let rest = syntax::code_spans(depth, next, set, code, e);
        let r = syntax::code_spans(depth, h, set, code, i);
        let one = syntax::line_spans(depth, h, line, set);
        assert(r == seq![one] + rest);
        let body = match text::first_char(code, '\n', i) {
            Some(k) => code.subrange(i, k),
            None => line,
        };
        assert(!body.contains('\n')) by {
            if body.contains('\n') {
                let k = choose|k: int| 0 <= k < body.len() && body[k] == '\n';
                assert(code[i + k] == '\n');
            }
        }
        lemma_without_newlines(body);
        let ended = text::first_char(code, '\n', i) is Some;
        assert(line =~= if ended {
            body.push('\n')
        } else {
            body
        });
        assert(!line.contains('\n') || !line.drop_last().contains('\n')) by {
            if ended {
                assert(line.drop_last() =~= body);
            }
        }
        assert(shown(one) == body) by {
            match syntax::line_regions(h, line, set) {
                Some(rs) => {
                    assert(regions_text(rs) == line);
                    lemma_region_spans(depth, rs);
                },
                None => {
                    let s = style::span(syntax::without_newlines(line), Style::plain());
                    lemma_shown_push(Seq::empty(), s);
                    assert(Seq::empty().push(s) =~= seq![s]);
                    assert(shown(Seq::empty()) =~= Seq::<char>::empty());
                    assert(Seq::<char>::empty() + s.content =~= s.content);
                },
            }
        }
        let ls = seq![body] + more;
        assert(ls.map_values(g) =~= seq![body.push('\n')] + more.map_values(g));
        vstd::seq_lib::lemma_flatten_concat(seq![body.push('\n')], more.map_values(g));
        seq![body.push('\n')].lemma_flatten_one_element();
        assert(with_newlines(ls) == body.push('\n') + with_newlines(more));
        if ended {
            assert(code.skip(i) =~= line + code.skip(e));
            assert(code.skip(i).push('\n') =~= line + code.skip(e).push('\n'));
        } else {
            assert(e == code.len());
            assert(code.skip(e) =~= Seq::<char>::empty());
            assert(more.len() == 0) by {
                assert(rest.len() == 0);
            }
            assert(with_newlines(more) =~= Seq::<char>::empty());
            assert(code.skip(i) =~= body);
            assert(body.push('\n') + Seq::<char>::empty() =~= body.push('\n'));
        }
        assert forall|k: int| 0 <= k < ls.len() implies !(#[trigger] ls[k]).contains('\n') by {
            if k > 0 {
                assert(ls[k] == more[k - 1]);
            }
        }
        assert forall|k: int| 0 <= k < r.len() implies shown(#[trigger] r[k]) == ls[k] by {
            if k > 0 {
                assert(r[k] == rest[k - 1]);
            }
        }
        ls
    }
}

/// The text of runs side by side.
pub open spec fn runs_text(rs: Seq<wrap::RunView>) -> Seq<char> {
    rs.map_values(|r: wrap::RunView| r.text).flatten()
}

proof fn lemma_spans_of(rs: Seq<wrap::RunView>)
    ensures
        shown(wrap::spans_of(rs)) == runs_text(rs),
{
    assert(wrap::spans_of(rs).map_values(|s: style::SpanView| s.content) =~= rs.map_values(
        |r: wrap::RunView| r.text,
    ));
}

proof fn lemma_code_line_spans(
    prefix: Seq<wrap::RunView>,
    line: Seq<style::SpanView>,
    bg: Option<style::Color>,
    n: int,
)
    requires
        0 <= n <= line.len(),
    ensures
        shown(markdown::code_line_spans(prefix, line, bg, n)) == runs_text(prefix) + seq![' ', ' ']
            + shown(line.take(n)),
    decreases n,
{
    reveal_strlit("  ");
    if n <= 0 {
        lemma_spans_of(prefix);
        lemma_shown_push(
            wrap::spans_of(prefix),
            style::span("  "@, Style::plain().bg_opt(bg)),
        );
        assert("  "@ =~= seq![' ', ' ']);
        assert(line.take(0) =~= Seq::empty());
        assert(shown(line.take(0)) =~= Seq::<char>::empty());
        assert(runs_text(prefix) + seq![' ', ' '] + Seq::<char>::empty() =~= runs_text(prefix)
            + seq![' ', ' ']);
    } else {
        lemma_code_line_spans(prefix, line, bg, n - 1);
        let s = style::span(line[n - 1].content, line[n - 1].style.bg_opt(bg));
        lemma_shown_push(markdown::code_line_spans(prefix, line, bg, n - 1), s);
        lemma_shown_push(line.take(n - 1), line[n - 1]);
        assert(line.take(n - 1).push(line[n - 1]) =~= line.take(n));
        assert(runs_text(prefix) + seq![' ', ' '] + shown(line.take(n - 1)) + line[n - 1].content
            =~= runs_text(prefix) + seq![' ', ' '] + (shown(line.take(n - 1)) + line[n
            - 1].content));
    }
}

proof fn lemma_code_line(
    prefix: Seq<wrap::RunView>,
    line: Seq<style::SpanView>,
    bg: Option<style::Color>,
    width: usize,
)
    ensures
        shows_code(markdown::code_line(prefix, line, bg, width), runs_text(prefix), shown(line)),
{
    let n = line.len() as int;
    lemma_code_line_spans(prefix, line, bg, n);
    assert(line.take(n) =~= line);
    let spans = markdown::code_line_spans(prefix, line, bg, n);
    let r = markdown::code_line(prefix, line, bg, width);
    if r.len() > spans.len() {
        let pad = r.last();
        lemma_shown_push(spans, pad);
        let n = pad.content.len();
        assert(pad.content =~= blanks(n));
        assert(shown(r) == runs_text(prefix) + seq![' ', ' '] + shown(line) + blanks(n));
    } else {
        assert(shown(r) + blanks(0) =~= shown(r));
    }
}

pub proof fn lemma_quotes(p: Page, n: int)
    requires
        0 <= n <= p.evs.len() <= usize::MAX,
    ensures
        p.read(n).quote_depth == quotes_open(p.evs, n),
        0 <= quotes_open(p.evs, n) <= n,
    decreases n,
{
    lemma_read_start(p);
    if n > 0 {
        lemma_read_step(p, n - 1);
        lemma_quotes(p, n - 1);
    }
}

/// Reading the text of a code block collects it.
proof fn lemma_code_read(p: Page, i: int, j: int)
    requires
        0 <= i < j <= p.evs.len(),
        p.evs[i].0 matches EventView::Start(TagView::CodeBlock(_)),
        forall|k: int| i < k < j ==> (#[trigger] p.evs[k]).0 is Text,
    ensures
        p.read(j).in_code_block,
        p.read(j).code == text_between(p.evs, i + 1, j),
        p.read(j).blocks == p.read(i).blocks,
        p.read(j).quote_depth == p.read(i).quote_depth,
        p.read(j).runs == p.read(i).runs,
        p.read(j).prefix == p.read(i).prefix,
    decreases j,
{
    lemma_read_step(p, j - 1);
    if j > i + 1 {
        lemma_code_read(p, i, j - 1);
        assert(p.evs[j - 1].0 is Text);
    }
}

pub proof fn lemma_quote_text(b: markdown::BuilderView)
    ensures
        runs_text(b.quote_prefix()) == bars(b.quote_depth as int),
{
    let prefix = b.quote_prefix();
    let bars = bars(b.quote_depth as int);
    lemma_bars(b.quote_depth as nat);
    reveal_strlit("│ ");
    assert("│ "@ =~= seq!['│', ' ']);
    let f = |r: wrap::RunView| r.text;
    if b.quote_depth == 0 {
        assert(prefix.map_values(f) =~= Seq::empty());
        assert(runs_text(prefix) =~= Seq::<char>::empty());
    } else {
        assert(prefix.map_values(f) =~= seq![bars]);
        seq![bars].lemma_flatten_one_element();
    }
}

/// The end of a code block adds the highlighted code.
proof fn lemma_code_end(b: markdown::BuilderView, offset: usize)
    ensures
        ({
            let a = b.event(EventView::End(MdTagEnd::CodeBlock), offset);
            let n = b.blocks.len() as int;
            &&& a.blocks.len() == n + 2
            &&& a.blocks[n].0 == (BlockView::Pre {
                lines: b.hl.highlighted(b.code, b.code_lang, b.theme.syntect_theme@),
                prefix: b.quote_prefix(),
            })
            &&& a.runs == b.runs
            &&& a.prefix == b.prefix
        }),
{
}

proof fn lemma_laid_pre(
    p: Page,
    bs: Seq<(BlockView, usize)>,
    k: int,
    lines: Seq<Seq<style::SpanView>>,
    prefix: Seq<wrap::RunView>,
)
    requires
        0 <= k < bs.len(),
        bs[k].0 == (BlockView::Pre { lines, prefix }),
    ensures
        p.laid(bs, k + 1).pen.lines == markdown::code_lines(
            p.laid(bs, k).pen.lines,
            prefix,
            lines,
            p.theme.code_bg,
            p.cols(),
            lines.len() as int,
        ),
{
    reveal(Page::laid);
}

/// Lines of code are shown where their block stands.
proof fn lemma_pre_shown(
    p: Page,
    i: int,
    j: int,
    lines: Seq<Seq<style::SpanView>>,
    prefix: Seq<wrap::RunView>,
)
    requires
        0 <= i <= j <= p.evs.len(),
        p.read(j).blocks.len() > p.read(i).blocks.len(),
        p.read(j).blocks[p.read(i).blocks.len() as int].0 == (BlockView::Pre { lines, prefix }),
    ensures
        ({
            let row = p.rows_before(i);
            &&& row + lines.len() <= p.rendered().lines.len()
            &&& forall|k: int|
                0 <= k < lines.len() ==> shows_code(
                    #[trigger] p.rendered().lines[row + k],
                    runs_text(prefix),
                    shown(lines[k]),
                )
        }),
{
    lemma_stretch(p, i, j);
    let bs = p.read(j).blocks;
    let k0 = p.read(i).blocks.len() as int;
    let w = p.cols();
    let l0 = p.laid(bs, k0).pen.lines;
    let l1 = p.laid(bs, k0 + 1).pen.lines;
    let l2 = p.laid(bs, bs.len() as int).pen.lines;
    lemma_laid_grows(p, bs, k0 + 1, bs.len() as int);
    lemma_code_prefix(l0, prefix, lines, p.theme.code_bg, w, lines.len() as int);
    lemma_laid_pre(p, bs, k0, lines, prefix);
    let row = p.rows_before(i);
    let out = p.rendered().lines;
    assert forall|k: int| 0 <= k < lines.len() implies shows_code(
        #[trigger] out[row + k],
        runs_text(prefix),
        shown(lines[k]),
    ) by {
        assert(l1[l0.len() + k] == markdown::code_line(prefix, lines[k], p.theme.code_bg, w));
        assert(l2[row + k] == l1[row + k]);
        lemma_code_line(prefix, lines[k], p.theme.code_bg, w);
    }
}

/// A code block is shown in full: behind what comes before it there is a line for each
/// line of the text between its fences, in order, which shows the bars of the open quotes,
/// two spaces, that line of the text, and then only spaces.
pub proof fn law_code_is_shown(p: Page, i: int, j: int)
    requires
        0 <= i < j < p.evs.len() <= usize::MAX,
        p.evs[i].0 matches EventView::Start(TagView::CodeBlock(_)),
        forall|k: int| i < k < j ==> (#[trigger] p.evs[k]).0 is Text,
        p.evs[j].0 == EventView::End(MdTagEnd::CodeBlock),
        colors_only(p.hl),
    ensures
        exists|ls: Seq<Seq<char>>|
            {
                let row = p.rows_before(i);
                &&& #[trigger] is_lines_of(ls, text_between(p.evs, i + 1, j))
                &&& row + ls.len() <= p.rendered().lines.len()
                &&& forall|k: int|
                    0 <= k < ls.len() ==> shows_code(
                        #[trigger] p.rendered().lines[row + k],
                        bars(quotes_open(p.evs, i)),
                        ls[k],
                    )
            },
        p.read(j + 1).runs == p.read(i).runs,
        p.read(j + 1).prefix == p.read(i).prefix,
{
    lemma_code_read(p, i, j);
    lemma_read_grows(p, i, j);
    lemma_quotes(p, i);
    let b = p.read(j);
    lemma_code_end(b, p.evs[j].1);
    lemma_quote_text(b);
    let code = b.code;
    let lines = p.hl.highlighted(code, b.code_lang, p.theme.syntect_theme@);
    let start = syntax::highlighter_start(
        p.hl.language(code, b.code_lang),
        p.hl.theme_set(),
        p.hl.theme_name(p.theme.syntect_theme@),
    );
    let ls = lemma_code_spans(p.hl, p.hl.color_depth(), start, code, 0);
    assert(code.skip(0) =~= code);
    lemma_read_step(p, j);
    lemma_pre_shown(p, i, j + 1, lines, b.quote_prefix());
    assert(is_lines_of(ls, text_between(p.evs, i + 1, j)));
}

proof fn lemma_content_width(line: Seq<style::SpanView>, n: int)
    requires
        0 <= n <= line.len(),
        forall|k: int| 0 <= k < line.len() ==> text::is_printable((#[trigger] line[k]).content),
        shown(line.take(n)).len() <= usize::MAX,
    ensures
        markdown::content_width(line, n) == shown(line.take(n)).len(),
    decreases n,
{
    if n > 0 {
        lemma_shown_push(line.take(n - 1), line[n - 1]);
        assert(line.take(n - 1).push(line[n - 1]) =~= line.take(n));
        lemma_content_width(line, n - 1);
        assert(text::is_printable(line[n - 1].content));
        reveal(text::display_width);
    } else {
        assert(line.take(0) =~= Seq::empty());
        assert(shown(line.take(0)) =~= Seq::<char>::empty());
    }
}

/// A line of code fills its row: what the code leaves free, up to the width, is spaces. The
/// code is printable ASCII here and stands in no quote.
pub proof fn law_code_fills_its_row(
    line: Seq<style::SpanView>,
    bg: Option<style::Color>,
    width: usize,
)
    requires
        forall|k: int| 0 <= k < line.len() ==> text::is_printable((#[trigger] line[k]).content),
        shown(line).len() + 2 <= usize::MAX,
    ensures
        ({
            let t = shown(markdown::code_line(Seq::empty(), line, bg, width));
            let n = shown(line).len() + 2;
            t.len() == if n < width {
                width as nat
            } else {
                n
            }
        }),
{
    let none = Seq::<wrap::RunView>::empty();
    let n = line.len() as int;
    assert(line.take(n) =~= line);
    lemma_content_width(line, n);
    lemma_code_line_spans(none, line, bg, n);
    assert(none.map_values(|r: wrap::RunView| r.text) =~= Seq::empty());
    assert(runs_text(none) =~= Seq::<char>::empty());
    let spans = markdown::code_line_spans(none, line, bg, n);
    let r = markdown::code_line(none, line, bg, width);
    assert(text::display_width("  "@) == 2) by {
        reveal_strlit("  ");
        reveal(text::display_width);
    }
    if r.len() > spans.len() {
        lemma_shown_push(spans, r.last());
    }
}

} // verus!
