//! What a rendered document has from its source.

use vstd::prelude::*;
use vstd::utf8::*;
use crate::app;
use crate::app::WriteCause;
use crate::browser;
use crate::bytes;
use crate::editor;
use crate::keys::KeyInput;
use crate::laws_layout;
use crate::links;
use crate::markdown;
use crate::parse;
use crate::paths;
use crate::pointer;
use crate::pointer::{MouseInput, MouseKind};
use crate::raw;
use crate::reader;
use crate::reader::{FileMeta, Focus};
use crate::syntax::Highlighter;
use crate::table;
use crate::text;
use crate::theme::Theme;
use crate::views;
use crate::wrap::PendingCheckbox;

verus! {

broadcast use crate::views::group_views;

// ---------------------------------------------------------------------------
// Marks come from events
// ---------------------------------------------------------------------------

/// Whether a target is that of a link among the first `n` events.
pub open spec fn is_linked(
    evs: Seq<(parse::EventView, usize)>,
    base: Option<Seq<char>>,
    n: int,
    t: links::TargetView,
) -> bool {
    exists|i: int|
        0 <= i < n && ((#[trigger] evs[i]).0 matches parse::EventView::Start(
            parse::TagView::Link(dest),
        ) && links::resolved(dest, base) == t)
}

/// Whether a task marker is among the first `n` events.
pub open spec fn is_marked(
    evs: Seq<(parse::EventView, usize)>,
    n: int,
    offset: usize,
    checked: bool,
) -> bool {
    exists|i: int|
        0 <= i < n && (#[trigger] evs[i]) == (parse::EventView::TaskListMarker(checked), offset)
}

/// Whether an image is among the first `n` events.
pub open spec fn is_embedded(
    evs: Seq<(parse::EventView, usize)>,
    base: Option<Seq<char>>,
    n: int,
    source: Seq<char>,
) -> bool {
    exists|i: int|
        0 <= i < n && ((#[trigger] evs[i]).0 matches parse::EventView::Start(
            parse::TagView::Image(dest, _),
        ) && source == (match base {
            Some(b) => paths::joined(b, dest),
            None => dest,
        }))
}

/// What one event adds to the marks of a document.
proof fn lemma_event(b: markdown::BuilderView, ev: parse::EventView, offset: usize)
    ensures
        ({
            let a = b.event(ev, offset);
            &&& a.base_dir == b.base_dir
            &&& a.targets == (match ev {
                parse::EventView::Start(parse::TagView::Link(dest)) => b.targets.push(
                    links::resolved(dest, b.base_dir),
                ),
                _ => b.targets,
            })
            &&& a.boxes == (match ev {
                parse::EventView::TaskListMarker(checked) => b.boxes.push(
                    PendingCheckbox { source_offset: offset, checked },
                ),
                _ => b.boxes,
            })
            &&& a.images == (match ev {
                parse::EventView::Start(parse::TagView::Image(dest, _)) => b.images.push(
                    match b.base_dir {
                        Some(d) => paths::joined(d, dest),
                        None => dest,
                    },
                ),
                _ => b.images,
            })
        }),
{
}

/// The marks of a builder come from the first `n` events.
spec fn drawn_from(
    b: markdown::BuilderView,
    evs: Seq<(parse::EventView, usize)>,
    base: Option<Seq<char>>,
    n: int,
) -> bool {
    &&& b.base_dir == base
    &&& forall|k: int| 0 <= k < b.targets.len() ==> is_linked(evs, base, n, #[trigger] b.targets[k])
    &&& forall|k: int|
        0 <= k < b.boxes.len() ==> is_marked(
            evs,
            n,
            (#[trigger] b.boxes[k]).source_offset,
            b.boxes[k].checked,
        )
    &&& forall|k: int| 0 <= k < b.images.len() ==> is_embedded(evs, base, n, #[trigger] b.images[k])
}

proof fn lemma_events(
    start: markdown::BuilderView,
    evs: Seq<(parse::EventView, usize)>,
    base: Option<Seq<char>>,
    n: int,
)
    requires
        0 <= n <= evs.len(),
        start.base_dir == base,
        start.targets.len() == 0,
        start.boxes.len() == 0,
        start.images.len() == 0,
    ensures
        drawn_from(start.events(evs, n), evs, base, n),
    decreases n,
{
    if n > 0 {
        lemma_events(start, evs, base, n - 1);
        let b = start.events(evs, n - 1);
        let a = start.events(evs, n);
        let (ev, offset) = evs[n - 1];
        lemma_event(b, ev, offset);
        assert forall|k: int| 0 <= k < a.targets.len() implies is_linked(
            evs,
            base,
            n,
            #[trigger] a.targets[k],
        ) by {
            if k < b.targets.len() {
                assert(a.targets[k] == b.targets[k]);
                assert(is_linked(evs, base, n - 1, b.targets[k]));
            } else {
                assert(evs[n - 1].0 is Start);
            }
        }
        assert forall|k: int| 0 <= k < a.boxes.len() implies is_marked(
            evs,
            n,
            (#[trigger] a.boxes[k]).source_offset,
            a.boxes[k].checked,
        ) by {
            if k < b.boxes.len() {
                assert(a.boxes[k] == b.boxes[k]);
                assert(is_marked(evs, n - 1, b.boxes[k].source_offset, b.boxes[k].checked));
            } else {
                assert(evs[n - 1] == (ev, offset));
            }
        }
        assert forall|k: int| 0 <= k < a.images.len() implies is_embedded(
            evs,
            base,
            n,
            #[trigger] a.images[k],
        ) by {
            if k < b.images.len() {
                assert(a.images[k] == b.images[k]);
                assert(is_embedded(evs, base, n - 1, b.images[k]));
            } else {
                assert(evs[n - 1].0 is Start);
            }
        }
    }
}

/// Every link of a rendered document leads where the destination of a link in its
/// events resolves, every task marker is one of its events with the offset and
/// the state that the event has, and every image is one of its images.
pub proof fn law_marks_come_from_events(
    evs: Seq<(parse::EventView, usize)>,
    base: Option<Seq<char>>,
    width: u16,
    theme: Theme,
    hl: Highlighter,
    cursor: Option<usize>,
)
    ensures
        ({
            let rd = markdown::rendered(evs, base, width, theme, hl, cursor);
            let n = evs.len() as int;
            &&& forall|k: int|
                0 <= k < rd.links.len() ==> is_linked(evs, base, n, (#[trigger] rd.links[k]).target)
            &&& forall|k: int|
                0 <= k < rd.boxes.len() ==> is_marked(
                    evs,
                    n,
                    (#[trigger] rd.boxes[k]).source_offset,
                    rd.boxes[k].checked,
                )
            &&& forall|k: int|
                0 <= k < rd.images.len() ==> is_embedded(
                    evs,
                    base,
                    n,
                    (#[trigger] rd.images[k]).source,
                )
        }),
{
    let n = evs.len() as int;
    let start = markdown::builder_start(theme, hl, base);
    lemma_events(start, evs, base, n);
    let read = start.events(evs, n);
    let b = read.finish_paragraph();
    assert(b.targets == read.targets && b.boxes == read.boxes && b.images == read.images);
    let w: usize = if width == 0 {
        80
    } else {
        width as usize
    };
    let rd = markdown::rendered(evs, base, width, theme, hl, cursor);
    laws_layout::law_layout_points_at_its_lines(
        theme,
        w,
        b.blocks,
        b.targets,
        b.boxes,
        b.images,
        cursor,
    );
    assert forall|k: int| 0 <= k < rd.links.len() implies is_linked(
        evs,
        base,
        n,
        (#[trigger] rd.links[k]).target,
    ) by {
        assert(laws_layout::link_ok(rd.links[k], b.targets, rd.lines.len()));
        let j = choose|j: int| 0 <= j < b.targets.len() && b.targets[j] == rd.links[k].target;
        assert(is_linked(evs, base, n, b.targets[j]));
    }
    assert forall|k: int| 0 <= k < rd.boxes.len() implies is_marked(
        evs,
        n,
        (#[trigger] rd.boxes[k]).source_offset,
        rd.boxes[k].checked,
    ) by {
        assert(laws_layout::box_ok(rd.boxes[k], b.boxes, rd.lines.len()));
        let p = PendingCheckbox {
            source_offset: rd.boxes[k].source_offset,
            checked: rd.boxes[k].checked,
        };
        let j = choose|j: int| 0 <= j < b.boxes.len() && b.boxes[j] == p;
        assert(is_marked(evs, n, b.boxes[j].source_offset, b.boxes[j].checked));
    }
    let l = markdown::layout_start(b.images.len()).blocks(
        b.blocks,
        theme,
        w,
        b.targets,
        b.boxes,
        cursor,
        b.blocks.len() as int,
    );
    lemma_images(b.images, l.pen.image_lines, b.images.len() as int);
    assert forall|k: int| 0 <= k < rd.images.len() implies is_embedded(
        evs,
        base,
        n,
        (#[trigger] rd.images[k]).source,
    ) by {
        assert(b.images.contains(rd.images[k].source));
        let j = choose|j: int| 0 <= j < b.images.len() && b.images[j] == rd.images[k].source;
        assert(is_embedded(evs, base, n, b.images[j]));
    }
}

proof fn lemma_images(images: Seq<Seq<char>>, lines: Seq<Option<usize>>, n: int)
    requires
        n <= images.len(),
    ensures
        forall|k: int|
            0 <= k < markdown::placed_images(images, lines, n).len() ==> images.contains(
                (#[trigger] markdown::placed_images(images, lines, n)[k]).source,
            ),
    decreases n,
{
    if n > 0 {
        lemma_images(images, lines, n - 1);
        let before = markdown::placed_images(images, lines, n - 1);
        let all = markdown::placed_images(images, lines, n);
        assert forall|k: int| 0 <= k < all.len() implies images.contains(
            (#[trigger] all[k]).source,
        ) by {
            if k < before.len() {
                assert(all[k] == before[k]);
            } else {
                assert(all[k].source == images[n - 1]);
            }
        }
    }
}

// ---------------------------------------------------------------------------
// Task markers of a document
// ---------------------------------------------------------------------------

proof fn lemma_scalar_bytes(c: char, j: int)
    requires
        0 <= j < encode_scalar(c as u32).len(),
        encode_scalar(c as u32)[j] < 0x80,
    ensures
        j == 0,
        c <= '\u{7f}',
        encode_scalar(c as u32)[j] as u32 == c as u32,
{
    let v = c as u32;
    if v <= 0x7f {
        assert((v & 0x7f) as u8 as u32 == v) by (bit_vector)
            requires
                v <= 0x7f,
        ;
    } else {
        assert(0xC0 | ((v >> 6) & 0x1F) as u8 >= 0x80u8) by (bit_vector);
        assert(0xE0 | ((v >> 12) & 0x0F) as u8 >= 0x80u8) by (bit_vector);
        assert(0xF0 | ((v >> 18) & 0x7) as u8 >= 0x80u8) by (bit_vector);
        assert(0x80 | (v & 0x3F) as u8 >= 0x80u8) by (bit_vector);
        assert(0x80 | ((v >> 6) & 0x3F) as u8 >= 0x80u8) by (bit_vector);
        assert(0x80 | ((v >> 12) & 0x3F) as u8 >= 0x80u8) by (bit_vector);
    }
}

/// An ASCII byte of a text is a character of its own.
proof fn lemma_ascii_byte(t: Seq<char>, k: int)
    requires
        0 <= k < encode_utf8(t).len(),
        encode_utf8(t)[k] < 0x80,
    ensures
        ({
            let a = bytes::floor_index(t, k);
            &&& 0 <= a < t.len()
            &&& bytes::byte_pos(t, a) == k
            &&& bytes::byte_pos(t, a + 1) == k + 1
            &&& t[a] as u32 == encode_utf8(t)[k] as u32
        }),
{
    let a = bytes::floor_index(t, k);
    bytes::lemma_floor_index(t, k);
    bytes::lemma_byte_pos_ends(t);
    let rest = t.skip(a);
    assert(t =~= t.take(a) + rest);
    text::lemma_encode_concat(t.take(a), rest);
    assert(rest.len() > 0);
    let first = encode_scalar(t[a] as u32);
    bytes::lemma_byte_pos_step(t, a);
    let j = k - bytes::byte_pos(t, a);
    assert(encode_utf8(rest) == first + encode_utf8(rest.drop_first()));
    assert(encode_utf8(t)[k] == encode_utf8(rest)[j]);
    assert(encode_utf8(rest)[j] == first[j]);
    lemma_scalar_bytes(t[a], j);
    bytes::lemma_utf8_width(t[a]);
}

/// The marker that a task gets.
pub open spec fn marker(checked: bool) -> Seq<char> {
    if checked {
        "[x]"@
    } else {
        "[ ]"@
    }
}

proof fn lemma_marker(t: Seq<char>, k: usize)
    requires
        parse::marked_at(encode_utf8(t), k as int),
    ensures
        ({
            let a = bytes::floor_index(t, k as int);
            &&& 0 <= a
            &&& a + 3 <= t.len()
            &&& bytes::byte_pos(t, a) == k
            &&& bytes::byte_pos(t, a + 3) == k + 3
            &&& bytes::floor_index(t, k + 3) == a + 3
            &&& t[a] == '['
            &&& t[a + 2] == ']'
        }),
{
    reveal(parse::marked_at);
    let b = encode_utf8(t);
    let a = bytes::floor_index(t, k as int);
    lemma_ascii_byte(t, k as int);
    lemma_ascii_byte(t, k + 1);
    lemma_ascii_byte(t, k + 2);
    bytes::lemma_floor_of_pos(t, a + 1);
    assert(bytes::floor_index(t, k + 1) == a + 1);
    bytes::lemma_floor_of_pos(t, a + 2);
    assert(bytes::floor_index(t, k + 2) == a + 2);
    bytes::lemma_floor_of_pos(t, a + 3);
    char_u32_cast(t[a], '[' as u32);
    char_u32_cast('[', '[' as u32);
    char_u32_cast(t[a + 2], ']' as u32);
    char_u32_cast(']', ']' as u32);
}

/// Flipping a task marker of a source puts the marker that is opposite to the one shown
/// in its place and leaves everything else as it is.
pub proof fn law_marker_flips(t: Seq<char>, k: usize, checked: bool)
    requires
        parse::marked_at(encode_utf8(t), k as int),
    ensures
        ({
            let a = bytes::floor_index(t, k as int);
            let u = app::toggled(t, k, checked);
            &&& bytes::byte_pos(t, a) == k
            &&& u == Some(t.take(a) + marker(!checked) + t.skip(a + 3))
            &&& u->0.len() == t.len()
            &&& encode_utf8(u->0).len() == encode_utf8(t).len()
            &&& parse::marker_at(encode_utf8(u->0), k as int, !checked)
            &&& forall|j: int|
                0 <= j < encode_utf8(t).len() && !(k <= j < k + 3) ==> #[trigger] encode_utf8(
                    u->0,
                )[j] == encode_utf8(t)[j]
        }),
{
    reveal_strlit("[x]");
    reveal_strlit("[ ]");
    lemma_marker(t, k);
    let a = bytes::floor_index(t, k as int);
    let m = marker(!checked);
    let u = t.take(a) + m + t.skip(a + 3);
    assert(editor::replaced(t, a, a + 3, m) =~= u);
    bytes::lemma_byte_pos_ends(t);
    bytes::lemma_byte_pos_monotone(t, a + 3, t.len() as int);
    assert(app::toggled(t, k, checked) == Some(u));
    text::lemma_encode_concat(t.take(a), m + t.skip(a + 3));
    text::lemma_encode_concat(m, t.skip(a + 3));
    assert(u =~= t.take(a) + (m + t.skip(a + 3)));
    assert(t =~= t.take(a + 3) + t.skip(a + 3));
    text::lemma_encode_concat(t.take(a + 3), t.skip(a + 3));
    assert(t.take(a + 3) =~= t.take(a) + t.subrange(a, a + 3));
    text::lemma_encode_concat(t.take(a), t.subrange(a, a + 3));
    lemma_marker_bytes(!checked);
    let e = encode_utf8(u);
    assert(encode_utf8(t.take(a)).len() == k);
    assert(e[k as int] == encode_utf8(m)[0]);
    assert(e[k + 1] == encode_utf8(m)[1]);
    assert(e[k + 2] == encode_utf8(m)[2]);
}

proof fn lemma_marker_bytes(checked: bool)
    ensures
        encode_utf8(marker(checked)) == seq![
            0x5bu8,
            if checked {
                0x78u8
            } else {
                0x20u8
            },
            0x5du8,
        ],
{
    reveal_strlit("[x]");
    reveal_strlit("[ ]");
    reveal_with_fuel(encode_utf8, 4);
    let m = marker(checked);
    assert(0x5bu32 & 0x7f == 0x5b) by (bit_vector);
    assert(0x5du32 & 0x7f == 0x5d) by (bit_vector);
    assert(0x78u32 & 0x7f == 0x78) by (bit_vector);
    assert(0x20u32 & 0x7f == 0x20) by (bit_vector);
    let d = m.drop_first();
    assert(d.drop_first().drop_first() =~= Seq::<char>::empty());
    assert(encode_utf8(m) =~= encode_scalar(m[0] as u32) + encode_scalar(m[1] as u32)
        + encode_scalar(m[2] as u32));
}

/// A click on a task marker of a file rewrites the file with that marker flipped and
/// nothing else changed; the next rendering finds the other marker there. Text from
/// standard input is left alone.
pub proof fn law_task_is_flipped_in_the_file(m: app::Model, idx: usize)
    requires
        m.marks_stand(),
        m.doc() is Some,
        m.doc()->0.rendered is Some,
        idx < m.doc()->0.rendered->0.boxes.len(),
    ensures
        ({
            let r = m.doc()->0;
            let c = r.rendered->0.boxes[idx as int];
            let a = bytes::floor_index(r.raw, c.source_offset as int);
            let raw = r.raw.take(a) + marker(!c.checked) + r.raw.skip(a + 3);
            let (after, e) = m.toggle(idx);
            &&& bytes::byte_pos(r.raw, a) == c.source_offset
            &&& raw.len() == r.raw.len()
            &&& parse::marker_at(encode_utf8(raw), c.source_offset as int, !c.checked)
            &&& r.origin matches reader::OriginModel::File(p) ==> {
                let cause = WriteCause::Toggle { was_checked: c.checked };
                &&& after.doc() == Some(reader::ReaderModel { raw, ..r })
                &&& e == (app::EffectModel::WriteFile { path: p, text: raw, cause })
            }
            &&& r.origin is Stdin ==> m.toggle(idx) == (m, app::EffectModel::Nothing)
        }),
{
    let r = m.doc()->0;
    let c = r.rendered->0.boxes[idx as int];
    law_marker_flips(r.raw, c.source_offset, c.checked);
}

// ---------------------------------------------------------------------------
// Rows of source text
// ---------------------------------------------------------------------------

/// Whether `t` is the part of `src` that begins at byte `offset`.
pub open spec fn is_part(src: Seq<char>, t: Seq<char>, offset: usize) -> bool {
    exists|a: int|
        0 <= a && a + t.len() <= src.len() && t == src.subrange(a, a + t.len()) && offset
            == #[trigger] bytes::byte_pos(src, a)
}

/// Whether each piece of source text among the events is a part of `src`.
pub open spec fn sources_stand(evs: Seq<(parse::EventView, usize)>, src: Seq<char>) -> bool {
    forall|i: int|
        0 <= i < evs.len() ==> ((#[trigger] evs[i]).0 matches parse::EventView::Source(t)
            ==> is_part(src, t, evs[i].1))
}

spec fn raws_stand(blocks: Seq<(markdown::BlockView, usize)>, src: Seq<char>) -> bool {
    forall|k: int|
        0 <= k < blocks.len() ==> ((#[trigger] blocks[k]).0 matches markdown::BlockView::Raw {
            text,
            offset,
        } ==> is_part(src, text, offset))
}

proof fn lemma_event_raws(
    b: markdown::BuilderView,
    ev: parse::EventView,
    offset: usize,
    src: Seq<char>,
)
    requires
        raws_stand(b.blocks, src),
        ev matches parse::EventView::Source(t) ==> is_part(src, t, offset),
    ensures
        raws_stand(b.event(ev, offset).blocks, src),
{
}

proof fn lemma_events_raws(
    start: markdown::BuilderView,
    evs: Seq<(parse::EventView, usize)>,
    src: Seq<char>,
    n: int,
)
    requires
        0 <= n <= evs.len(),
        start.blocks.len() == 0,
        sources_stand(evs, src),
    ensures
        raws_stand(start.events(evs, n).blocks, src),
    decreases n,
{
    if n > 0 {
        lemma_events_raws(start, evs, src, n - 1);
        lemma_event_raws(start.events(evs, n - 1), evs[n - 1].0, evs[n - 1].1, src);
    }
}

proof fn lemma_rows_from(t: Seq<char>, width: int, i: int)
    requires
        0 <= i <= t.len(),
    ensures
        forall|k: int|
            0 <= k < raw::rows_from(t, width, i).len() ==> ({
                let row = #[trigger] raw::rows_from(t, width, i)[k];
                exists|x: int, y: int|
                    0 <= x <= y <= t.len() && row.start == #[trigger] bytes::byte_pos(t, x)
                        && row.end == #[trigger] bytes::byte_pos(t, y)
            }),
    decreases t.len() - i,
{
    raw::lemma_row_end(t, i, i, 0, width);
    let e = raw::row_end(t, i, i, 0, width);
    let rows = raw::rows_from(t, width, i);
    assert(rows[0].start == bytes::byte_pos(t, i) && rows[0].end == bytes::byte_pos(t, e));
    if e < t.len() {
        let next = raw::row_next(t, e);
        lemma_rows_from(t, width, next);
        let more = raw::rows_from(t, width, next);
        assert forall|k: int| 0 <= k < rows.len() implies ({
            let row = #[trigger] rows[k];
            exists|x: int, y: int|
                0 <= x <= y <= t.len() && row.start == #[trigger] bytes::byte_pos(t, x) && row.end
                    == #[trigger] bytes::byte_pos(t, y)
        }) by {
            if k > 0 {
                assert(rows[k] == more[k - 1]);
            }
        }
    }
}

proof fn lemma_raw_rows(
    l: markdown::LayoutView,
    t: Seq<char>,
    offset: usize,
    width: usize,
    cursor: Option<usize>,
    src: Seq<char>,
)
    requires
        markdown::rows_stand(l.row_source, src),
        is_part(src, t, offset),
        bytes::byte_count(src) <= usize::MAX,
    ensures
        markdown::rows_stand(l.raw(t, offset, width, cursor).row_source, src),
{
    let a = choose|a: int|
        0 <= a && a + t.len() <= src.len() && t == src.subrange(a, a + t.len()) && offset
            == #[trigger] bytes::byte_pos(src, a);
    let w = table::max(width, 1) as int;
    let rows = raw::raw_rows(t, w);
    lemma_rows_from(t, w, 0);
    let base = markdown::filled(l.row_source, l.pen.lines.len() as int);
    let out = l.raw(t, offset, width, cursor).row_source;
    assert forall|i: int| 0 <= i < out.len() implies ((#[trigger] out[i]) matches Some((from, to))
        ==> editor::is_stretch(src, from, to)) by {
        if i < l.row_source.len() {
            assert(out[i] == l.row_source[i]);
        } else if i >= base.len() {
            let row = rows[i - base.len()];
            let (x, y) = choose|x: int, y: int|
                0 <= x <= y <= t.len() && row.start == #[trigger] bytes::byte_pos(t, x) && row.end
                    == #[trigger] bytes::byte_pos(t, y);
            lemma_part_pos(src, t, a, x);
            lemma_part_pos(src, t, a, y);
            bytes::lemma_byte_pos_monotone(src, a + x, a + y);
            bytes::lemma_byte_pos_monotone(src, a + y, src.len() as int);
            bytes::lemma_byte_pos_ends(src);
            bytes::lemma_floor_of_pos(src, a + x);
            bytes::lemma_floor_of_pos(src, a + y);
        }
    }
}

proof fn lemma_part_pos(src: Seq<char>, t: Seq<char>, a: int, x: int)
    requires
        0 <= a,
        a + t.len() <= src.len(),
        t == src.subrange(a, a + t.len()),
        0 <= x <= t.len(),
    ensures
        bytes::byte_pos(src, a + x) == bytes::byte_pos(src, a) + bytes::byte_pos(t, x),
{
    bytes::lemma_byte_pos_split(src, a, a + x);
    assert(src.subrange(a, a + x) =~= t.take(x));
}

proof fn lemma_blocks_rows(
    l: markdown::LayoutView,
    bs: Seq<(markdown::BlockView, usize)>,
    theme: Theme,
    width: usize,
    targets: Seq<links::TargetView>,
    boxes: Seq<PendingCheckbox>,
    cursor: Option<usize>,
    src: Seq<char>,
    n: int,
)
    requires
        0 <= n <= bs.len(),
        raws_stand(bs, src),
        markdown::rows_stand(l.row_source, src),
        bytes::byte_count(src) <= usize::MAX,
    ensures
        markdown::rows_stand(
            l.blocks(bs, theme, width, targets, boxes, cursor, n).row_source,
            src,
        ),
    decreases n,
{
    if n > 0 {
        lemma_blocks_rows(l, bs, theme, width, targets, boxes, cursor, src, n - 1);
        let m = l.blocks(bs, theme, width, targets, boxes, cursor, n - 1);
        match bs[n - 1].0 {
            markdown::BlockView::Raw { text, offset } => {
                lemma_raw_rows(m, text, offset, width, cursor, src);
            },
            _ => {},
        }
    }
}

/// The rows of a rendered document that show source text show stretches of its
/// source.
pub proof fn law_rows_show_the_source(
    evs: Seq<(parse::EventView, usize)>,
    base: Option<Seq<char>>,
    width: u16,
    theme: Theme,
    hl: Highlighter,
    cursor: Option<usize>,
    src: Seq<char>,
)
    requires
        sources_stand(evs, src),
        bytes::byte_count(src) <= usize::MAX,
    ensures
        markdown::rows_stand(
            markdown::rendered(evs, base, width, theme, hl, cursor).row_source,
            src,
        ),
{
    let n = evs.len() as int;
    let start = markdown::builder_start(theme, hl, base);
    lemma_events_raws(start, evs, src, n);
    let b = start.events(evs, n).finish_paragraph();
    let w: usize = if width == 0 {
        80
    } else {
        width as usize
    };
    assert(raws_stand(b.blocks, src));
    lemma_blocks_rows(
        markdown::layout_start(b.images.len()),
        b.blocks,
        theme,
        w,
        b.targets,
        b.boxes,
        cursor,
        src,
        b.blocks.len() as int,
    );
}

/// Showing the construct under the cursor as source text shows a part of the source.
pub proof fn lemma_with_source(
    evs: Seq<(parse::EventView, usize)>,
    src: Seq<char>,
    cursor: usize,
)
    requires
        parse::without_source(evs),
        bytes::byte_count(src) <= usize::MAX,
    ensures
        sources_stand(markdown::with_source(evs, src, cursor), src),
{
    bytes::lemma_byte_pos_ends(src);
    assert(src.subrange(0, src.len() as int) =~= src);
    assert(is_part(src, src, 0));
    let out = markdown::with_source(evs, src, cursor);
    assert forall|i: int| 0 <= i < out.len() implies ((
    #[trigger] out[i]).0 matches parse::EventView::Source(t) ==> is_part(src, t, out[i].1)) by {
        match out[i].0 {
            parse::EventView::Source(t) => {
                lemma_source_part(evs, src, cursor, i);
            },
            _ => {},
        }
    }
}

proof fn lemma_source_part(
    evs: Seq<(parse::EventView, usize)>,
    src: Seq<char>,
    cursor: usize,
    i: int,
)
    requires
        parse::without_source(evs),
        bytes::byte_count(src) <= usize::MAX,
        0 <= i < markdown::with_source(evs, src, cursor).len(),
        markdown::with_source(evs, src, cursor)[i].0 is Source,
    ensures
        ({
            let e = markdown::with_source(evs, src, cursor)[i];
            is_part(src, e.0->Source_0, e.1)
        }),
{
    let out = markdown::with_source(evs, src, cursor);
    let scan = markdown::Scan { depth: 0, first: None, at: None, next: None }.steps(
        evs,
        cursor,
        evs.len() as int,
    );
    bytes::lemma_byte_pos_ends(src);
    match scan.at {
        Some(x) if x < evs.len() => {
            let begins = if scan.first == Some(x) {
                0
            } else {
                evs[x as int].1 as int
            };
            let a = bytes::floor_index(src, begins);
            bytes::lemma_floor_index(src, begins);
            bytes::lemma_floor_of_pos(src, a);
            let from = bytes::byte_pos(src, a);
            let (to, rest) = match scan.next {
                Some(b) if b < evs.len() => (evs[b as int].1 as int, evs.skip(b as int)),
                _ => (bytes::byte_count(src), Seq::empty()),
            };
            bytes::lemma_floor_index(src, to);
            bytes::lemma_byte_pos_monotone(src, a, src.len() as int);
            let keep = evs.take(
                if scan.first == Some(x) {
                    0
                } else {
                    x as int
                },
            );
            let t = markdown::text_between(src, from, to);
            let b = bytes::floor_index(src, to);
            assert(out == keep.push((parse::EventView::Source(t), from as usize)) + rest);
            if i < keep.len() {
                assert(out[i] == evs[i]);
            } else if i > keep.len() {
                assert(out[i] == rest[i - keep.len() - 1]);
            } else {
                assert(out[i] == (parse::EventView::Source(t), from as usize));
                if a <= b {
                    assert(t == src.subrange(a, a + t.len()));
                } else {
                    assert(t =~= src.subrange(a, a));
                }
                assert(from == bytes::byte_pos(src, a));
            }
        },
        _ => {
            assert(src.subrange(0, src.len() as int) =~= src);
            assert(out[i].1 == bytes::byte_pos(src, 0));
        },
    }
}

// ---------------------------------------------------------------------------
// What every event keeps
// ---------------------------------------------------------------------------

proof fn lemma_edit_keyed(r: reader::ReaderModel, k: KeyInput)
    requires
        r.marks_stand(),
    ensures
        r.after_edit_key(k).marks_stand(),
        r.edit_calmed().marks_stand(),
        r.discard_armed().marks_stand(),
{
}

/// A flipped marker leaves each byte position where it was.
proof fn lemma_flip_positions(t: Seq<char>, a: int, checked: bool, i: int)
    requires
        0 <= a,
        a + 3 <= t.len(),
        bytes::byte_pos(t, a + 3) == bytes::byte_pos(t, a) + 3,
        0 <= i <= t.len(),
    ensures
        bytes::byte_pos(t.take(a) + marker(checked) + t.skip(a + 3), i) == bytes::byte_pos(t, i),
{
    reveal_strlit("[x]");
    reveal_strlit("[ ]");
    let u = t.take(a) + marker(checked) + t.skip(a + 3);
    bytes::lemma_byte_pos_step(t, a);
    bytes::lemma_byte_pos_step(t, a + 1);
    bytes::lemma_byte_pos_step(t, a + 2);
    bytes::lemma_utf8_width(t[a]);
    bytes::lemma_utf8_width(t[a + 1]);
    bytes::lemma_utf8_width(t[a + 2]);
    assert(u.take(a) =~= t.take(a));
    assert(bytes::byte_pos(u, a) == bytes::byte_pos(t, a));
    bytes::lemma_byte_pos_step(u, a);
    bytes::lemma_byte_pos_step(u, a + 1);
    bytes::lemma_byte_pos_step(u, a + 2);
    bytes::lemma_utf8_width(u[a]);
    bytes::lemma_utf8_width(u[a + 1]);
    bytes::lemma_utf8_width(u[a + 2]);
    if i <= a {
        assert(u.take(i) =~= t.take(i));
    } else if i >= a + 3 {
        bytes::lemma_byte_pos_split(t, a + 3, i);
        bytes::lemma_byte_pos_split(u, a + 3, i);
        assert(u.subrange(a + 3, i) =~= t.subrange(a + 3, i));
    }
}

/// A stretch of a text is one after a marker was flipped, too.
proof fn lemma_flip_stretch(t: Seq<char>, a: int, checked: bool, from: usize, to: usize)
    requires
        0 <= a,
        a + 3 <= t.len(),
        bytes::byte_pos(t, a + 3) == bytes::byte_pos(t, a) + 3,
        editor::is_stretch(t, from, to),
    ensures
        editor::is_stretch(t.take(a) + marker(checked) + t.skip(a + 3), from, to),
{
    reveal_strlit("[x]");
    reveal_strlit("[ ]");
    let u = t.take(a) + marker(checked) + t.skip(a + 3);
    bytes::lemma_floor_index(t, from as int);
    bytes::lemma_floor_index(t, to as int);
    let x = bytes::floor_index(t, from as int);
    let y = bytes::floor_index(t, to as int);
    lemma_flip_positions(t, a, checked, x);
    lemma_flip_positions(t, a, checked, y);
    bytes::lemma_floor_of_pos(u, x);
    bytes::lemma_floor_of_pos(u, y);
}

proof fn lemma_toggle(m: app::Model, idx: usize)
    requires
        m.marks_stand(),
    ensures
        m.toggle(idx).0.marks_stand(),
{
    let after = m.toggle(idx).0;
    if m.toggle(idx).1 is WriteFile {
        let r = m.doc()->0;
        let rd = r.rendered->0;
        let c = rd.boxes[idx as int];
        let k = c.source_offset;
        law_marker_flips(r.raw, k, c.checked);
        lemma_marker(r.raw, k);
        let a = bytes::floor_index(r.raw, k as int);
        let u = after.doc()->0.raw;
        let eb = encode_utf8(r.raw);
        let ea = encode_utf8(u);
        assert forall|i: int| 0 <= i < rd.boxes.len() implies parse::marked_at(
            ea,
            (#[trigger] rd.boxes[i]).source_offset as int,
        ) by {
            reveal(parse::marked_at);
            let j = rd.boxes[i].source_offset as int;
            assert(parse::marked_at(eb, j));
            assert(parse::marked_at(eb, k as int));
            if j != k {
                assert(!(k - 2 <= j < k + 3));
                assert(ea[j] == eb[j] && ea[j + 1] == eb[j + 1] && ea[j + 2] == eb[j + 2]);
            }
        }
        assert forall|i: int| 0 <= i < rd.row_source.len() implies ((
        #[trigger] rd.row_source[i]) matches Some((from, to)) ==> editor::is_stretch(
            u,
            from,
            to,
        )) by {
            match rd.row_source[i] {
                Some((from, to)) => lemma_flip_stretch(r.raw, a, !c.checked, from, to),
                None => {},
            }
        }
    }
}

proof fn lemma_follow(m: app::Model, t: links::TargetView)
    requires
        m.marks_stand(),
    ensures
        m.follow(t).0.marks_stand(),
{
}

proof fn lemma_motion(m: app::Model, k: KeyInput, now: u64)
    requires
        m.marks_stand(),
    ensures
        m.motion(k, now) matches Some(after) ==> after.marks_stand(),
{
}

proof fn lemma_activated(m: app::Model)
    requires
        m.marks_stand(),
    ensures
        m.activated().0.marks_stand(),
{
    if m.focused_target() is Some {
        lemma_follow(m, m.focused_target()->0);
    }
    match m.doc() {
        Some(r) => match r.focus {
            Some(Focus::Checkbox(i)) => {
                lemma_toggle(m, i);
                assert(m.activated() == m.toggle(i));
            },
            _ => {},
        },
        None => {},
    }
}

proof fn lemma_walked(m: app::Model)
    requires
        m.marks_stand(),
    ensures
        m.back().0.marks_stand(),
        m.ahead().0.marks_stand(),
        m.selected_opened().0.marks_stand(),
        m.escaped().0.marks_stand(),
        m.focused_opened().0.marks_stand(),
        m.selected_read().0.marks_stand(),
{
}

proof fn lemma_command(m: app::Model, k: KeyInput)
    requires
        m.marks_stand(),
    ensures
        m.command(k).0.marks_stand(),
{
    lemma_walked(m);
    if k.code is Enter {
        lemma_activated(m);
        assert(m.command(k) == m.activated());
    }
}

proof fn lemma_view_key(m: app::Model, k: KeyInput, now: u64)
    requires
        m.marks_stand(),
    ensures
        m.view_key(k, now).0.marks_stand(),
{
    let plain = app::Model { pending_g: None, pending_z: None, ..m };
    lemma_motion(plain, k, now);
    lemma_command(plain, k);
}

proof fn lemma_prompts(m: app::Model, k: KeyInput)
    requires
        m.marks_stand(),
    ensures
        m.doc_search_key(k).marks_stand(),
        m.search matches Some(s) ==> m.search_key(s, k).0.marks_stand(),
{
}

proof fn lemma_edit_key(m: app::Model, k: KeyInput)
    requires
        m.marks_stand(),
    ensures
        m.doc() matches Some(r) ==> m.edit_key(r, k).0.marks_stand(),
{
    if m.doc() is Some {
        lemma_edit_keyed(m.doc()->0, k);
    }
}

proof fn lemma_open_key(m: app::Model, k: KeyInput, now: u64)
    requires
        m.marks_stand(),
    ensures
        m.open_key(k, now).0.marks_stand(),
{
    lemma_prompts(m, k);
    lemma_edit_key(m, k);
    lemma_view_key(m, k, now);
    let e = m.open_key(k, now);
    match m.search {
        Some(s) => {
            assert(e == m.search_key(s, k));
        },
        None => match m.doc() {
            Some(r) => {
                if r.doc_search is Some && r.doc_search->0.editing {
                    assert(e.0 == m.doc_search_key(k));
                } else if r.edit is Some {
                    assert(e == m.edit_key(r, k));
                } else {
                    assert(e == m.view_key(k, now));
                }
            },
            None => {
                assert(e == m.view_key(k, now));
            },
        },
    }
}

proof fn lemma_overlays(m: app::Model, k: KeyInput)
    requires
        m.marks_stand(),
    ensures
        m.calmed().marks_stand(),
        m.calmed().git_lens_toggled().0.marks_stand(),
        m.lens_key(k) matches Some(after) ==> after.doc() == m.doc(),
{
    if m.doc() is Some {
        lemma_edit_keyed(m.doc()->0, k);
    }
    let n = m.calmed();
    assert(n.git_lens_toggled().0.doc() == n.doc());
}

/// Whatever key is pressed, the task markers and the rows of source text on screen stand
/// in the text.
pub proof fn law_keys_keep_marks(m: app::Model, k: KeyInput, now: u64)
    requires
        m.marks_stand(),
    ensures
        m.key(k, now).0.marks_stand(),
{
    let n = app::Model { mouse_recent: false, ..m };
    assert(n.doc() == m.doc());
    lemma_open_key(n, k, now);
    lemma_overlays(n, k);
    let (after, e) = m.key(k, now);
    if k.is_ctrl('c') {
        assert(after.doc() == n.calmed().doc());
    } else if m.help_open {
        assert(after.doc() == n.doc());
    } else if k.is_ctrl('g') {
        assert(after == n.calmed().git_lens_toggled().0);
    } else if n.git_lens is Some && n.lens_key(k) is Some {
        assert(after == n.lens_key(k)->0);
    } else {
        assert(after == n.open_key(k, now).0);
    }
}

proof fn lemma_clicked(m: app::Model, col: u16, row: u16)
    requires
        m.marks_stand(),
    ensures
        m.clicked(col, row).0.marks_stand(),
{
    match m.view {
        app::Screen::Reader(r) => match (r.rendered, m.col_at(col)) {
            (Some(rd), Some(c)) => {
                let line = m.line_at(row);
                match views::first_where(rd.boxes, links::box_covers(line, c), 0) {
                    Some(i) => lemma_toggle(m, i as usize),
                    None => match views::first_where(rd.links, links::link_covers(line, c), 0) {
                        Some(i) => {
                            let n = m.with_doc(
                                reader::ReaderModel {
                                    focus: Some(Focus::Link(i as usize)),
                                    ..r
                                },
                            );
                            assert(n.marks_stand());
                            lemma_follow(n, rd.links[i].target);
                        },
                        None => {},
                    },
                }
            },
            _ => {},
        },
        app::Screen::Browser(_) => {},
    }
}

proof fn lemma_body_mouse(m: app::Model, i: MouseInput, now: u64)
    requires
        m.marks_stand(),
    ensures
        m.body_mouse(i, now).0.marks_stand(),
{
    match i.kind {
        MouseKind::Up(_) => {
            let n = app::Model { selection: None, pending_click: None, ..m };
            assert(n.doc() == m.doc());
            if m.pending_click is Some {
                let (col, row) = m.pending_click->0;
                lemma_clicked(n, col, row);
            }
            assert(m.released().0.marks_stand());
        },
        MouseKind::Down(_) => {
            assert(m.pressed(i.column, i.row, now).0.doc() == m.doc());
        },
        MouseKind::Drag(_) => {
            assert(m.dragged(i.column, i.row).doc() == m.doc());
        },
        MouseKind::Moved => {
            assert(m.hovered(i.column, i.row).marks_stand());
        },
        MouseKind::ScrollUp => {
            assert(m.wheeled(-pointer::NOTCH, now).marks_stand());
        },
        MouseKind::ScrollDown => {
            assert(m.wheeled(pointer::NOTCH as int, now).marks_stand());
        },
        _ => {},
    }
}

proof fn lemma_split_mouse(m: app::Model, i: MouseInput, now: u64)
    requires
        m.marks_stand(),
    ensures
        m.split_mouse(i, now).marks_stand(),
{
}

/// Whatever the mouse does, the task markers and the rows of source text on screen stand
/// in the text.
pub proof fn law_mouse_keeps_marks(m: app::Model, i: MouseInput, now: u64)
    requires
        m.marks_stand(),
    ensures
        m.mouse(i, now).0.marks_stand(),
{
    let n = match i.kind {
        MouseKind::ScrollLeft | MouseKind::ScrollRight => m,
        _ => app::Model {
            mouse_recent: true,
            last_mouse_col: i.column,
            last_mouse_row: i.row,
            ..m
        },
    };
    assert(n.doc() == m.doc());
    lemma_body_mouse(n, i, now);
    lemma_split_mouse(n, i, now);
    assert(n.back().0.marks_stand());
}

/// What comes from outside keeps the task markers and the rows of source text on screen
/// in the text: a file that was read, written or changed, a directory, the place that a
/// link leads to.
pub proof fn law_replies_keep_marks(
    m: app::Model,
    path: Seq<char>,
    raw: Seq<char>,
    meta: Option<FileMeta>,
    seen: FileMeta,
    scroll: u16,
    items: Seq<browser::ItemView>,
    selected: Option<usize>,
    anchor: Option<Seq<char>>,
    hit: Option<(Seq<char>, bool)>,
    cause: WriteCause,
)
    requires
        m.marks_stand(),
    ensures
        m.show_file(path, raw, meta, scroll).marks_stand(),
        m.show_dir(path, items, scroll, selected).marks_stand(),
        m.reloaded(seen, raw).marks_stand(),
        m.restored(raw, meta).marks_stand(),
        m.write_settled(cause, meta).marks_stand(),
        m.found(path, anchor, hit).0.marks_stand(),
{
}

} // verus!
