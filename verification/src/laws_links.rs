//! Where links lead, and which text belongs to them.

use vstd::prelude::*;
use vstd::utf8::{encode_utf8, encode_utf8_decode_utf8, encode_utf8_valid_utf8};
use crate::laws_blocks;
use crate::laws_blocks::Page;
use crate::laws_tables;
use crate::laws_view;
use crate::links;
use crate::links::TargetView;
use crate::markdown;
use crate::parse::{EventView, MdTagEnd, TagView};
use crate::paths;
use crate::style::Modifier;
use crate::text;
use crate::theme::Theme;

verus! {

// ---------------------------------------------------------------------------
// Destinations
// ---------------------------------------------------------------------------

/// Whether a text stands nowhere in another.
pub open spec fn is_without(s: Seq<char>, p: Seq<char>) -> bool {
    forall|a: Seq<char>, b: Seq<char>| s != #[trigger] (a + p + b)
}

proof fn lemma_occurs(s: Seq<char>, p: Seq<char>, k: int)
    requires
        text::occurs_at(s, p, k),
    ensures
        s == s.take(k) + p + s.skip(k + p.len()),
{
    assert(s =~= s.take(k) + s.subrange(k, k + p.len()) + s.skip(k + p.len()));
}

/// Whether a destination names a file: it holds no scheme and is no address.
pub open spec fn is_path(p: Seq<char>) -> bool {
    &&& p.len() > 0
    &&& !p.contains('#')
    &&& is_without(p, seq![':', '/', '/'])
    &&& !seq!['m', 'a', 'i', 'l', 't', 'o', ':'].is_prefix_of(p)
    &&& !seq!['t', 'e', 'l', ':'].is_prefix_of(p)
}

/// A destination with a scheme is a web address, and is kept as it is.
pub proof fn law_scheme_makes_an_address(
    scheme: Seq<char>,
    rest: Seq<char>,
    base: Option<Seq<char>>,
)
    requires
        scheme.len() > 0,
        scheme[0] != '#',
        is_without(scheme, seq![':', '/', '/']),
    ensures
        ({
            let dest = scheme + seq![':', '/', '/'] + rest;
            links::resolved(dest, base) == TargetView::Url(dest)
        }),
{
    let sep = seq![':', '/', '/'];
    let dest = scheme + sep + rest;
    reveal_strlit("://");
    assert("://"@ =~= sep);
    let n = scheme.len() as int;
    assert(dest.subrange(n, n + 3) =~= sep);
    assert(text::occurs_at(dest, sep, n));
    text::lemma_first_from(dest, sep, 0);
    assert(dest[0] == scheme[0]);
    let k = text::first_from(dest, sep, 0);
    if k == Some(0int) {
        assert(dest.subrange(0, 3)[0] == sep[0]);
        assert(dest.subrange(0, 3)[1] == sep[1]);
        assert(dest.subrange(0, 3)[2] == sep[2]);
        if n >= 3 {
            assert(text::occurs_at(scheme, sep, 0)) by {
                assert(scheme.subrange(0, 3) =~= dest.subrange(0, 3));
            }
            lemma_occurs(scheme, sep, 0);
            assert(scheme == scheme.take(0) + sep + scheme.skip(3));
        } else if n == 2 {
            assert(dest[2] == ':');
        } else {
            assert(dest[1] == ':');
        }
    }
}

proof fn lemma_path(p: Seq<char>, tail: Seq<char>)
    requires
        is_path(p),
        tail.len() == 0 || tail[0] == '#',
        is_without(p + tail, seq![':', '/', '/']),
    ensures
        ({
            let dest = p + tail;
            &&& dest.len() > 0 && dest[0] != '#'
            &&& text::first_from(dest, "://"@, 0) is None
            &&& !text::begins_with(dest, "mailto:"@)
            &&& !text::begins_with(dest, "tel:"@)
        }),
{
    let dest = p + tail;
    assert(dest[0] == p[0]);
    assert(p.contains(p[0]));
    reveal_strlit("://");
    reveal_strlit("mailto:");
    reveal_strlit("tel:");
    assert("://"@ =~= seq![':', '/', '/']);
    assert("mailto:"@ =~= seq!['m', 'a', 'i', 'l', 't', 'o', ':']);
    assert("tel:"@ =~= seq!['t', 'e', 'l', ':']);
    text::lemma_first_from(dest, "://"@, 0);
    if let Some(k) = text::first_from(dest, "://"@, 0) {
        lemma_occurs(dest, "://"@, k);
        assert(dest == dest.take(k) + seq![':', '/', '/'] + dest.skip(k + 3));
    }
    lemma_not_prefix(p, tail, "mailto:"@);
    lemma_not_prefix(p, tail, "tel:"@);
}

proof fn lemma_not_prefix(p: Seq<char>, tail: Seq<char>, w: Seq<char>)
    requires
        !w.is_prefix_of(p),
        tail.len() == 0 || tail[0] == '#',
        !w.contains('#'),
    ensures
        !text::begins_with(p + tail, w),
{
    let dest = p + tail;
    if text::begins_with(dest, w) {
        if w.len() <= p.len() {
            assert(w =~= p.subrange(0, w.len() as int));
        } else {
            let n = p.len() as int;
            assert(dest.subrange(0, w.len() as int)[n] == dest[n]);
            assert(dest[n] == tail[0]);
            assert(w.contains(w[n]));
        }
    }
}

/// A destination without a scheme is a file, taken relative to the directory of the
/// document; behind a number sign stands the heading in it.
pub proof fn law_path_leads_to_a_file(p: Seq<char>, title: Seq<char>, dir: Seq<char>)
    requires
        is_path(p),
        is_without(p + seq!['#'] + title, seq![':', '/', '/']),
    ensures
        links::resolved(p, Some(dir)) == TargetView::LocalFile(
            paths::joined(dir, links::percent_decoded(p)),
        ),
        links::resolved(p, None) == TargetView::LocalFile(links::percent_decoded(p)),
        links::resolved(p + seq!['#'] + title, Some(dir)) == TargetView::FileAnchor(
            paths::joined(dir, links::percent_decoded(p)),
            links::slug(title),
        ),
{
    let none = Seq::<char>::empty();
    assert(p + none =~= p);
    lemma_path(p, none);
    let tail = seq!['#'] + title;
    assert(p + seq!['#'] + title =~= p + tail);
    lemma_path(p, tail);
    text::lemma_first_char(p, '#', 0);
    let dest = p + tail;
    text::lemma_first_char(dest, '#', 0);
    let n = p.len() as int;
    assert(dest[n] == '#');
    if let Some(k) = text::first_char(p, '#', 0) {
        assert(p.contains(p[k]));
    }
    let k = text::first_char(dest, '#', 0)->0;
    if k < n {
        assert(dest[k] == p[k]);
        assert(p.contains(p[k]));
    }
    assert(dest.take(n) =~= p);
    assert(dest.skip(n + 1) =~= title);
}

// ---------------------------------------------------------------------------
// Escapes
// ---------------------------------------------------------------------------

/// The digit of base 16 for a value.
pub open spec fn hex_of(n: int) -> u8 {
    if n < 10 {
        (0x30 + n) as u8
    } else {
        (0x41 + n - 10) as u8
    }
}

/// Bytes written as a percent sign and two digits each.
pub open spec fn escaped(b: Seq<u8>) -> Seq<u8>
    decreases b.len(),
{
    if b.len() == 0 {
        Seq::empty()
    } else {
        seq![0x25, hex_of(b[0] as int / 16), hex_of(b[0] as int % 16)] + escaped(b.skip(1))
    }
}

proof fn lemma_unescaped(b: Seq<u8>)
    ensures
        links::unescaped(escaped(b)) == b,
    decreases b.len(),
{
    if b.len() > 0 {
        let e = escaped(b);
        let x = b[0] as int;
        lemma_unescaped(b.skip(1));
        assert(e.skip(3) =~= escaped(b.skip(1)));
        assert(links::hex_digit(hex_of(x / 16)) == Some((x / 16) as u8));
        assert(links::hex_digit(hex_of(x % 16)) == Some((x % 16) as u8));
        assert(seq![b[0]] + b.skip(1) =~= b);
    } else {
        assert(escaped(b) =~= b);
    }
}

/// A path whose bytes are all escaped stands for that path.
pub proof fn law_escapes_are_decoded(s: Seq<char>, t: Seq<char>)
    requires
        encode_utf8(s) == escaped(encode_utf8(t)),
    ensures
        links::percent_decoded(s) == t,
{
    lemma_unescaped(encode_utf8(t));
    encode_utf8_valid_utf8(t);
    encode_utf8_decode_utf8(t);
}

// ---------------------------------------------------------------------------
// Slugs
// ---------------------------------------------------------------------------

/// Whether an ASCII text begins and ends with a letter or a digit.
pub open spec fn is_solid(s: Seq<char>) -> bool {
    &&& s.len() > 0
    &&& laws_view::is_ascii(s)
    &&& text::ascii_alphanumeric(s[0])
    &&& text::ascii_alphanumeric(s.last())
}

proof fn lemma_slug_last(s: Seq<char>)
    requires
        s.len() > 0,
        laws_view::is_ascii(s),
        text::ascii_alphanumeric(s.last()),
    ensures
        links::slug_raw(s).0.len() > 0,
        links::slug_raw(s).0.last() != '-',
        !links::slug_raw(s).1,
        links::slug(s) == links::slug_raw(s).0,
{
    let t = links::slug_raw(s.drop_last()).0;
    assert(s[s.len() - 1] <= '\u{7f}');
    assert(links::slug_raw(s).0 =~= t.push(text::ascii_lower(s.last())));
}

proof fn lemma_slug_behind(pre: Seq<char>, b: Seq<char>)
    requires
        b.len() > 0,
        laws_view::is_ascii(b),
        text::ascii_alphanumeric(b[0]),
    ensures
        links::slug_raw(pre + b).0 == links::slug_raw(pre).0 + links::slug_raw(b).0,
        links::slug_raw(pre + b).1 == links::slug_raw(b).1,
        links::slug_raw(b).0.len() > 0,
    decreases b.len(),
{
    let init = b.drop_last();
    let c = b.last();
    assert((pre + b).drop_last() =~= pre + init);
    assert((pre + b).last() == c);
    assert(b[b.len() - 1] <= '\u{7f}');
    if init.len() == 0 {
        assert(pre + init =~= pre);
        assert(b[0] == c);
        assert(links::slug_raw(init).0 =~= Seq::<char>::empty());
        assert(links::slug_raw(b).0 =~= text::lowercase(c));
        assert(links::slug_raw(pre + b).0 =~= links::slug_raw(pre).0 + text::lowercase(c));
    } else {
        assert forall|i: int| 0 <= i < init.len() implies #[trigger] init[i] <= '\u{7f}' by {
            assert(init[i] == b[i]);
        }
        assert(init[0] == b[0]);
        lemma_slug_behind(pre, init);
        let a = links::slug_raw(pre).0;
        let x = links::slug_raw(init).0;
        assert(a + x + text::lowercase(c) =~= a + (x + text::lowercase(c)));
        assert((a + x).push('-') =~= a + x.push('-'));
    }
}

/// The slug of two texts with a space between them is their slugs with a dash between them.
pub proof fn law_slug_parts_words_by_a_dash(a: Seq<char>, b: Seq<char>)
    requires
        is_solid(a),
        is_solid(b),
    ensures
        links::slug(a + seq![' '] + b) == links::slug(a) + seq!['-'] + links::slug(b),
{
    let sp = a + seq![' '];
    lemma_slug_last(a);
    lemma_slug_last(b);
    assert(sp.drop_last() =~= a);
    assert(links::slug_raw(sp).0 =~= links::slug(a) + seq!['-']);
    lemma_slug_behind(sp, b);
    let all = sp + b;
    let raw = links::slug_raw(all).0;
    assert(raw == links::slug(a) + seq!['-'] + links::slug(b));
    assert(raw.last() == links::slug(b).last());
    assert(links::without_dashes(raw) == raw);
}

// ---------------------------------------------------------------------------
// Text of links
// ---------------------------------------------------------------------------

/// Whether an event shows plain text.
pub open spec fn is_plain(ev: EventView) -> bool {
    ev is Text || ev is Code || ev is SoftBreak || ev is HardBreak || ev is FootnoteReference
}

proof fn lemma_targets_step(b: markdown::BuilderView, ev: EventView, offset: usize)
    ensures
        b.targets.is_prefix_of(b.event(ev, offset).targets),
{
    let a = b.event(ev, offset).targets;
    assert(a.subrange(0, b.targets.len() as int) =~= b.targets);
}

proof fn lemma_targets_grow(p: Page, i: int, j: int)
    requires
        0 <= i <= j <= p.evs.len(),
    ensures
        p.read(i).targets.is_prefix_of(p.read(j).targets),
    decreases j - i,
{
    let a = p.read(i).targets;
    if i < j {
        lemma_targets_grow(p, i, j - 1);
        laws_blocks::lemma_read_step(p, j - 1);
        lemma_targets_step(p.read(j - 1), p.evs[j - 1].0, p.evs[j - 1].1);
        assert(a =~= p.read(j).targets.subrange(0, a.len() as int));
    } else {
        assert(a.subrange(0, a.len() as int) =~= a);
    }
}

proof fn lemma_plain_step(b: markdown::BuilderView, ev: EventView, offset: usize)
    requires
        is_plain(ev),
        !b.in_code_block,
    ensures
        ({
            let a = b.event(ev, offset);
            &&& a.runs.len() == b.runs.len() + 1
            &&& a.runs.drop_last() == b.runs
            &&& a.runs.last().link == b.open_link
            &&& a.open_link == b.open_link
            &&& a.in_code_block == b.in_code_block
        }),
{
    let a = b.event(ev, offset);
    assert(a.runs.drop_last() =~= b.runs);
}

proof fn lemma_link_read(p: Page, i: int, j: int, dest: Seq<char>)
    requires
        0 <= i < j <= p.evs.len(),
        p.evs[i].0 == EventView::Start(TagView::Link(dest)),
        forall|k: int| i < k < j ==> is_plain((#[trigger] p.evs[k]).0),
        !p.read(i).in_code_block,
        p.read(i).targets.len() <= usize::MAX,
    ensures
        ({
            let b = p.read(i);
            let a = p.read(j);
            &&& a.open_link == Some(b.targets.len() as usize)
            &&& !a.in_code_block
            &&& a.runs.len() == b.runs.len() + (j - i - 1)
            &&& b.runs.is_prefix_of(a.runs)
            &&& forall|k: int|
                b.runs.len() <= k < a.runs.len() ==> (#[trigger] a.runs[k]).link == Some(
                    b.targets.len() as usize,
                )
        }),
    decreases j,
{
    let b = p.read(i);
    let a = p.read(j);
    let m = p.read(j - 1);
    laws_blocks::lemma_read_step(p, j - 1);
    if j > i + 1 {
        lemma_link_read(p, i, j - 1, dest);
        assert(is_plain(p.evs[j - 1].0));
        lemma_plain_step(m, p.evs[j - 1].0, p.evs[j - 1].1);
        assert forall|k: int| b.runs.len() <= k < a.runs.len() implies (
        #[trigger] a.runs[k]).link == Some(b.targets.len() as usize) by {
            if k < m.runs.len() {
                assert(a.runs[k] == a.runs.drop_last()[k]);
            }
        }
        assert(b.runs =~= a.runs.subrange(0, b.runs.len() as int)) by {
            assert(b.runs =~= m.runs.subrange(0, b.runs.len() as int));
            assert forall|k: int| 0 <= k < b.runs.len() implies a.runs[k] == b.runs[k] by {
                assert(a.runs[k] == a.runs.drop_last()[k]);
            }
        }
    } else {
        assert(b.runs =~= a.runs.subrange(0, b.runs.len() as int));
    }
}

/// The text between the beginning and the end of a link belongs to a link that leads where
/// the destination says, seen from the directory of the document, and text behind it to
/// none.
pub proof fn law_link_text_leads_to_its_target(p: Page, i: int, j: int, dest: Seq<char>)
    requires
        0 <= i < j < p.evs.len(),
        p.evs[i].0 == EventView::Start(TagView::Link(dest)),
        forall|k: int| i < k < j ==> is_plain((#[trigger] p.evs[k]).0),
        p.evs[j].0 == EventView::End(MdTagEnd::Link),
        !laws_tables::code_open(p.evs, i),
        p.read(i).targets.len() < usize::MAX,
    ensures
        ({
            let b = p.read(i);
            let a = p.read(j + 1);
            &&& a.runs.len() == b.runs.len() + (j - i - 1)
            &&& forall|k: int|
                b.runs.len() <= k < a.runs.len() ==> {
                    let link = (#[trigger] a.runs[k]).link;
                    &&& link is Some
                    &&& link->0 < p.all_read().targets.len()
                    &&& p.all_read().targets[link->0 as int] == links::resolved(dest, p.base)
                }
            &&& a.open_link is None
        }),
{
    laws_tables::lemma_code_open(p, i);
    lemma_link_read(p, i, j, dest);
    laws_blocks::lemma_read_step(p, i);
    laws_blocks::lemma_read_step(p, j);
    laws_blocks::lemma_read_grows(p, i, i);
    let n = p.evs.len() as int;
    lemma_targets_grow(p, i + 1, n);
    let at = p.read(i).targets.len() as int;
    let s = p.read(i + 1).targets;
    assert(s.len() == at + 1 && s[at] == links::resolved(dest, p.base));
    assert(p.all_read().targets == p.read(n).targets);
    assert(p.read(n).targets[at] == s[at]);
}

// ---------------------------------------------------------------------------
// Styles
// ---------------------------------------------------------------------------

/// What a theme adds to the style of text in a construct.
pub open spec fn adds(theme: Theme, tag: TagView) -> Option<(Modifier, MdTagEnd)> {
    match tag {
        TagView::Strong => Some((theme.strong, MdTagEnd::Strong)),
        TagView::Emphasis => Some((theme.emphasis, MdTagEnd::Emphasis)),
        TagView::Strikethrough => Some((theme.strikethrough, MdTagEnd::Strikethrough)),
        _ => None,
    }
}

proof fn lemma_style_start(b: markdown::BuilderView, tag: TagView, offset: usize)
    requires
        adds(b.theme, tag) is Some,
    ensures
        ({
            let a = b.event(EventView::Start(tag), offset);
            let (m, end) = adds(b.theme, tag)->0;
            &&& a.styles == b.styles.push(b.cur_style().add_modifier(m))
            &&& a.in_code_block == b.in_code_block
        }),
{
}

proof fn lemma_style_end(b: markdown::BuilderView, end: MdTagEnd, offset: usize)
    requires
        end is Strong || end is Emphasis || end is Strikethrough,
        b.styles.len() > 1,
    ensures
        ({
            let a = b.event(EventView::End(end), offset);
            &&& a.styles == b.styles.drop_last()
            &&& a.in_code_block == b.in_code_block
        }),
{
}

proof fn lemma_style_text(b: markdown::BuilderView, s: Seq<char>, offset: usize)
    requires
        !b.in_code_block,
    ensures
        ({
            let a = b.event(EventView::Text(s), offset);
            &&& a.styles == b.styles
            &&& a.runs.len() > 0
            &&& a.runs.last().style == b.cur_style()
            &&& a.in_code_block == b.in_code_block
        }),
{
}

/// Strong text, emphasis and text struck through are set as the theme says, on top of what
/// is around them, and what comes behind is set as before.
pub proof fn law_inline_tags_style_their_text(
    b: markdown::BuilderView,
    tag: TagView,
    s: Seq<char>,
    offset: usize,
)
    requires
        !b.in_code_block,
        b.styles.len() > 0,
        adds(b.theme, tag) is Some,
    ensures
        ({
            let (m, end) = adds(b.theme, tag)->0;
            let text = EventView::Text(s);
            let base = b.event(text, offset).runs.last().style;
            let inside = b.event(EventView::Start(tag), offset).event(text, offset);
            let behind = inside.event(EventView::End(end), offset).event(text, offset);
            &&& inside.runs.last().style == base.add_modifier(m)
            &&& behind.runs.last().style == base
        }),
{
    let (m, end) = adds(b.theme, tag)->0;
    let text = EventView::Text(s);
    lemma_style_text(b, s, offset);
    lemma_style_start(b, tag, offset);
    let a = b.event(EventView::Start(tag), offset);
    lemma_style_text(a, s, offset);
    let c = a.event(text, offset);
    lemma_style_end(c, end, offset);
    let d = c.event(EventView::End(end), offset);
    assert(d.styles =~= b.styles);
    lemma_style_text(d, s, offset);
}

} // verus!
