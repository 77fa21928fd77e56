//! Markdown source as a list of events in plain values.

use pulldown_cmark::{CowStr, Event, Options, Parser};
use vstd::prelude::*;
use vstd::utf8::*;
use crate::table::Align;
use crate::views;

verus! {

broadcast use crate::views::group_views;

/// pulldown-cmark's parser event.
#[verifier::external_type_specification]
pub struct ExEvent<'a>(pulldown_cmark::Event<'a>);

/// pulldown-cmark's opening tag.
#[verifier::external_type_specification]
pub struct ExTag<'a>(pulldown_cmark::Tag<'a>);

/// pulldown-cmark's closing tag.
#[verifier::external_type_specification]
pub struct ExTagEnd(pulldown_cmark::TagEnd);

/// pulldown-cmark's kind of code block.
#[verifier::external_type_specification]
pub struct ExCodeBlockKind<'a>(pulldown_cmark::CodeBlockKind<'a>);

/// pulldown-cmark's heading level.
#[verifier::external_type_specification]
pub struct ExHeadingLevel(pulldown_cmark::HeadingLevel);

/// pulldown-cmark's column alignment.
#[verifier::external_type_specification]
pub struct ExAlignment(pulldown_cmark::Alignment);

/// pulldown-cmark's kind of link.
#[verifier::external_type_specification]
pub struct ExLinkType(pulldown_cmark::LinkType);

/// pulldown-cmark's kind of block quote.
#[verifier::external_type_specification]
pub struct ExBlockQuoteKind(pulldown_cmark::BlockQuoteKind);

/// pulldown-cmark's kind of metadata block.
#[verifier::external_type_specification]
pub struct ExMetadataBlockKind(pulldown_cmark::MetadataBlockKind);

/// pulldown-cmark's string.
#[verifier::external_type_specification]
#[verifier::external_body]
pub struct ExCowStr<'a>(pulldown_cmark::CowStr<'a>);

/// The text of a parser string.
pub uninterp spec fn cow_text(c: CowStr<'_>) -> Seq<char>;

/// `CowStr::into_string` of pulldown-cmark: the same text as an owned string.
#[verifier::external_body]
fn cow_string(c: CowStr<'_>) -> (r: String)
    ensures
        r@ == cow_text(c),
{
    c.into_string()
}

/// Depth of a heading.
#[derive(Clone, Copy, Debug, PartialEq, Eq, Structural)]
pub enum Level {
    H1,
    H2,
    H3,
    H4,
    H5,
    H6,
}

/// What a markdown construct opens with.
#[derive(Debug)]
pub enum MdTag {
    Heading(Level),
    BlockQuote,
    /// A code block, with the info string of a fence.
    CodeBlock(Option<String>),
    /// A list, with the first number of an ordered one.
    List(Option<u64>),
    Item,
    Emphasis,
    Strong,
    Strikethrough,
    Link(String),
    /// An image: destination and title.
    Image(String, String),
    Table(Vec<Align>),
    TableCell,
    FootnoteDefinition(String),
    /// A construct that needs nothing at its start.
    Other,
}

/// What a markdown construct closes with.
#[derive(Clone, Copy, Debug, PartialEq, Eq, Structural)]
pub enum MdTagEnd {
    Paragraph,
    Heading,
    BlockQuote,
    CodeBlock,
    List,
    Item,
    Emphasis,
    Strong,
    Strikethrough,
    Link,
    Table,
    TableHead,
    TableRow,
    TableCell,
    /// A construct that needs nothing at its end.
    Other,
}

/// One step of a walk through a markdown document.
#[derive(Debug)]
pub enum MdEvent {
    Start(MdTag),
    End(MdTagEnd),
    Text(String),
    Code(String),
    FootnoteReference(String),
    SoftBreak,
    HardBreak,
    Rule,
    TaskListMarker(bool),
    /// Source text to show as it is.
    Source(String),
    /// Raw HTML and math, which are not shown.
    Hidden,
}

/// What an [`MdTag`] holds.
pub enum TagView {
    Heading(Level),
    BlockQuote,
    CodeBlock(Option<Seq<char>>),
    List(Option<u64>),
    Item,
    Emphasis,
    Strong,
    Strikethrough,
    Link(Seq<char>),
    Image(Seq<char>, Seq<char>),
    Table(Seq<Align>),
    TableCell,
    FootnoteDefinition(Seq<char>),
    Other,
}

/// What an [`MdEvent`] holds.
pub enum EventView {
    Start(TagView),
    End(MdTagEnd),
    Text(Seq<char>),
    Code(Seq<char>),
    FootnoteReference(Seq<char>),
    SoftBreak,
    HardBreak,
    Rule,
    TaskListMarker(bool),
    Source(Seq<char>),
    Hidden,
}

impl View for MdTag {
    type V = TagView;

    open spec fn view(&self) -> TagView {
        match self {
            MdTag::Heading(l) => TagView::Heading(*l),
            MdTag::BlockQuote => TagView::BlockQuote,
            MdTag::CodeBlock(s) => TagView::CodeBlock(views::opt_view(*s)),
            MdTag::List(n) => TagView::List(*n),
            MdTag::Item => TagView::Item,
            MdTag::Emphasis => TagView::Emphasis,
            MdTag::Strong => TagView::Strong,
            MdTag::Strikethrough => TagView::Strikethrough,
            MdTag::Link(d) => TagView::Link(d@),
            MdTag::Image(d, t) => TagView::Image(d@, t@),
            MdTag::Table(a) => TagView::Table(a@),
            MdTag::TableCell => TagView::TableCell,
            MdTag::FootnoteDefinition(n) => TagView::FootnoteDefinition(n@),
            MdTag::Other => TagView::Other,
        }
    }
}

impl View for MdEvent {
    type V = EventView;

    open spec fn view(&self) -> EventView {
        match self {
            MdEvent::Start(t) => EventView::Start(t@),
            MdEvent::End(t) => EventView::End(*t),
            MdEvent::Text(s) => EventView::Text(s@),
            MdEvent::Code(s) => EventView::Code(s@),
            MdEvent::FootnoteReference(s) => EventView::FootnoteReference(s@),
            MdEvent::SoftBreak => EventView::SoftBreak,
            MdEvent::HardBreak => EventView::HardBreak,
            MdEvent::Rule => EventView::Rule,
            MdEvent::TaskListMarker(b) => EventView::TaskListMarker(*b),
            MdEvent::Source(s) => EventView::Source(s@),
            MdEvent::Hidden => EventView::Hidden,
        }
    }
}

/// An event and the byte offset in the source where it begins.
#[derive(Debug)]
pub struct EventAt {
    pub event: MdEvent,
    pub offset: usize,
}

impl View for EventAt {
    type V = (EventView, usize);

    open spec fn view(&self) -> (EventView, usize) {
        (self.event@, self.offset)
    }
}

/// A heading level in plain values.
pub open spec fn level_of(l: pulldown_cmark::HeadingLevel) -> Level {
    match l {
        pulldown_cmark::HeadingLevel::H1 => Level::H1,
        pulldown_cmark::HeadingLevel::H2 => Level::H2,
        pulldown_cmark::HeadingLevel::H3 => Level::H3,
        pulldown_cmark::HeadingLevel::H4 => Level::H4,
        pulldown_cmark::HeadingLevel::H5 => Level::H5,
        pulldown_cmark::HeadingLevel::H6 => Level::H6,
    }
}

fn to_level(l: pulldown_cmark::HeadingLevel) -> (r: Level)
    ensures
        r == level_of(l),
{
    match l {
        pulldown_cmark::HeadingLevel::H1 => Level::H1,
        pulldown_cmark::HeadingLevel::H2 => Level::H2,
        pulldown_cmark::HeadingLevel::H3 => Level::H3,
        pulldown_cmark::HeadingLevel::H4 => Level::H4,
        pulldown_cmark::HeadingLevel::H5 => Level::H5,
        pulldown_cmark::HeadingLevel::H6 => Level::H6,
    }
}

/// A column alignment in plain values.
pub open spec fn align_of(a: pulldown_cmark::Alignment) -> Align {
    match a {
        pulldown_cmark::Alignment::None => Align::Unset,
        pulldown_cmark::Alignment::Left => Align::Left,
        pulldown_cmark::Alignment::Center => Align::Center,
        pulldown_cmark::Alignment::Right => Align::Right,
    }
}

fn to_aligns(v: Vec<pulldown_cmark::Alignment>) -> (r: Vec<Align>)
    ensures
        r@ == v@.map_values(|a: pulldown_cmark::Alignment| align_of(a)),
{
    let mut out: Vec<Align> = Vec::new();
    let mut i: usize = 0;
    while i < v.len()
        invariant
            i <= v@.len(),
            out@ == v@.take(i as int).map_values(|a: pulldown_cmark::Alignment| align_of(a)),
        decreases v@.len() - i,
    {
        let a = match &v[i] {
            pulldown_cmark::Alignment::None => Align::Unset,
            pulldown_cmark::Alignment::Left => Align::Left,
            pulldown_cmark::Alignment::Center => Align::Center,
            pulldown_cmark::Alignment::Right => Align::Right,
        };
        out.push(a);
        i = i + 1;
        assert(out@ =~= v@.take(i as int).map_values(|a: pulldown_cmark::Alignment| align_of(a)));
    }
    assert(v@.take(i as int) =~= v@);
    out
}

/// An opening tag in plain values.
pub open spec fn tag_of(t: pulldown_cmark::Tag<'_>) -> TagView {
    match t {
        pulldown_cmark::Tag::Heading { level, .. } => TagView::Heading(level_of(level)),
        pulldown_cmark::Tag::BlockQuote(_) => TagView::BlockQuote,
        pulldown_cmark::Tag::CodeBlock(k) => TagView::CodeBlock(
            match k {
                pulldown_cmark::CodeBlockKind::Fenced(s) => Some(cow_text(s)),
                pulldown_cmark::CodeBlockKind::Indented => None,
            },
        ),
        pulldown_cmark::Tag::List(n) => TagView::List(n),
        pulldown_cmark::Tag::Item => TagView::Item,
        pulldown_cmark::Tag::Emphasis => TagView::Emphasis,
        pulldown_cmark::Tag::Strong => TagView::Strong,
        pulldown_cmark::Tag::Strikethrough => TagView::Strikethrough,
        pulldown_cmark::Tag::Link { dest_url, .. } => TagView::Link(cow_text(dest_url)),
        pulldown_cmark::Tag::Image { dest_url, title, .. } => TagView::Image(
            cow_text(dest_url),
            cow_text(title),
        ),
        pulldown_cmark::Tag::Table(a) => TagView::Table(
            a@.map_values(|x: pulldown_cmark::Alignment| align_of(x)),
        ),
        pulldown_cmark::Tag::TableCell => TagView::TableCell,
        pulldown_cmark::Tag::FootnoteDefinition(n) => TagView::FootnoteDefinition(cow_text(n)),
        _ => TagView::Other,
    }
}

fn to_tag(t: pulldown_cmark::Tag<'_>) -> (r: MdTag)
    ensures
        r@ == tag_of(t),
{
    match t {
        pulldown_cmark::Tag::Heading { level, .. } => MdTag::Heading(to_level(level)),
        pulldown_cmark::Tag::BlockQuote(_) => MdTag::BlockQuote,
        pulldown_cmark::Tag::CodeBlock(k) => MdTag::CodeBlock(
            match k {
                pulldown_cmark::CodeBlockKind::Fenced(s) => Some(cow_string(s)),
                pulldown_cmark::CodeBlockKind::Indented => None,
            },
        ),
        pulldown_cmark::Tag::List(n) => MdTag::List(n),
        pulldown_cmark::Tag::Item => MdTag::Item,
        pulldown_cmark::Tag::Emphasis => MdTag::Emphasis,
        pulldown_cmark::Tag::Strong => MdTag::Strong,
        pulldown_cmark::Tag::Strikethrough => MdTag::Strikethrough,
        pulldown_cmark::Tag::Link { dest_url, .. } => MdTag::Link(cow_string(dest_url)),
        pulldown_cmark::Tag::Image { dest_url, title, .. } => MdTag::Image(
            cow_string(dest_url),
            cow_string(title),
        ),
        pulldown_cmark::Tag::Table(a) => MdTag::Table(to_aligns(a)),
        pulldown_cmark::Tag::TableCell => MdTag::TableCell,
        pulldown_cmark::Tag::FootnoteDefinition(n) => MdTag::FootnoteDefinition(cow_string(n)),
        _ => MdTag::Other,
    }
}

/// A closing tag in plain values.
pub open spec fn tag_end_of(t: pulldown_cmark::TagEnd) -> MdTagEnd {
    match t {
        pulldown_cmark::TagEnd::Paragraph => MdTagEnd::Paragraph,
        pulldown_cmark::TagEnd::Heading(_) => MdTagEnd::Heading,
        pulldown_cmark::TagEnd::BlockQuote(_) => MdTagEnd::BlockQuote,
        pulldown_cmark::TagEnd::CodeBlock => MdTagEnd::CodeBlock,
        pulldown_cmark::TagEnd::List(_) => MdTagEnd::List,
        pulldown_cmark::TagEnd::Item => MdTagEnd::Item,
        pulldown_cmark::TagEnd::Emphasis => MdTagEnd::Emphasis,
        pulldown_cmark::TagEnd::Strong => MdTagEnd::Strong,
        pulldown_cmark::TagEnd::Strikethrough => MdTagEnd::Strikethrough,
        pulldown_cmark::TagEnd::Link => MdTagEnd::Link,
        pulldown_cmark::TagEnd::Table => MdTagEnd::Table,
        pulldown_cmark::TagEnd::TableHead => MdTagEnd::TableHead,
        pulldown_cmark::TagEnd::TableRow => MdTagEnd::TableRow,
        pulldown_cmark::TagEnd::TableCell => MdTagEnd::TableCell,
        _ => MdTagEnd::Other,
    }
}

fn to_tag_end(t: pulldown_cmark::TagEnd) -> (r: MdTagEnd)
    ensures
        r == tag_end_of(t),
{
    match t {
        pulldown_cmark::TagEnd::Paragraph => MdTagEnd::Paragraph,
        pulldown_cmark::TagEnd::Heading(_) => MdTagEnd::Heading,
        pulldown_cmark::TagEnd::BlockQuote(_) => MdTagEnd::BlockQuote,
        pulldown_cmark::TagEnd::CodeBlock => MdTagEnd::CodeBlock,
        pulldown_cmark::TagEnd::List(_) => MdTagEnd::List,
        pulldown_cmark::TagEnd::Item => MdTagEnd::Item,
        pulldown_cmark::TagEnd::Emphasis => MdTagEnd::Emphasis,
        pulldown_cmark::TagEnd::Strong => MdTagEnd::Strong,
        pulldown_cmark::TagEnd::Strikethrough => MdTagEnd::Strikethrough,
        pulldown_cmark::TagEnd::Link => MdTagEnd::Link,
        pulldown_cmark::TagEnd::Table => MdTagEnd::Table,
        pulldown_cmark::TagEnd::TableHead => MdTagEnd::TableHead,
        pulldown_cmark::TagEnd::TableRow => MdTagEnd::TableRow,
        pulldown_cmark::TagEnd::TableCell => MdTagEnd::TableCell,
        _ => MdTagEnd::Other,
    }
}

/// A parser event in plain values.
pub open spec fn event_of(e: Event<'_>) -> EventView {
    match e {
        pulldown_cmark::Event::Start(t) => EventView::Start(tag_of(t)),
        pulldown_cmark::Event::End(t) => EventView::End(tag_end_of(t)),
        pulldown_cmark::Event::Text(s) => EventView::Text(cow_text(s)),
        pulldown_cmark::Event::Code(s) => EventView::Code(cow_text(s)),
        pulldown_cmark::Event::FootnoteReference(s) => EventView::FootnoteReference(cow_text(s)),
        pulldown_cmark::Event::SoftBreak => EventView::SoftBreak,
        pulldown_cmark::Event::HardBreak => EventView::HardBreak,
        pulldown_cmark::Event::Rule => EventView::Rule,
        pulldown_cmark::Event::TaskListMarker(b) => EventView::TaskListMarker(b),
        _ => EventView::Hidden,
    }
}

/// Turns a parser event, with the offset where it begins, into plain values.
pub fn to_event(e: Event<'_>, offset: usize) -> (r: EventAt)
    ensures
        r@ == (event_of(e), offset),
{
    let event = match e {
        pulldown_cmark::Event::Start(t) => MdEvent::Start(to_tag(t)),
        pulldown_cmark::Event::End(t) => MdEvent::End(to_tag_end(t)),
        pulldown_cmark::Event::Text(s) => MdEvent::Text(cow_string(s)),
        pulldown_cmark::Event::Code(s) => MdEvent::Code(cow_string(s)),
        pulldown_cmark::Event::FootnoteReference(s) => MdEvent::FootnoteReference(cow_string(s)),
        pulldown_cmark::Event::SoftBreak => MdEvent::SoftBreak,
        pulldown_cmark::Event::HardBreak => MdEvent::HardBreak,
        pulldown_cmark::Event::Rule => MdEvent::Rule,
        pulldown_cmark::Event::TaskListMarker(b) => MdEvent::TaskListMarker(b),
        _ => MdEvent::Hidden,
    };
    EventAt { event, offset }
}

/// The markdown extensions that are read.
#[derive(Clone, Copy, Debug, PartialEq, Eq, Structural)]
pub struct Extensions {
    pub tables: bool,
    pub strikethrough: bool,
    pub tasklists: bool,
    pub footnotes: bool,
    pub smart_punctuation: bool,
    pub wikilinks: bool,
}

impl Extensions {
    /// All of them.
    #[verifier::allow_in_spec]
    pub fn all() -> Extensions
        returns
            (Extensions {
                tables: true,
                strikethrough: true,
                tasklists: true,
                footnotes: true,
                smart_punctuation: true,
                wikilinks: true,
            }),
    {
        Extensions {
            tables: true,
            strikethrough: true,
            tasklists: true,
            footnotes: true,
            smart_punctuation: true,
            wikilinks: true,
        }
    }
}

/// The events of a markdown source in plain values, each with its byte offset.
pub uninterp spec fn markdown_events(source: Seq<char>, ext: Extensions) -> Seq<(EventView, usize)>;

/// Whether a byte is a blank of an indent.
pub open spec fn is_blank(b: u8) -> bool {
    b == 0x20 || b == 0x09
}

/// Where the blanks from byte `o` on end.
pub open spec fn past_blanks(b: Seq<u8>, o: int) -> int
    decreases b.len() - o,
{
    if 0 <= o < b.len() && is_blank(b[o]) {
        past_blanks(b, o + 1)
    } else {
        o
    }
}

/// Whether a task marker stands at byte `k`: `[x]` or `[X]` for a checked one,
/// white space between the brackets for another.
pub open spec fn marker_at(b: Seq<u8>, k: int, checked: bool) -> bool {
    &&& 0 <= k
    &&& k + 3 <= b.len()
    &&& b[k] == 0x5b
    &&& b[k + 2] == 0x5d
    &&& if checked {
        b[k + 1] == 0x78 || b[k + 1] == 0x58
    } else {
        b[k + 1] == 0x20 || b[k + 1] == 0x09 || b[k + 1] == 0x0b || b[k + 1] == 0x0c
    }
}

/// Whether a task marker of either kind stands at byte `k`.
#[verifier::opaque]
pub open spec fn marked_at(b: Seq<u8>, k: int) -> bool {
    marker_at(b, k, true) || marker_at(b, k, false)
}

/// The offset iterator of pulldown-cmark's `Parser`, drawn to its end with each
/// event turned into plain values: a function of the source and the extensions.
/// A task marker event begins at its marker in the source, or at blanks before
/// it. No event of the parser stands for source text as it is.
#[verifier::external_body]
fn parse_events(source: &str, ext: Extensions) -> (r: Vec<EventAt>)
    ensures
        views::views(r@) == markdown_events(source@, ext),
        forall|i: int|
            #![trigger views::views(r@)[i]]
            0 <= i < r@.len() ==> !(views::views(r@)[i].0 is Source) && (views::views(
                r@,
            )[i].0 matches EventView::TaskListMarker(c) ==> marker_at(
                encode_utf8(source@),
                past_blanks(encode_utf8(source@), views::views(r@)[i].1 as int),
                c,
            )),
{
    let mut opts = Options::empty();
    opts.set(Options::ENABLE_TABLES, ext.tables);
    opts.set(Options::ENABLE_STRIKETHROUGH, ext.strikethrough);
    opts.set(Options::ENABLE_TASKLISTS, ext.tasklists);
    opts.set(Options::ENABLE_FOOTNOTES, ext.footnotes);
    opts.set(Options::ENABLE_SMART_PUNCTUATION, ext.smart_punctuation);
    opts.set(Options::ENABLE_WIKILINKS, ext.wikilinks);
    Parser::new_ext(source, opts).into_offset_iter().map(|(e, r)| to_event(e, r.start)).collect()
}

/// An event with its offset; that of a task marker is moved past the blanks before
/// the marker.
pub open spec fn at_marker(e: (EventView, usize), b: Seq<u8>) -> (EventView, usize) {
    if e.0 is TaskListMarker {
        (e.0, past_blanks(b, e.1 as int) as usize)
    } else {
        e
    }
}

/// The events of a document, each with the byte offset where it begins.
pub open spec fn document_events(source: Seq<char>) -> Seq<(EventView, usize)> {
    markdown_events(source, Extensions::all()).map_values(
        |e: (EventView, usize)| at_marker(e, encode_utf8(source)),
    )
}

/// Whether each task marker event stands at a marker of a source.
pub open spec fn markers_stand(evs: Seq<(EventView, usize)>, b: Seq<u8>) -> bool {
    forall|i: int|
        0 <= i < evs.len() ==> ((#[trigger] evs[i]).0 matches EventView::TaskListMarker(c)
            ==> marker_at(b, evs[i].1 as int, c))
}

/// Whether none of the events is source text as it is.
pub open spec fn without_source(evs: Seq<(EventView, usize)>) -> bool {
    forall|i: int| 0 <= i < evs.len() ==> !((#[trigger] evs[i]).0 is Source)
}

/// Skips the blanks from byte `o` on.
fn skip_blanks(b: &[u8], o: usize) -> (k: usize)
    ensures
        k == past_blanks(b@, o as int),
{
    let mut k: usize = o;
    while k < b.len() && (b[k] == 0x20 || b[k] == 0x09)
        invariant
            past_blanks(b@, o as int) == past_blanks(b@, k as int),
        decreases b@.len() - k,
    {
        k = k + 1;
    }
    k
}

/// Reads a document.
pub fn read_events(source: &str) -> (r: Vec<EventAt>)
    ensures
        views::views(r@) == document_events(source@),
        markers_stand(views::views(r@), encode_utf8(source@)),
        without_source(views::views(r@)),
{
    let mut events = parse_events(source, Extensions::all());
    let b = source.as_bytes();
    let whole = b.len();
    let ghost parsed = views::views(events@);
    let n = events.len();
    let mut i: usize = 0;
    while i < n
        invariant
            b@ == encode_utf8(source@),
            n == events@.len(),
            n == parsed.len(),
            i <= n,
            forall|j: int| 0 <= j < i ==> (#[trigger] events@[j])@ == at_marker(parsed[j], b@),
            forall|j: int| i <= j < n ==> (#[trigger] events@[j])@ == parsed[j],
        decreases n - i,
    {
        assert(events@[i as int]@ == parsed[i as int]);
        let found: Option<bool> = match &events[i].event {
            MdEvent::TaskListMarker(c) => Some(*c),
            _ => None,
        };
        match found {
            Some(c) => {
                let at = skip_blanks(b, events[i].offset);
                events.set(i, EventAt { event: MdEvent::TaskListMarker(c), offset: at });
            },
            None => {},
        }
        i = i + 1;
    }
    assert(views::views(events@) =~= document_events(source@));
    assert forall|j: int| 0 <= j < n implies !((#[trigger] views::views(events@)[j]).0 is Source)
        && (views::views(events@)[j].0 matches EventView::TaskListMarker(c) ==> marker_at(
        b@,
        views::views(events@)[j].1 as int,
        c,
    )) by {
        assert(parsed[j].0 == views::views(events@)[j].0);
        if parsed[j].0 is TaskListMarker {
            lemma_past_blanks(b@, parsed[j].1 as int);
            assert(past_blanks(b@, parsed[j].1 as int) <= whole);
        }
    }
    events
}

proof fn lemma_past_blanks(b: Seq<u8>, o: int)
    ensures
        o <= past_blanks(b, o),
        o <= b.len() ==> past_blanks(b, o) <= b.len(),
    decreases b.len() - o,
{
    if 0 <= o < b.len() && is_blank(b[o]) {
        lemma_past_blanks(b, o + 1);
    }
}

} // verus!
