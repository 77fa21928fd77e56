//! Link targets, hit-test maps over rendered output, and heading slugs.

use std::collections::{HashMap, HashSet};
use vstd::prelude::*;
use vstd::utf8::*;
use crate::paths;
use crate::text;
use crate::text::{find_char, find_from, from_chars, matches_at, to_chars};
use crate::textmap::TextMap;
use crate::views;

verus! {

broadcast use vstd::std_specs::hash::group_hash_axioms;

/// What following a link leads to.
#[derive(Debug, PartialEq, Eq)]
pub enum LinkTarget {
    /// External URL, opened in the system browser.
    Url(String),
    /// Local markdown or text file, navigated to within the app.
    LocalFile(String),
    /// Anchor in the current document.
    Anchor(String),
    /// Anchor in another local file.
    FileAnchor(String, String),
}

/// The text of a [`LinkTarget`].
pub enum TargetView {
    Url(Seq<char>),
    LocalFile(Seq<char>),
    Anchor(Seq<char>),
    FileAnchor(Seq<char>, Seq<char>),
}

impl View for LinkTarget {
    type V = TargetView;

    open spec fn view(&self) -> TargetView {
        match self {
            LinkTarget::Url(u) => TargetView::Url(u@),
            LinkTarget::LocalFile(p) => TargetView::LocalFile(p@),
            LinkTarget::Anchor(a) => TargetView::Anchor(a@),
            LinkTarget::FileAnchor(p, a) => TargetView::FileAnchor(p@, a@),
        }
    }
}

impl Clone for LinkTarget {
    fn clone(&self) -> (r: LinkTarget)
        ensures
            r@ == self@,
    {
        match self {
            LinkTarget::Url(u) => LinkTarget::Url(u.clone()),
            LinkTarget::LocalFile(p) => LinkTarget::LocalFile(p.clone()),
            LinkTarget::Anchor(a) => LinkTarget::Anchor(a.clone()),
            LinkTarget::FileAnchor(p, a) => LinkTarget::FileAnchor(p.clone(), a.clone()),
        }
    }
}

/// The columns `col_start..col_end` of display line `line` that belong to one
/// link.
#[derive(Debug)]
pub struct LinkSpan {
    pub line: usize,
    pub col_start: usize,
    pub col_end: usize,
    pub target: LinkTarget,
}

/// Position and target of a [`LinkSpan`].
pub struct LinkSpanView {
    pub line: usize,
    pub col_start: usize,
    pub col_end: usize,
    pub target: TargetView,
}

impl View for LinkSpan {
    type V = LinkSpanView;

    open spec fn view(&self) -> LinkSpanView {
        LinkSpanView {
            line: self.line,
            col_start: self.col_start,
            col_end: self.col_end,
            target: self.target@,
        }
    }
}

impl Clone for LinkSpan {
    fn clone(&self) -> (r: LinkSpan)
        ensures
            r@ == self@,
    {
        LinkSpan {
            line: self.line,
            col_start: self.col_start,
            col_end: self.col_end,
            target: self.target.clone(),
        }
    }
}

/// All links of a rendered document, and its heading anchors.
#[derive(Debug)]
pub struct LinkMap {
    pub links: Vec<LinkSpan>,
    /// Heading anchor id to line index.
    pub anchors: TextMap<usize>,
}

impl Clone for LinkMap {
    fn clone(&self) -> (r: LinkMap)
        ensures
            views::views(r.links@) == views::views(self.links@),
            r.anchors@ == self.anchors@,
    {
        LinkMap { links: views::copy_all(&self.links), anchors: self.anchors.clone() }
    }
}

impl Default for LinkMap {
    fn default() -> (r: LinkMap)
        ensures
            r.links@.len() == 0,
            r.anchors@ == Map::<Seq<char>, usize>::empty(),
    {
        LinkMap { links: Vec::new(), anchors: TextMap::new() }
    }
}

/// A `[ ]` / `[x]` task-list marker, located in both rendered output (line and
/// columns) and the source (byte offset of the opening `[`).
#[derive(Clone, Copy, Debug, PartialEq, Eq, Structural)]
pub struct CheckboxSpan {
    pub line: usize,
    pub col_start: usize,
    pub col_end: usize,
    pub source_offset: usize,
    pub checked: bool,
}

/// An image embed of the rendered document: the line where its placeholder
/// stands and the resolved local path or URL.
#[derive(Debug)]
pub struct ImageRef {
    pub line: usize,
    pub source: String,
}

/// Line and source text of an [`ImageRef`].
pub struct ImageView {
    pub line: usize,
    pub source: Seq<char>,
}

impl View for ImageRef {
    type V = ImageView;

    open spec fn view(&self) -> ImageView {
        ImageView { line: self.line, source: self.source@ }
    }
}

impl Clone for ImageRef {
    fn clone(&self) -> (r: ImageRef)
        ensures
            r@ == self@,
    {
        ImageRef { line: self.line, source: self.source.clone() }
    }
}

/// All task markers of a rendered document.
#[derive(Debug)]
pub struct CheckboxMap {
    pub items: Vec<CheckboxSpan>,
}

impl Clone for CheckboxMap {
    fn clone(&self) -> (r: CheckboxMap)
        ensures
            r.items@ == self.items@,
    {
        let items = self.items.clone();
        assert(items@ =~= self.items@);
        CheckboxMap { items }
    }
}

impl Default for CheckboxMap {
    fn default() -> (r: CheckboxMap)
        ensures
            r.items@.len() == 0,
    {
        CheckboxMap { items: Vec::new() }
    }
}

// ---------------------------------------------------------------------------
// Tables: click-to-expand state and hit-test geometry
// ---------------------------------------------------------------------------

/// Which parts of one table show their full content. Keyed in
/// [`TableExpansions`] by the table's source byte offset; `all` overrides the
/// granular sets.
#[derive(Debug)]
pub struct TableExpand {
    /// Whole table expanded.
    pub all: bool,
    /// Columns expanded by clicking their header cell.
    pub cols: HashSet<usize>,
    /// Individual `(body_row, col)` cells expanded by clicking them.
    pub cells: HashSet<(usize, usize)>,
}

impl TableExpand {
    /// True once nothing is expanded.
    pub fn is_empty(&self) -> (r: bool)
        ensures
            r == (!self.all && self.cols@ == Set::<usize>::empty() && self.cells@ == Set::<
                (usize, usize),
            >::empty()),
    {
        let none = !self.all && self.cols.is_empty() && self.cells.is_empty();
        proof {
            if none {
                assert(self.cols@ =~= Set::<usize>::empty());
                assert(self.cells@ =~= Set::<(usize, usize)>::empty());
            }
        }
        none
    }
}

impl Default for TableExpand {
    fn default() -> (r: TableExpand)
        ensures
            !r.all,
            r.cols@ == Set::<usize>::empty(),
            r.cells@ == Set::<(usize, usize)>::empty(),
    {
        TableExpand { all: false, cols: HashSet::new(), cells: HashSet::new() }
    }
}

/// Per-table expansion state, keyed by table source byte offset.
pub type TableExpansions = HashMap<u64, TableExpand>;

/// What a click inside a table resolves to.
#[derive(Clone, Copy, Debug, PartialEq, Eq, Structural)]
pub enum TableHit {
    /// A border cell: toggles the whole table.
    All,
    /// A header cell at this column index: toggles that column.
    Column(usize),
    /// A body cell at `(body_row, col)`: toggles just that cell.
    Cell(usize, usize),
}

/// Hit-test geometry of one rendered table.
#[derive(Debug)]
pub struct TableRegion {
    /// Source byte offset of the table block.
    pub id: u64,
    /// Display lines of the whole table, borders included (half-open).
    pub line_start: usize,
    pub line_end: usize,
    /// Display lines that are full-width horizontal borders.
    pub border_lines: Vec<usize>,
    /// Display lines of the header row group (half-open).
    pub header_start: usize,
    pub header_end: usize,
    /// `[start, end)` content and padding columns of each table column.
    pub col_x: Vec<(usize, usize)>,
    /// Columns occupied by the vertical borders.
    pub border_x: Vec<usize>,
    /// `(line_start, line_end)` of each body row.
    pub body_rows: Vec<(usize, usize)>,
}

/// All tables of a rendered document.
#[derive(Debug)]
pub struct TableMap {
    pub regions: Vec<TableRegion>,
}

impl Default for TableMap {
    fn default() -> (r: TableMap)
        ensures
            r.regions@.len() == 0,
    {
        TableMap { regions: Vec::new() }
    }
}

/// The half-open ranges that contain `x`.
pub open spec fn range_has(x: usize) -> spec_fn((usize, usize)) -> bool {
    |r: (usize, usize)| r.0 <= x < r.1
}

/// The regions whose lines include `line`.
pub open spec fn region_has(line: usize) -> spec_fn(TableRegion) -> bool {
    |r: TableRegion| r.line_start <= line < r.line_end
}

impl TableRegion {
    /// What `(line, col)` means inside this table: any border glyph, and any
    /// place that is no cell, stands for the whole table.
    pub open spec fn target(&self, line: usize, col: usize) -> TableHit {
        match views::first_where(self.col_x@, range_has(col), 0) {
            Some(ci) if !self.border_lines@.contains(line) && !self.border_x@.contains(col) => {
                if self.header_start <= line < self.header_end {
                    TableHit::Column(ci as usize)
                } else {
                    match views::first_where(self.body_rows@, range_has(line), 0) {
                        Some(ri) => TableHit::Cell(ri as usize, ci as usize),
                        None => TableHit::All,
                    }
                }
            },
            _ => TableHit::All,
        }
    }
}

fn contains_index(v: &[usize], x: usize) -> (r: bool)
    ensures
        r == v@.contains(x),
{
    let mut i: usize = 0;
    while i < v.len()
        invariant
            i <= v.len(),
            forall|j: int| 0 <= j < i ==> v@[j] != x,
        decreases v.len() - i,
    {
        if v[i] == x {
            return true;
        }
        i = i + 1;
    }
    false
}

fn range_position(v: &[(usize, usize)], x: usize) -> (r: Option<usize>)
    ensures
        match r {
            Some(i) => views::first_where(v@, range_has(x), 0) == Some(i as int),
            None => views::first_where(v@, range_has(x), 0) is None,
        },
{
    let mut i: usize = 0;
    while i < v.len()
        invariant
            i <= v.len(),
            views::first_where(v@, range_has(x), 0) == views::first_where(
                v@,
                range_has(x),
                i as int,
            ),
        decreases v.len() - i,
    {
        if v[i].0 <= x && x < v[i].1 {
            return Some(i);
        }
        i = i + 1;
    }
    None
}

impl TableMap {
    /// Resolves a click at display `(line, col)` to the table it lands in and
    /// the granularity it targets: a border expands the whole table, a header
    /// cell its column, a body cell itself.
    pub fn hit(&self, line: usize, col: usize) -> (r: Option<(u64, TableHit)>)
        ensures
            r == match views::first_where(self.regions@, region_has(line), 0) {
                Some(i) => Some((self.regions@[i].id, self.regions@[i].target(line, col))),
                None => None,
            },
    {
        let mut i: usize = 0;
        while i < self.regions.len()
            invariant
                i <= self.regions@.len(),
                views::first_where(self.regions@, region_has(line), 0) == views::first_where(
                    self.regions@,
                    region_has(line),
                    i as int,
                ),
            decreases self.regions@.len() - i,
        {
            let reg = &self.regions[i];
            if line < reg.line_start || line >= reg.line_end {
                i = i + 1;
                continue;
            }
            if contains_index(&reg.border_lines, line) || contains_index(&reg.border_x, col) {
                return Some((reg.id, TableHit::All));
            }
            match range_position(&reg.col_x, col) {
                None => {
                    return Some((reg.id, TableHit::All));
                },
                Some(ci) => {
                    if line >= reg.header_start && line < reg.header_end {
                        return Some((reg.id, TableHit::Column(ci)));
                    }
                    match range_position(&reg.body_rows, line) {
                        Some(ri) => {
                            return Some((reg.id, TableHit::Cell(ri, ci)));
                        },
                        None => {
                            return Some((reg.id, TableHit::All));
                        },
                    }
                },
            }
        }
        None
    }
}

// ---------------------------------------------------------------------------
// Hit tests
// ---------------------------------------------------------------------------

/// The task markers that cover `(line, col)`.
pub open spec fn box_covers(line: usize, col: usize) -> spec_fn(CheckboxSpan) -> bool {
    |c: CheckboxSpan| c.line == line && c.col_start <= col < c.col_end
}

/// The links that cover `(line, col)`.
pub open spec fn link_covers(line: usize, col: usize) -> spec_fn(LinkSpanView) -> bool {
    |l: LinkSpanView| l.line == line && l.col_start <= col < l.col_end
}

/// The links that start on or after `(line, col)`.
pub open spec fn link_after(line: usize, col: usize) -> spec_fn(LinkSpanView) -> bool {
    |l: LinkSpanView| l.line > line || (l.line == line && l.col_start >= col)
}

/// The links that end at or before `(line, col)`.
pub open spec fn link_before(line: usize, col: usize) -> spec_fn(LinkSpanView) -> bool {
    |l: LinkSpanView| l.line < line || (l.line == line && l.col_end <= col)
}

/// An index as a mathematical one.
pub open spec fn as_index(r: Option<usize>) -> Option<int> {
    match r {
        Some(i) => Some(i as int),
        None => None,
    }
}

impl CheckboxMap {
    /// Index of the task marker at `(line, col)`, if any.
    pub fn at(&self, line: usize, col: usize) -> (r: Option<usize>)
        ensures
            as_index(r) == views::first_where(self.items@, box_covers(line, col), 0),
    {
        let mut i: usize = 0;
        while i < self.items.len()
            invariant
                i <= self.items@.len(),
                views::first_where(self.items@, box_covers(line, col), 0) == views::first_where(
                    self.items@,
                    box_covers(line, col),
                    i as int,
                ),
            decreases self.items@.len() - i,
        {
            let c = &self.items[i];
            if c.line == line && col >= c.col_start && col < c.col_end {
                return Some(i);
            }
            i = i + 1;
        }
        None
    }
}

impl LinkMap {
    /// Index of the link that contains `(line, col)`, if any.
    pub fn at(&self, line: usize, col: usize) -> (r: Option<usize>)
        ensures
            as_index(r) == views::first_where(views::views(self.links@), link_covers(line, col), 0),
    {
        let mut i: usize = 0;
        while i < self.links.len()
            invariant
                i <= self.links@.len(),
                views::first_where(views::views(self.links@), link_covers(line, col), 0) == views::first_where(
                    views::views(self.links@),
                    link_covers(line, col),
                    i as int,
                ),
            decreases self.links@.len() - i,
        {
            let l = &self.links[i];
            if l.line == line && col >= l.col_start && col < l.col_end {
                return Some(i);
            }
            i = i + 1;
        }
        None
    }

    /// First link on or after `(line, col)`.
    pub fn next_from(&self, line: usize, col: usize) -> (r: Option<usize>)
        ensures
            as_index(r) == views::first_where(views::views(self.links@), link_after(line, col), 0),
    {
        let mut i: usize = 0;
        while i < self.links.len()
            invariant
                i <= self.links@.len(),
                views::first_where(views::views(self.links@), link_after(line, col), 0) == views::first_where(
                    views::views(self.links@),
                    link_after(line, col),
                    i as int,
                ),
            decreases self.links@.len() - i,
        {
            let l = &self.links[i];
            if l.line > line || (l.line == line && l.col_start >= col) {
                return Some(i);
            }
            i = i + 1;
        }
        None
    }

    /// Last link before `(line, col)`.
    pub fn prev_from(&self, line: usize, col: usize) -> (r: Option<usize>)
        ensures
            as_index(r) == views::last_where(
                views::views(self.links@),
                link_before(line, col),
                self.links@.len() as int,
            ),
    {
        let mut i: usize = self.links.len();
        while i > 0
            invariant
                i <= self.links@.len(),
                views::last_where(views::views(self.links@), link_before(line, col), self.links@.len() as int)
                    == views::last_where(views::views(self.links@), link_before(line, col), i as int),
            decreases i,
        {
            let l = &self.links[i - 1];
            if l.line < line || (l.line == line && l.col_end <= col) {
                return Some(i - 1);
            }
            i = i - 1;
        }
        None
    }
}

// ---------------------------------------------------------------------------
// Resolving destinations
// ---------------------------------------------------------------------------

/// The value of a hexadecimal digit.
pub open spec fn hex_digit(b: u8) -> Option<u8> {
    if 0x30 <= b <= 0x39 {
        Some((b - 0x30) as u8)
    } else if 0x61 <= b <= 0x66 {
        Some((b - 0x61 + 10) as u8)
    } else if 0x41 <= b <= 0x46 {
        Some((b - 0x41 + 10) as u8)
    } else {
        None
    }
}

/// Reads one hexadecimal digit.
pub fn hex_val(b: u8) -> (r: Option<u8>)
    ensures
        r == hex_digit(b),
{
    if 0x30 <= b && b <= 0x39 {
        Some(b - 0x30)
    } else if 0x61 <= b && b <= 0x66 {
        Some(b - 0x61 + 10)
    } else if 0x41 <= b && b <= 0x46 {
        Some(b - 0x41 + 10)
    } else {
        None
    }
}

/// True when `b` begins with a `%` and two hexadecimal digits.
pub open spec fn is_escape(b: Seq<u8>) -> bool {
    b.len() > 2 && b[0] == 0x25 && hex_digit(b[1]) is Some && hex_digit(b[2]) is Some
}

/// The bytes with each `%XX` replaced by the byte it stands for.
pub open spec fn unescaped(b: Seq<u8>) -> Seq<u8>
    decreases b.len(),
{
    if b.len() == 0 {
        b
    } else if is_escape(b) {
        seq![(hex_digit(b[1])->0 * 16 + hex_digit(b[2])->0) as u8] + unescaped(b.skip(3))
    } else {
        seq![b[0]] + unescaped(b.skip(1))
    }
}

/// The text with its `%XX` escapes decoded, or as it is where that would not
/// be UTF-8.
pub open spec fn percent_decoded(s: Seq<char>) -> Seq<char> {
    let b = unescaped(encode_utf8(s));
    if valid_utf8(b) {
        decode_utf8(b)
    } else {
        s
    }
}

/// URL percent-decoder for local link paths.
pub fn percent_decode(s: &str) -> (r: String)
    ensures
        r@ == percent_decoded(s@),
{
    let bytes = s.as_bytes();
    let mut out: Vec<u8> = Vec::new();
    let mut i: usize = 0;
    assert(bytes@.skip(0) =~= bytes@);
    while i < bytes.len()
        invariant
            i <= bytes@.len(),
            out@ + unescaped(bytes@.skip(i as int)) == unescaped(bytes@),
        decreases bytes@.len() - i,
    {
        let ghost rest = bytes@.skip(i as int);
        if bytes[i] == 0x25 && bytes.len() - i > 2 {
            match (hex_val(bytes[i + 1]), hex_val(bytes[i + 2])) {
                (Some(hi), Some(lo)) => {
                    let ghost prev = out@;
                    out.push(hi * 16 + lo);
                    assert(rest.skip(3) =~= bytes@.skip(i + 3));
                    assert(prev + (seq![(hi * 16 + lo) as u8] + unescaped(rest.skip(3))) =~= out@
                        + unescaped(rest.skip(3)));
                    i = i + 3;
                    continue;
                },
                _ => {},
            }
        }
        let ghost prev = out@;
        out.push(bytes[i]);
        assert(rest.skip(1) =~= bytes@.skip(i + 1));
        assert(prev + (seq![rest[0]] + unescaped(rest.skip(1))) =~= out@ + unescaped(rest.skip(1)));
        i = i + 1;
    }
    assert(bytes@.skip(i as int) =~= Seq::<u8>::empty());
    assert(out@ =~= unescaped(bytes@));
    match text::text_of_utf8(out) {
        Some(t) => t,
        None => s.to_string(),
    }
}

/// One step of building a slug: the text so far and whether it just got a dash.
pub open spec fn slug_step(st: (Seq<char>, bool), c: char) -> (Seq<char>, bool) {
    if text::alphanumeric(c) {
        (st.0 + text::lowercase(c), false)
    } else if (text::is_space(c) || c == '-' || c == '_') && !st.1 && st.0.len() > 0 {
        (st.0.push('-'), true)
    } else {
        st
    }
}

/// The slug of `s` before trailing dashes are dropped, and whether it ends in a
/// dash of its own.
pub open spec fn slug_raw(s: Seq<char>) -> (Seq<char>, bool)
    decreases s.len(),
{
    if s.len() == 0 {
        (Seq::empty(), false)
    } else {
        slug_step(slug_raw(s.drop_last()), s.last())
    }
}

/// `s` without its trailing dashes.
pub open spec fn without_dashes(s: Seq<char>) -> Seq<char>
    decreases s.len(),
{
    if s.len() > 0 && s.last() == '-' {
        without_dashes(s.drop_last())
    } else {
        s
    }
}

/// The anchor slug of a heading.
pub open spec fn slug(s: Seq<char>) -> Seq<char> {
    without_dashes(slug_raw(s).0)
}

/// Converts heading text to a GitHub-style anchor slug.
pub fn slugify(s: &str) -> (r: String)
    ensures
        r@ == slug(s@),
{
    let cs = to_chars(s);
    let mut out: Vec<char> = Vec::new();
    let mut prev_dash = false;
    let mut i: usize = 0;
    while i < cs.len()
        invariant
            i <= cs@.len(),
            (out@, prev_dash) == slug_raw(cs@.take(i as int)),
        decreases cs@.len() - i,
    {
        let ch = cs[i];
        assert(cs@.take(i + 1).drop_last() =~= cs@.take(i as int));
        if text::is_alphanumeric(ch) {
            let mut low = text::lowercase_chars(ch);
            out.append(&mut low);
            prev_dash = false;
        } else if text::space(ch) || ch == '-' || ch == '_' {
            if !prev_dash && out.len() > 0 {
                out.push('-');
                prev_dash = true;
            }
        }
        i = i + 1;
    }
    assert(cs@.take(i as int) =~= cs@);
    while out.len() > 0 && out[out.len() - 1] == '-'
        invariant
            without_dashes(out@) == slug(s@),
        decreases out@.len(),
    {
        out.pop();
    }
    let n = out.len();
    assert(out@.subrange(0, n as int) =~= out@);
    from_chars(&out, 0, n)
}

/// The local path that a link path stands for.
pub open spec fn local_path(p: Seq<char>, base: Option<Seq<char>>) -> Seq<char> {
    match base {
        Some(b) => paths::joined(b, percent_decoded(p)),
        None => percent_decoded(p),
    }
}

/// What a link destination leads to from a document in `base`.
pub open spec fn resolved(dest: Seq<char>, base: Option<Seq<char>>) -> TargetView {
    let scheme = text::first_from(dest, "://"@, 0);
    if dest.len() > 0 && dest[0] == '#' {
        TargetView::Anchor(slug(dest.skip(1)))
    } else if (scheme matches Some(k) && k > 0) || text::begins_with(dest, "mailto:"@)
        || text::begins_with(dest, "tel:"@) {
        TargetView::Url(dest)
    } else {
        match text::first_char(dest, '#', 0) {
            Some(h) => TargetView::FileAnchor(
                local_path(dest.take(h), base),
                slug(dest.skip(h + 1)),
            ),
            None => TargetView::LocalFile(local_path(dest, base)),
        }
    }
}

fn decode_local(p: &str, base_dir: Option<&str>) -> (r: String)
    ensures
        r@ == local_path(
            p@,
            match base_dir {
                Some(b) => Some(b@),
                None => None,
            },
        ),
{
    let decoded = percent_decode(p);
    match base_dir {
        Some(b) => paths::join(b, &decoded),
        None => decoded,
    }
}

/// Resolves a markdown link's destination into a typed [`LinkTarget`].
pub fn resolve(dest: &str, base_dir: Option<&str>) -> (r: LinkTarget)
    ensures
        r@ == resolved(
            dest@,
            match base_dir {
                Some(b) => Some(b@),
                None => None,
            },
        ),
{
    let cs = to_chars(dest);
    let n = cs.len();
    if n > 0 && cs[0] == '#' {
        let tail = from_chars(&cs, 1, n);
        return LinkTarget::Anchor(slugify(&tail));
    }
    match find_from(&cs, &to_chars("://"), 0) {
        Some(k) => {
            if k > 0 {
                return LinkTarget::Url(dest.to_string());
            }
        },
        None => {},
    }
    if matches_at(&cs, &to_chars("mailto:"), 0) || matches_at(&cs, &to_chars("tel:"), 0) {
        return LinkTarget::Url(dest.to_string());
    }
    match find_char(&cs, '#', 0) {
        Some(h) => {
            let path_part = from_chars(&cs, 0, h);
            let anchor = from_chars(&cs, h + 1, n);
            assert(cs@.take(h as int) =~= cs@.subrange(0, h as int));
            assert(cs@.skip(h + 1) =~= cs@.subrange(h + 1, n as int));
            LinkTarget::FileAnchor(decode_local(&path_part, base_dir), slugify(&anchor))
        },
        None => LinkTarget::LocalFile(decode_local(dest, base_dir)),
    }
}

proof fn lemma_nothing_escaped(b: Seq<u8>)
    requires
        forall|i: int| 0 <= i < b.len() ==> #[trigger] b[i] != 0x25,
    ensures
        unescaped(b) == b,
    decreases b.len(),
{
    if b.len() > 0 {
        let rest = b.skip(1);
        assert forall|i: int| 0 <= i < rest.len() implies #[trigger] rest[i] != 0x25 by {
            assert(rest[i] == b[i + 1]);
        }
        lemma_nothing_escaped(rest);
        assert(b[0] != 0x25);
        assert(seq![b[0]] + rest =~= b);
    }
}

/// A path without a percent sign stands for itself.
pub proof fn law_plain_path_is_not_decoded(s: Seq<char>)
    requires
        forall|i: int| 0 <= i < encode_utf8(s).len() ==> #[trigger] encode_utf8(s)[i] != 0x25,
    ensures
        percent_decoded(s) == s,
{
    lemma_nothing_escaped(encode_utf8(s));
    encode_utf8_valid_utf8(s);
    encode_utf8_decode_utf8(s);
}

} // verus!
