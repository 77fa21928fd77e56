//! Word wrapping of styled runs into display lines, with the positions of the
//! links, task markers and images they carry.

use vstd::prelude::*;
use crate::links;
use crate::links::{CheckboxSpan, LinkSpan, LinkTarget};
use crate::style;
use crate::style::{Line, Span, Style};
use crate::text;
use crate::text::{find_char, from_chars, repeat_char, str_width, to_chars};
use crate::views;

verus! {

broadcast use crate::views::group_views;

/// Text in one style, with the link, task marker or image it belongs to, each
/// as an index into the document's lists.
#[derive(Debug)]
pub struct Run {
    pub text: String,
    pub style: Style,
    pub link: Option<usize>,
    pub checkbox: Option<usize>,
    pub image: Option<usize>,
}

/// What a [`Run`] holds.
pub struct RunView {
    pub text: Seq<char>,
    pub style: Style,
    pub link: Option<usize>,
    pub checkbox: Option<usize>,
    pub image: Option<usize>,
}

impl View for Run {
    type V = RunView;

    open spec fn view(&self) -> RunView {
        RunView {
            text: self.text@,
            style: self.style,
            link: self.link,
            checkbox: self.checkbox,
            image: self.image,
        }
    }
}

impl Clone for Run {
    fn clone(&self) -> (r: Run)
        ensures
            r@ == self@,
    {
        Run {
            text: self.text.clone(),
            style: self.style,
            link: self.link,
            checkbox: self.checkbox,
            image: self.image,
        }
    }
}

/// A run that belongs to nothing.
pub open spec fn plain_run(t: Seq<char>, style: Style) -> RunView {
    RunView { text: t, style, link: None, checkbox: None, image: None }
}

impl Run {
    /// A run that belongs to nothing.
    pub fn plain(t: String, style: Style) -> (r: Run)
        ensures
            r@ == plain_run(t@, style),
    {
        Run { text: t, style, link: None, checkbox: None, image: None }
    }
}

/// A task marker that has yet to get its place in the output.
#[derive(Clone, Copy, Debug, PartialEq, Eq, Structural)]
pub struct PendingCheckbox {
    /// Byte offset in the source where the `[` stands.
    pub source_offset: usize,
    pub checked: bool,
}

/// Columns of the runs from `i` on, side by side.
pub open spec fn runs_width(runs: Seq<RunView>) -> usize
    decreases runs.len(),
{
    if runs.len() == 0 {
        0
    } else {
        text::sat(runs_width(runs.drop_last()) + text::display_width(runs.last().text))
    }
}

/// Sums the columns of `runs`.
pub fn measure(runs: &[Run]) -> (w: usize)
    ensures
        w == runs_width(views::views(runs@)),
{
    let mut w: usize = 0;
    let mut i: usize = 0;
    while i < runs.len()
        invariant
            i <= runs@.len(),
            w == runs_width(views::views(runs@).take(i as int)),
        decreases runs@.len() - i,
    {
        w = w.saturating_add(str_width(&runs[i].text));
        i = i + 1;
        assert(views::views(runs@).take(i as int).drop_last() =~= views::views(runs@).take(i - 1));
    }
    assert(views::views(runs@).take(i as int) =~= views::views(runs@));
    w
}

/// The runs as spans.
pub open spec fn spans_of(runs: Seq<RunView>) -> Seq<style::SpanView> {
    Seq::new(runs.len(), |i: int| style::span(runs[i].text, runs[i].style))
}

/// Turns `runs` into spans.
pub fn to_spans(runs: &[Run]) -> (r: Vec<Span>)
    ensures
        views::views(r@) == spans_of(views::views(runs@)),
{
    let mut out: Vec<Span> = Vec::new();
    let mut i: usize = 0;
    while i < runs.len()
        invariant
            i <= runs@.len(),
            views::views(out@) == spans_of(views::views(runs@)).take(i as int),
        decreases runs@.len() - i,
    {
        out.push(Span::styled(runs[i].text.clone(), runs[i].style));
        i = i + 1;
        assert(views::views(out@) =~= spans_of(views::views(runs@)).take(i as int));
    }
    assert(spans_of(views::views(runs@)).take(i as int) =~= spans_of(views::views(runs@)));
    out
}

/// Everything a layout pass has put out so far, and the line it is working on.
#[derive(Debug)]
pub struct Pen {
    pub lines: Vec<Line>,
    pub links: Vec<LinkSpan>,
    pub boxes: Vec<CheckboxSpan>,
    /// For each image, the line of its placeholder once that is known.
    pub image_lines: Vec<Option<usize>>,
    /// The line in progress.
    pub spans: Vec<Span>,
    /// Its width so far.
    pub col: usize,
    /// Its width so far without the prefix.
    pub inner: usize,
    /// Whether the line holds nothing but its prefix.
    pub at_line_start: bool,
    /// Columns that the line has beside its prefix.
    pub room: usize,
    /// The link in progress, and the column where its part on this line begins.
    pub link: Option<usize>,
    pub link_start: usize,
}

/// The state of a [`Pen`].
#[verifier::ext_equal]
pub struct PenView {
    pub lines: Seq<Seq<style::SpanView>>,
    pub links: Seq<links::LinkSpanView>,
    pub boxes: Seq<CheckboxSpan>,
    pub image_lines: Seq<Option<usize>>,
    pub spans: Seq<style::SpanView>,
    pub col: usize,
    pub inner: usize,
    pub at_line_start: bool,
    pub room: usize,
    pub link: Option<usize>,
    pub link_start: usize,
}

impl View for Pen {
    type V = PenView;

    open spec fn view(&self) -> PenView {
        PenView {
            lines: views::views(self.lines@),
            links: views::views(self.links@),
            boxes: self.boxes@,
            image_lines: self.image_lines@,
            spans: views::views(self.spans@),
            col: self.col,
            inner: self.inner,
            at_line_start: self.at_line_start,
            room: self.room,
            link: self.link,
            link_start: self.link_start,
        }
    }
}

/// What stays the same while one block is wrapped.
pub struct Frame<'a> {
    /// Prefix of continuation lines.
    pub hanging: &'a [Run],
    pub hanging_width: usize,
    /// Columns of a continuation line beside its prefix.
    pub cont_room: usize,
    pub targets: &'a [LinkTarget],
    pub checkboxes: &'a [PendingCheckbox],
}

/// The contents of a [`Frame`].
pub struct FrameView {
    pub hanging: Seq<style::SpanView>,
    pub hanging_width: usize,
    pub cont_room: usize,
    pub targets: Seq<links::TargetView>,
    pub checkboxes: Seq<PendingCheckbox>,
}

impl<'a> View for Frame<'a> {
    type V = FrameView;

    open spec fn view(&self) -> FrameView {
        FrameView {
            hanging: spans_of(views::views(self.hanging@)),
            hanging_width: self.hanging_width,
            cont_room: self.cont_room,
            targets: views::views(self.targets@),
            checkboxes: self.checkboxes@,
        }
    }
}

impl PenView {
    /// Records the part of the link in progress that stands on this line, if it
    /// takes any columns.
    pub open spec fn link_closed(self, f: FrameView) -> PenView {
        match self.link {
            Some(li) if li < f.targets.len() && self.link_start < self.col => PenView {
                links: self.links.push(
                    links::LinkSpanView {
                        line: self.lines.len() as usize,
                        col_start: self.link_start,
                        col_end: self.col,
                        target: f.targets[li as int],
                    },
                ),
                ..self
            },
            _ => self,
        }
    }

    /// Ends the line and begins the next with the hanging prefix; a link in
    /// progress goes on there.
    pub open spec fn broken(self, f: FrameView) -> PenView {
        let p = self.link_closed(f);
        PenView {
            lines: p.lines.push(p.spans),
            spans: f.hanging,
            col: f.hanging_width,
            inner: 0,
            at_line_start: true,
            room: f.cont_room,
            link_start: f.hanging_width,
            ..p
        }
    }

    /// Appends a chunk of text to the line.
    pub open spec fn put(self, s: Style, chunk: Seq<char>) -> PenView {
        let w = text::display_width(chunk);
        PenView {
            spans: self.spans.push(style::span(chunk, s)),
            col: text::sat(self.col + w),
            inner: text::sat(self.inner + w),
            at_line_start: false,
            ..self
        }
    }

    /// Columns left on the line.
    pub open spec fn avail(self) -> usize {
        if self.room > self.inner {
            (self.room - self.inner) as usize
        } else {
            0
        }
    }

    /// Places a word that is wider than a line, character by character, filling
    /// each line as far as it goes.
    pub open spec fn split(self, f: FrameView, s: Style, word: Seq<char>, i: int) -> PenView
        decreases word.len() - i,
    {
        if i >= word.len() {
            self
        } else {
            let p = if self.avail() == 0 && !self.at_line_start {
                self.broken(f)
            } else {
                self
            };
            let limit = if p.avail() == 0 {
                1
            } else {
                p.avail() as int
            };
            let fit = fit_end(word, i, 0, limit);
            let e = if fit <= i {
                i + 1
            } else {
                fit
            };
            let q = p.put(s, word.subrange(i, e));
            if e < word.len() {
                q.broken(f).split(f, s, word, e)
            } else {
                q
            }
        }
    }

    /// Places one word or one stretch of white space.
    pub open spec fn placed(self, f: FrameView, s: Style, word: Seq<char>) -> PenView {
        let w = text::display_width(word);
        if text::is_space(word[0]) {
            if self.at_line_start {
                self
            } else if self.inner + w > self.room {
                self.broken(f)
            } else {
                self.put(s, word)
            }
        } else if w > self.room {
            self.split(f, s, word, 0)
        } else if self.inner + w > self.room && !self.at_line_start {
            self.broken(f).put(s, word)
        } else {
            self.put(s, word)
        }
    }

    /// Places the text from `i` on, alternating words and white space.
    pub open spec fn segment(self, f: FrameView, s: Style, t: Seq<char>, i: int) -> PenView
        decreases t.len() - i,
    {
        if i >= t.len() || i < 0 {
            self
        } else {
            proof {
                lemma_chunk_end(t, i, i + 1);
            }
            let e = chunk_end(t, i, i + 1);
            self.placed(f, s, t.subrange(i, e)).segment(f, s, t, e)
        }
    }

    /// Places the text from `i` on, with a line break at each newline.
    pub open spec fn flowed(self, f: FrameView, s: Style, t: Seq<char>, i: int) -> PenView
        decreases t.len() - i,
    {
        if i >= t.len() || i < 0 {
            self
        } else {
            proof {
                text::lemma_first_char(t, '\n', i);
            }
            match text::first_char(t, '\n', i) {
                Some(k) => self.segment(f, s, t.subrange(i, k), 0).broken(f).flowed(f, s, t, k + 1),
                None => self.segment(f, s, t.subrange(i, t.len() as int), 0),
            }
        }
    }

    /// Pins the line of an image's placeholder at its first appearance.
    pub open spec fn pinned(self, image: Option<usize>) -> PenView {
        match image {
            Some(ii) if ii < self.image_lines.len() && self.image_lines[ii as int] is None => PenView {
                image_lines: self.image_lines.update(
                    ii as int,
                    Some(self.lines.len() as usize),
                ),
                ..self
            },
            _ => self,
        }
    }

    /// Ends the link in progress and begins `link`, unless they are the same.
    pub open spec fn linked(self, f: FrameView, link: Option<usize>) -> PenView {
        if self.link == link {
            self
        } else {
            PenView { link, link_start: self.col, ..self.link_closed(f) }
        }
    }

    /// Records a task marker whose glyph was put out between `before` and now:
    /// where it began, or on the new line if it was pushed there.
    pub open spec fn boxed(self, f: FrameView, before: PenView, run: RunView) -> PenView {
        let w = text::display_width(run.text);
        let same = self.lines.len() == before.lines.len();
        let start = if same {
            before.col
        } else if self.col > w {
            (self.col - w) as usize
        } else {
            0
        };
        match run.checkbox {
            Some(ci) if ci < f.checkboxes.len() && start < self.col => PenView {
                boxes: self.boxes.push(
                    CheckboxSpan {
                        line: self.lines.len() as usize,
                        col_start: start,
                        col_end: self.col,
                        source_offset: f.checkboxes[ci as int].source_offset,
                        checked: f.checkboxes[ci as int].checked,
                    },
                ),
                ..self
            },
            _ => self,
        }
    }

    /// Puts out one run.
    pub open spec fn run(self, f: FrameView, r: RunView) -> PenView {
        self.pinned(r.image).linked(f, r.link).flowed(f, r.style, r.text, 0).boxed(f, self, r)
    }

    /// Puts out the first runs.
    pub open spec fn runs(self, f: FrameView, rs: Seq<RunView>) -> PenView
        decreases rs.len(),
    {
        if rs.len() == 0 {
            self
        } else {
            self.runs(f, rs.drop_last()).run(f, rs.last())
        }
    }

    /// Begins a block with the given prefix.
    pub open spec fn started(self, prefix: Seq<RunView>, width: usize) -> PenView {
        let pw = runs_width(prefix);
        PenView {
            spans: spans_of(prefix),
            col: pw,
            inner: 0,
            at_line_start: true,
            room: room_beside(width, pw),
            link: None,
            link_start: 0,
            ..self
        }
    }

    /// Ends a block: closes its link and its last line.
    pub open spec fn ended(self, f: FrameView) -> PenView {
        let p = self.link_closed(f);
        PenView { lines: p.lines.push(p.spans), spans: Seq::empty(), link: None, ..p }
    }

    /// Wraps one block of runs to `width`, with `prefix` before its first line
    /// and `hanging` before each continuation.
    pub open spec fn wrapped(
        self,
        runs: Seq<RunView>,
        prefix: Seq<RunView>,
        hanging: Seq<RunView>,
        width: usize,
        targets: Seq<links::TargetView>,
        checkboxes: Seq<PendingCheckbox>,
    ) -> PenView {
        let f = frame_view(hanging, width, targets, checkboxes);
        self.started(prefix, width).runs(f, runs).ended(f)
    }
}

/// Columns of a line of `width` beside a prefix of `taken`, at least one.
pub open spec fn room_beside(width: usize, taken: usize) -> usize {
    if width > taken {
        (width - taken) as usize
    } else {
        1
    }
}

/// The frame of a block.
pub open spec fn frame_view(
    hanging: Seq<RunView>,
    width: usize,
    targets: Seq<links::TargetView>,
    checkboxes: Seq<PendingCheckbox>,
) -> FrameView {
    FrameView {
        hanging: spans_of(hanging),
        hanging_width: runs_width(hanging),
        cont_room: room_beside(width, runs_width(hanging)),
        targets,
        checkboxes,
    }
}

/// End of the stretch of words or of white space that holds position `i`, where
/// the positions up to `j` are known to belong to it.
pub open spec fn chunk_end(t: Seq<char>, i: int, j: int) -> int
    decreases t.len() - j,
{
    if j >= t.len() {
        t.len() as int
    } else if text::is_space(t[j]) != text::is_space(t[i]) {
        j
    } else {
        chunk_end(t, i, j + 1)
    }
}

/// A stretch is not empty and ends within the text.
pub proof fn lemma_chunk_end(t: Seq<char>, i: int, j: int)
    requires
        j <= t.len(),
    ensures
        j <= chunk_end(t, i, j) <= t.len(),
    decreases t.len() - j,
{
    if j < t.len() && text::is_space(t[j]) == text::is_space(t[i]) {
        lemma_chunk_end(t, i, j + 1);
    }
}

/// How far the characters from `i` on fit into `limit` columns of which `used`
/// are taken.
pub open spec fn fit_end(t: Seq<char>, i: int, used: int, limit: int) -> int
    decreases t.len() - i,
{
    if i >= t.len() {
        i
    } else {
        let cw = text::display_width(seq![t[i]]);
        if used + cw > limit {
            i
        } else {
            fit_end(t, i + 1, used + cw, limit)
        }
    }
}

/// Finds the end of a stretch of words or of white space.
fn find_chunk_end(t: &[char], i: usize) -> (e: usize)
    requires
        i < t@.len(),
    ensures
        e == chunk_end(t@, i as int, i + 1),
        i < e <= t@.len(),
{
    let sp = text::space(t[i]);
    let mut j: usize = i + 1;
    while j < t.len()
        invariant
            i < j <= t@.len(),
            sp == text::is_space(t@[i as int]),
            chunk_end(t@, i as int, i + 1) == chunk_end(t@, i as int, j as int),
        decreases t@.len() - j,
    {
        if text::space(t[j]) != sp {
            return j;
        }
        j = j + 1;
    }
    j
}

/// Finds how many characters fit.
pub fn find_fit_end(t: &[char], i: usize, limit: usize) -> (e: usize)
    requires
        i <= t@.len(),
    ensures
        e == fit_end(t@, i as int, 0, limit as int),
        i <= e <= t@.len(),
{
    let mut j: usize = i;
    let mut used: usize = 0;
    while j < t.len()
        invariant
            i <= j <= t@.len(),
            used <= limit,
            fit_end(t@, i as int, 0, limit as int) == fit_end(
                t@,
                j as int,
                used as int,
                limit as int,
            ),
        decreases t@.len() - j,
    {
        let one = repeat_char(t[j], 1);
        assert(one@ =~= seq![t@[j as int]]);
        let cw = str_width(&one);
        if cw > limit - used {
            return j;
        }
        used = used + cw;
        j = j + 1;
    }
    j
}

impl Pen {
    fn close_link(&mut self, f: &Frame<'_>)
        ensures
            final(self)@ == old(self)@.link_closed(f@),
    {
        match self.link {
            Some(li) => {
                if li < f.targets.len() && self.link_start < self.col {
                    self.links.push(
                        LinkSpan {
                            line: self.lines.len(),
                            col_start: self.link_start,
                            col_end: self.col,
                            target: f.targets[li].clone(),
                        },
                    );
                }
            },
            None => {},
        }
    }

    fn break_line(&mut self, f: &Frame<'_>)
        ensures
            final(self)@ == old(self)@.broken(f@),
    {
        self.close_link(f);
        let mut next = to_spans(f.hanging);
        std::mem::swap(&mut self.spans, &mut next);
        self.lines.push(Line { spans: next });
        self.col = f.hanging_width;
        self.inner = 0;
        self.at_line_start = true;
        self.room = f.cont_room;
        self.link_start = f.hanging_width;
    }

    fn put_chunk(&mut self, style: Style, chunk: String)
        ensures
            final(self)@ == old(self)@.put(style, chunk@),
    {
        let w = str_width(&chunk);
        self.spans.push(Span::styled(chunk, style));
        self.col = self.col.saturating_add(w);
        self.inner = self.inner.saturating_add(w);
        self.at_line_start = false;
    }

    fn split_word(&mut self, f: &Frame<'_>, style: Style, word: &[char])
        ensures
            final(self)@ == old(self)@.split(f@, style, word@, 0),
    {
        let mut i: usize = 0;
        while i < word.len()
            invariant
                i <= word@.len(),
                self@.split(f@, style, word@, i as int) == old(self)@.split(f@, style, word@, 0),
            decreases word@.len() - i,
        {
            if self.room <= self.inner && !self.at_line_start {
                self.break_line(f);
            }
            let limit: usize = if self.room > self.inner {
                self.room - self.inner
            } else {
                1
            };
            let fit = find_fit_end(word, i, limit);
            let e: usize = if fit <= i {
                i + 1
            } else {
                fit
            };
            self.put_chunk(style, from_chars(word, i, e));
            if e < word.len() {
                self.break_line(f);
            }
            i = e;
        }
    }

    fn place(&mut self, f: &Frame<'_>, style: Style, word: &[char])
        requires
            word@.len() > 0,
        ensures
            final(self)@ == old(self)@.placed(f@, style, word@),
    {
        let n = word.len();
        let owned = from_chars(word, 0, n);
        assert(owned@ =~= word@);
        let w = str_width(&owned);
        let over = self.inner > self.room || w > self.room - self.inner;
        if text::space(word[0]) {
            if self.at_line_start {
            } else if over {
                self.break_line(f);
            } else {
                self.put_chunk(style, owned);
            }
        } else if w > self.room {
            self.split_word(f, style, word);
        } else {
            if over && !self.at_line_start {
                self.break_line(f);
            }
            self.put_chunk(style, owned);
        }
    }

    /// Word-wraps text without newlines.
    fn emit_segment(&mut self, f: &Frame<'_>, style: Style, t: &[char])
        ensures
            final(self)@ == old(self)@.segment(f@, style, t@, 0),
    {
        let mut i: usize = 0;
        while i < t.len()
            invariant
                i <= t@.len(),
                self@.segment(f@, style, t@, i as int) == old(self)@.segment(f@, style, t@, 0),
            decreases t@.len() - i,
        {
            let e = find_chunk_end(t, i);
            self.place(f, style, vstd::slice::slice_subrange(t, i, e));
            i = e;
        }
    }

    fn emit_text(&mut self, f: &Frame<'_>, style: Style, t: &[char])
        ensures
            final(self)@ == old(self)@.flowed(f@, style, t@, 0),
    {
        let n = t.len();
        let mut i: usize = 0;
        while i < n
            invariant
                n == t@.len(),
                i <= n,
                self@.flowed(f@, style, t@, i as int) == old(self)@.flowed(f@, style, t@, 0),
            decreases n - i,
        {
            match find_char(t, '\n', i) {
                Some(k) => {
                    self.emit_segment(f, style, vstd::slice::slice_subrange(t, i, k));
                    self.break_line(f);
                    i = k + 1;
                },
                None => {
                    self.emit_segment(f, style, vstd::slice::slice_subrange(t, i, n));
                    i = n;
                },
            }
        }
    }

    fn emit_run(&mut self, f: &Frame<'_>, run: &Run)
        ensures
            final(self)@ == old(self)@.run(f@, run@),
    {
        let start_line = self.lines.len();
        let start_col = self.col;
        match run.image {
            Some(ii) => {
                if ii < self.image_lines.len() && self.image_lines[ii].is_none() {
                    self.image_lines.set(ii, Some(start_line));
                }
            },
            None => {},
        }
        assert(self@ =~= old(self)@.pinned(run.image));
        if !same_index(self.link, run.link) {
            self.close_link(f);
            self.link = run.link;
            self.link_start = self.col;
        }
        let cs = to_chars(&run.text);
        self.emit_text(f, run.style, &cs);
        match run.checkbox {
            Some(ci) => {
                let line = self.lines.len();
                let start: usize = if line == start_line {
                    start_col
                } else {
                    self.col.saturating_sub(str_width(&run.text))
                };
                if ci < f.checkboxes.len() && start < self.col {
                    self.boxes.push(
                        CheckboxSpan {
                            line,
                            col_start: start,
                            col_end: self.col,
                            source_offset: f.checkboxes[ci].source_offset,
                            checked: f.checkboxes[ci].checked,
                        },
                    );
                }
            },
            None => {},
        }
    }

    /// Wraps `runs` to `width`, with `prefix` before the first display line and
    /// `hanging` before each continuation. A link that goes over several lines
    /// gets one [`LinkSpan`] for each line it covers.
    pub fn wrap_runs(
        &mut self,
        runs: &[Run],
        prefix: &[Run],
        hanging: &[Run],
        width: usize,
        targets: &[LinkTarget],
        checkboxes: &[PendingCheckbox],
    )
        ensures
            final(self)@ == old(self)@.wrapped(
                views::views(runs@),
                views::views(prefix@),
                views::views(hanging@),
                width,
                views::views(targets@),
                checkboxes@,
            ),
    {
        let prefix_width = measure(prefix);
        let hanging_width = measure(hanging);
        let f = Frame {
            hanging,
            hanging_width,
            cont_room: if width > hanging_width {
                width - hanging_width
            } else {
                1
            },
            targets,
            checkboxes,
        };
        self.spans = to_spans(prefix);
        self.col = prefix_width;
        self.inner = 0;
        self.at_line_start = true;
        self.room = if width > prefix_width {
            width - prefix_width
        } else {
            1
        };
        self.link = None;
        self.link_start = 0;
        let ghost start = self@;
        let mut i: usize = 0;
        while i < runs.len()
            invariant
                i <= runs@.len(),
                self@ == start.runs(f@, views::views(runs@).take(i as int)),
            decreases runs@.len() - i,
        {
            self.emit_run(&f, &runs[i]);
            i = i + 1;
            assert(views::views(runs@).take(i as int).drop_last() =~= views::views(runs@).take(
                i - 1,
            ));
        }
        assert(views::views(runs@).take(i as int) =~= views::views(runs@));
        self.close_link(&f);
        let mut last: Vec<Span> = Vec::new();
        std::mem::swap(&mut self.spans, &mut last);
        self.lines.push(Line { spans: last });
        self.link = None;
    }
}

pub fn same_index(a: Option<usize>, b: Option<usize>) -> (r: bool)
    ensures
        r == (a == b),
{
    match (a, b) {
        (Some(x), Some(y)) => x == y,
        (None, None) => true,
        _ => false,
    }
}

} // verus!
