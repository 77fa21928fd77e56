//! Syntax highlighting of code blocks.

use syntect::easy::HighlightLines;
use syntect::highlighting::{FontStyle, ThemeSet};
use syntect::parsing::{SyntaxReference, SyntaxSet};
use vstd::prelude::*;
use crate::palette;
use crate::palette::ColorDepth;
use crate::style;
use crate::style::{Modifier, Span, Style};
use crate::text;
use crate::text::{from_chars, to_chars};
use crate::views;

verus! {

broadcast use crate::views::group_views;

/// syntect's set of language definitions.
#[verifier::external_type_specification]
#[verifier::external_body]
pub struct ExSyntaxSet(SyntaxSet);

/// syntect's handle of one language definition.
#[verifier::external_type_specification]
#[verifier::external_body]
pub struct ExSyntaxReference(SyntaxReference);

/// syntect's set of color themes.
#[verifier::external_type_specification]
#[verifier::external_body]
pub struct ExThemeSet(ThemeSet);

/// syntect's line-by-line highlighter, with the state that a line hands on to
/// the next.
#[verifier::external_type_specification]
#[verifier::external_body]
pub struct ExHighlightLines<'a>(HighlightLines<'a>);

/// The language that a set finds for a short token such as `rs`.
pub uninterp spec fn token_syntax(set: SyntaxSet, token: Seq<char>) -> Option<SyntaxReference>;

/// The language that a set recognises by the first line of a text.
pub uninterp spec fn first_line_syntax(set: SyntaxSet, code: Seq<char>) -> Option<SyntaxReference>;

/// The plain-text language of a set.
pub uninterp spec fn plain_syntax(set: SyntaxSet) -> Option<SyntaxReference>;

/// Whether a language definition is one of a set.
pub uninterp spec fn in_set(set: SyntaxSet, syntax: SyntaxReference) -> bool;

/// Whether a highlighter may go on with the definitions of a set: those that its
/// language came with.
pub uninterp spec fn runs_on(hl: HighlightLines<'_>, set: SyntaxSet) -> bool;

/// Whether a set has a theme under a name.
pub uninterp spec fn has_theme(set: ThemeSet, name: Seq<char>) -> bool;

/// The first name of a set's themes.
pub uninterp spec fn first_theme(set: ThemeSet) -> Option<Seq<char>>;

/// A highlighter at the start of a text, for a language and the theme of a set
/// under a name.
pub uninterp spec fn highlighter_start(
    syntax: SyntaxReference,
    set: ThemeSet,
    name: Seq<char>,
) -> HighlightLines<'static>;

/// The colored regions of a line, `None` where the grammar fails on it.
pub uninterp spec fn line_regions(
    hl: HighlightLines<'_>,
    line: Seq<char>,
    set: SyntaxSet,
) -> Option<Seq<RegionView>>;

/// The highlighter after a line.
pub uninterp spec fn after_line(hl: HighlightLines<'_>, line: Seq<char>, set: SyntaxSet) -> HighlightLines<'_>;

/// A piece of a code line with the color and font that a theme gives it.
#[derive(Debug)]
pub struct Region {
    pub r: u8,
    pub g: u8,
    pub b: u8,
    pub bold: bool,
    pub italic: bool,
    pub underline: bool,
    pub text: String,
}

/// What a [`Region`] holds.
pub struct RegionView {
    pub r: u8,
    pub g: u8,
    pub b: u8,
    pub bold: bool,
    pub italic: bool,
    pub underline: bool,
    pub text: Seq<char>,
}

impl View for Region {
    type V = RegionView;

    open spec fn view(&self) -> RegionView {
        RegionView {
            r: self.r,
            g: self.g,
            b: self.b,
            bold: self.bold,
            italic: self.italic,
            underline: self.underline,
            text: self.text@,
        }
    }
}

/// `SyntaxSet::load_defaults_newlines` of syntect: the bundled language
/// definitions, plain text among them. Which others there are is left unsaid.
#[verifier::external_body]
fn load_syntaxes() -> (r: SyntaxSet)
    ensures
        plain_syntax(r) is Some,
{
    SyntaxSet::load_defaults_newlines()
}

/// `ThemeSet::load_defaults` of syntect: the bundled themes, at least one. Which
/// there are is left unsaid.
#[verifier::external_body]
fn load_themes() -> (r: ThemeSet)
    ensures
        first_theme(r) is Some,
{
    ThemeSet::load_defaults()
}

/// `SyntaxSet::find_syntax_by_token` of syntect: a fixed answer for each set and
/// token, which is a definition of the set.
#[verifier::external_body]
fn find_by_token<'a>(set: &'a SyntaxSet, token: &str) -> (r: Option<&'a SyntaxReference>)
    ensures
        match r {
            Some(x) => token_syntax(*set, token@) == Some(*x) && in_set(*set, *x),
            None => token_syntax(*set, token@) is None,
        },
{
    set.find_syntax_by_token(token)
}

/// `SyntaxSet::find_syntax_by_first_line` of syntect: a fixed answer for each
/// set and text, which is a definition of the set.
#[verifier::external_body]
fn find_by_first_line<'a>(set: &'a SyntaxSet, code: &str) -> (r: Option<&'a SyntaxReference>)
    ensures
        match r {
            Some(x) => first_line_syntax(*set, code@) == Some(*x) && in_set(*set, *x),
            None => first_line_syntax(*set, code@) is None,
        },
{
    set.find_syntax_by_first_line(code)
}

/// `SyntaxSet::find_syntax_plain_text` of syntect: a definition of the set. It panics
/// on a set without plain text.
#[verifier::external_body]
fn find_plain<'a>(set: &'a SyntaxSet) -> (r: &'a SyntaxReference)
    requires
        plain_syntax(*set) is Some,
    ensures
        plain_syntax(*set) == Some(*r),
        in_set(*set, *r),
{
    set.find_syntax_plain_text()
}

/// Whether syntect's `ThemeSet::themes` has an entry under a name.
#[verifier::external_body]
fn knows_theme(set: &ThemeSet, name: &str) -> (r: bool)
    ensures
        r == has_theme(*set, name@),
{
    set.themes.contains_key(name)
}

/// The first key of syntect's `ThemeSet::themes`, which is a name of the set.
#[verifier::external_body]
fn find_first_theme(set: &ThemeSet) -> (r: Option<String>)
    ensures
        views::opt_view(r) == first_theme(*set),
        r matches Some(n) ==> has_theme(*set, n@),
{
    set.themes.keys().next().cloned()
}

/// `HighlightLines::new` of syntect: a fixed initial state for each language and
/// theme. The theme must be one of the set. The state goes on with any set that the
/// language is of.
#[verifier::external_body]
fn start_highlighter<'a>(syntax: &SyntaxReference, set: &'a ThemeSet, name: &str) -> (r: HighlightLines<'a>)
    requires
        has_theme(*set, name@),
    ensures
        r == highlighter_start(*syntax, *set, name@),
        forall|g: SyntaxSet| in_set(g, *syntax) ==> #[trigger] runs_on(r, g),
{
    HighlightLines::new(syntax, &set.themes[name])
}

/// `HighlightLines::highlight_line` of syntect: the regions of the line and the
/// next state are functions of the state, the line and the set. The set must be one
/// that the state may go on with, as contexts are found in it by index; so may the next
/// state. Only the foreground color and three font attributes of a region are kept.
#[verifier::external_body]
fn highlight_line(hl: &mut HighlightLines<'_>, line: &str, set: &SyntaxSet) -> (r: Option<Vec<Region>>)
    requires
        runs_on(*old(hl), *set),
    ensures
        match r {
            Some(v) => line_regions(*old(hl), line@, *set) == Some(views::views(v@)),
            None => line_regions(*old(hl), line@, *set) is None,
        },
        *final(hl) == after_line(*old(hl), line@, *set),
        runs_on(*final(hl), *set),
{
    let regions = hl.highlight_line(line, set).ok()?;
    Some(regions.into_iter().map(|(s, t)| Region {
        r: s.foreground.r,
        g: s.foreground.g,
        b: s.foreground.b,
        bold: s.font_style.contains(FontStyle::BOLD),
        italic: s.font_style.contains(FontStyle::ITALIC),
        underline: s.font_style.contains(FontStyle::UNDERLINE),
        text: t.to_string(),
    }).collect())
}

// ---------------------------------------------------------------------------
// Spans of code
// ---------------------------------------------------------------------------

/// `s` without its trailing newlines.
pub open spec fn without_newlines(s: Seq<char>) -> Seq<char>
    decreases s.len(),
{
    if s.len() > 0 && s.last() == '\n' {
        without_newlines(s.drop_last())
    } else {
        s
    }
}

/// Drops trailing newlines.
fn trim_newlines(t: &str) -> (r: String)
    ensures
        r@ == without_newlines(t@),
{
    let cs = to_chars(t);
    let mut n: usize = cs.len();
    assert(cs@.take(n as int) =~= cs@);
    while n > 0 && cs[n - 1] == '\n'
        invariant
            n <= cs@.len(),
            without_newlines(cs@.take(n as int)) == without_newlines(cs@),
        decreases n,
    {
        assert(cs@.take(n as int).drop_last() =~= cs@.take(n - 1));
        n = n - 1;
    }
    assert(cs@.take(n as int) =~= cs@.subrange(0, n as int));
    from_chars(&cs, 0, n)
}

/// The style of a region on a terminal of the given depth.
pub open spec fn region_style(depth: ColorDepth, x: RegionView) -> Style {
    let s = Style::plain().fg(palette::shown(depth, x.r, x.g, x.b));
    Style {
        add_modifier: Modifier {
            bold: x.bold,
            italic: x.italic,
            underlined: x.underline,
            ..Modifier::empty()
        },
        ..s
    }
}

fn style_of(depth: ColorDepth, x: &Region) -> (s: Style)
    ensures
        s == region_style(depth, x@),
{
    let mut s = Style::plain().fg(palette::rgb(depth, x.r, x.g, x.b));
    if x.bold {
        s = s.add_modifier(Modifier::bold());
    }
    if x.italic {
        s = s.add_modifier(Modifier::italic());
    }
    if x.underline {
        s = s.add_modifier(Modifier::underlined());
    }
    s
}

/// The spans of a line's regions: trailing newlines dropped, and what is then
/// empty left out.
pub open spec fn region_spans(depth: ColorDepth, rs: Seq<RegionView>) -> Seq<style::SpanView>
    decreases rs.len(),
{
    if rs.len() == 0 {
        Seq::empty()
    } else {
        let before = region_spans(depth, rs.drop_last());
        let t = without_newlines(rs.last().text);
        if t.len() == 0 {
            before
        } else {
            before.push(style::span(t, region_style(depth, rs.last())))
        }
    }
}

fn to_region_spans(depth: ColorDepth, rs: &[Region]) -> (r: Vec<Span>)
    ensures
        views::views(r@) == region_spans(depth, views::views(rs@)),
{
    let ghost rv = views::views(rs@);
    let mut out: Vec<Span> = Vec::new();
    let mut i: usize = 0;
    while i < rs.len()
        invariant
            rv == views::views(rs@),
            i <= rs@.len(),
            views::views(out@) == region_spans(depth, rv.take(i as int)),
        decreases rs@.len() - i,
    {
        let t = trim_newlines(&rs[i].text);
        assert(rv.take(i + 1).drop_last() =~= rv.take(i as int));
        if !t.as_str().is_empty() {
            out.push(Span::styled(t, style_of(depth, &rs[i])));
        }
        i = i + 1;
    }
    assert(rv.take(i as int) =~= rv);
    out
}

/// End of the line that begins at `i`, its newline included.
pub open spec fn line_end(code: Seq<char>, i: int) -> int {
    match text::first_char(code, '\n', i) {
        Some(k) => k + 1,
        None => code.len() as int,
    }
}

/// The spans of one highlighted line.
pub open spec fn line_spans(
    depth: ColorDepth,
    hl: HighlightLines<'_>,
    line: Seq<char>,
    set: SyntaxSet,
) -> Seq<style::SpanView> {
    match line_regions(hl, line, set) {
        Some(rs) => region_spans(depth, rs),
        None => seq![style::span(without_newlines(line), Style::plain())],
    }
}

/// The spans of the lines of `code` from `i` on.
pub open spec fn code_spans(
    depth: ColorDepth,
    hl: HighlightLines<'_>,
    set: SyntaxSet,
    code: Seq<char>,
    i: int,
) -> Seq<Seq<style::SpanView>>
    decreases code.len() - i,
{
    if i < 0 || i >= code.len() {
        Seq::empty()
    } else {
        proof {
            text::lemma_first_char(code, '\n', i);
        }
        let e = line_end(code, i);
        let line = code.subrange(i, e);
        seq![line_spans(depth, hl, line, set)] + code_spans(
            depth,
            after_line(hl, line, set),
            set,
            code,
            e,
        )
    }
}

/// One line of highlighted code.
#[derive(Debug)]
pub struct CodeLine {
    pub spans: Vec<Span>,
}

impl View for CodeLine {
    type V = Seq<style::SpanView>;

    open spec fn view(&self) -> Seq<style::SpanView> {
        views::views(self.spans@)
    }
}

/// The loaded grammars and themes, and the depth of the terminal they are shown
/// on.
pub struct Highlighter {
    syntaxes: SyntaxSet,
    themes: ThemeSet,
    depth: ColorDepth,
}

impl Highlighter {
    #[verifier::type_invariant]
    spec fn loaded(&self) -> bool {
        plain_syntax(self.syntaxes) is Some && first_theme(self.themes) is Some
    }

    /// The color depth in force.
    pub closed spec fn color_depth(&self) -> ColorDepth {
        self.depth
    }

    pub closed spec fn syntax_set(&self) -> SyntaxSet {
        self.syntaxes
    }

    pub closed spec fn theme_set(&self) -> ThemeSet {
        self.themes
    }

    /// The language of a code block: that of its token, else that of its first
    /// line, else plain text.
    pub open spec fn language(&self, code: Seq<char>, token: Option<Seq<char>>) -> SyntaxReference {
        let by_token = match token {
            Some(t) => token_syntax(self.syntax_set(), t),
            None => None,
        };
        match by_token {
            Some(x) => x,
            None => match first_line_syntax(self.syntax_set(), code) {
                Some(x) => x,
                None => plain_syntax(self.syntax_set())->0,
            },
        }
    }

    /// The name of the theme in use: the given one, or the first of the set where
    /// there is none of that name.
    pub open spec fn theme_name(&self, name: Seq<char>) -> Seq<char> {
        if has_theme(self.theme_set(), name) {
            name
        } else {
            first_theme(self.theme_set())->0
        }
    }

    /// The spans of a code block, line by line.
    pub open spec fn highlighted(
        &self,
        code: Seq<char>,
        token: Option<Seq<char>>,
        theme: Seq<char>,
    ) -> Seq<Seq<style::SpanView>> {
        code_spans(
            self.color_depth(),
            highlighter_start(
                self.language(code, token),
                self.theme_set(),
                self.theme_name(theme),
            ),
            self.syntax_set(),
            code,
            0,
        )
    }

    /// Loads the bundled grammars and themes.
    pub fn new(depth: ColorDepth) -> (r: Highlighter)
        ensures
            r.color_depth() == depth,
    {
        Highlighter { syntaxes: load_syntaxes(), themes: load_themes(), depth }
    }

    /// Highlights `code`, each of its lines becoming one list of spans.
    pub fn highlight(&self, code: &str, lang_token: Option<&str>, theme_name: &str) -> (r: Vec<CodeLine>)
        ensures
            views::views(r@) == self.highlighted(
                code@,
                palette::opt_text(lang_token),
                theme_name@,
            ),
    {
        proof {
            use_type_invariant(self);
        }
        let by_token = match lang_token {
            Some(t) => find_by_token(&self.syntaxes, t),
            None => None,
        };
        let syntax = match by_token {
            Some(x) => x,
            None => match find_by_first_line(&self.syntaxes, code) {
                Some(x) => x,
                None => find_plain(&self.syntaxes),
            },
        };
        let mut hl = if knows_theme(&self.themes, theme_name) {
            start_highlighter(syntax, &self.themes, theme_name)
        } else {
            let first = find_first_theme(&self.themes).unwrap();
            start_highlighter(syntax, &self.themes, &first)
        };
        let cs = to_chars(code);
        let n = cs.len();
        let ghost whole = code_spans(self.depth, hl, self.syntaxes, cs@, 0);
        let mut out: Vec<CodeLine> = Vec::new();
        let mut i: usize = 0;
        while i < n
            invariant
                n == cs@.len(),
                i <= n,
                runs_on(hl, self.syntaxes),
                views::views(out@) + code_spans(self.depth, hl, self.syntaxes, cs@, i as int)
                    == whole,
            decreases n - i,
        {
            let e: usize = match text::find_char(&cs, '\n', i) {
                Some(k) => k + 1,
                None => n,
            };
            let line = from_chars(&cs, i, e);
            let ghost before = hl;
            let ghost prev = views::views(out@);
            let spans = match highlight_line(&mut hl, &line, &self.syntaxes) {
                Some(rs) => to_region_spans(self.depth, &rs),
                None => {
                    let mut raw: Vec<Span> = Vec::new();
                    raw.push(Span::raw(trim_newlines(&line)));
                    assert(views::views(raw@) =~= seq![
                        style::span(without_newlines(line@), Style::plain()),
                    ]);
                    raw
                },
            };
            out.push(CodeLine { spans });
            proof {
                let rest = code_spans(self.depth, hl, self.syntaxes, cs@, e as int);
                let one = line_spans(self.depth, before, line@, self.syntaxes);
                assert(prev + (seq![one] + rest) =~= views::views(out@) + rest);
            }
            i = e;
        }
        assert(views::views(out@) =~= whole);
        out
    }
}

} // verus!
