//! Terminal styling as plain data: colors, modifiers, styled spans and lines.

use vstd::prelude::*;
use crate::views;

verus! {

/// A terminal color.
#[derive(Clone, Copy, Debug, PartialEq, Eq, Structural)]
pub enum Color {
    Reset,
    Black,
    Red,
    Green,
    Yellow,
    Blue,
    Magenta,
    Cyan,
    Gray,
    DarkGray,
    LightRed,
    LightGreen,
    LightYellow,
    LightBlue,
    LightMagenta,
    LightCyan,
    White,
    Rgb(u8, u8, u8),
    Indexed(u8),
}

/// A set of text attributes.
#[derive(Clone, Copy, Debug, PartialEq, Eq, Structural)]
pub struct Modifier {
    pub bold: bool,
    pub dim: bool,
    pub italic: bool,
    pub underlined: bool,
    pub reversed: bool,
    pub crossed_out: bool,
}

impl Modifier {
    #[verifier::allow_in_spec]
    pub fn empty() -> Modifier
        returns
            (Modifier {
                bold: false,
                dim: false,
                italic: false,
                underlined: false,
                reversed: false,
                crossed_out: false,
            }),
    {
        Modifier {
            bold: false,
            dim: false,
            italic: false,
            underlined: false,
            reversed: false,
            crossed_out: false,
        }
    }

    #[verifier::allow_in_spec]
    pub fn bold() -> Modifier
        returns
            (Modifier { bold: true, ..Modifier::empty() }),
    {
        Modifier { bold: true, ..Modifier::empty() }
    }

    #[verifier::allow_in_spec]
    pub fn dim() -> Modifier
        returns
            (Modifier { dim: true, ..Modifier::empty() }),
    {
        Modifier { dim: true, ..Modifier::empty() }
    }

    #[verifier::allow_in_spec]
    pub fn italic() -> Modifier
        returns
            (Modifier { italic: true, ..Modifier::empty() }),
    {
        Modifier { italic: true, ..Modifier::empty() }
    }

    #[verifier::allow_in_spec]
    pub fn underlined() -> Modifier
        returns
            (Modifier { underlined: true, ..Modifier::empty() }),
    {
        Modifier { underlined: true, ..Modifier::empty() }
    }

    #[verifier::allow_in_spec]
    pub fn reversed() -> Modifier
        returns
            (Modifier { reversed: true, ..Modifier::empty() }),
    {
        Modifier { reversed: true, ..Modifier::empty() }
    }

    #[verifier::allow_in_spec]
    pub fn crossed_out() -> Modifier
        returns
            (Modifier { crossed_out: true, ..Modifier::empty() }),
    {
        Modifier { crossed_out: true, ..Modifier::empty() }
    }

    /// The attributes of both sets.
    #[verifier::allow_in_spec]
    pub fn with(self, other: Modifier) -> Modifier
        returns
            (Modifier {
                bold: self.bold || other.bold,
                dim: self.dim || other.dim,
                italic: self.italic || other.italic,
                underlined: self.underlined || other.underlined,
                reversed: self.reversed || other.reversed,
                crossed_out: self.crossed_out || other.crossed_out,
            }),
    {
        Modifier {
            bold: self.bold || other.bold,
            dim: self.dim || other.dim,
            italic: self.italic || other.italic,
            underlined: self.underlined || other.underlined,
            reversed: self.reversed || other.reversed,
            crossed_out: self.crossed_out || other.crossed_out,
        }
    }
}

/// Foreground, background and attributes of a piece of text. `None` leaves the
/// terminal's own color.
#[derive(Clone, Copy, Debug, PartialEq, Eq, Structural)]
pub struct Style {
    pub fg: Option<Color>,
    pub bg: Option<Color>,
    pub add_modifier: Modifier,
}

impl Style {
    /// The style that changes nothing.
    #[verifier::allow_in_spec]
    pub fn plain() -> Style
        returns
            (Style { fg: None, bg: None, add_modifier: Modifier::empty() }),
    {
        Style { fg: None, bg: None, add_modifier: Modifier::empty() }
    }

    #[verifier::allow_in_spec]
    pub fn fg(self, c: Color) -> Style
        returns
            (Style { fg: Some(c), ..self }),
    {
        Style { fg: Some(c), ..self }
    }

    #[verifier::allow_in_spec]
    pub fn bg(self, c: Color) -> Style
        returns
            (Style { bg: Some(c), ..self }),
    {
        Style { bg: Some(c), ..self }
    }

    /// Sets the background where a color is given.
    #[verifier::allow_in_spec]
    pub fn bg_opt(self, c: Option<Color>) -> Style
        returns
            (match c {
                Some(col) => self.bg(col),
                None => self,
            }),
    {
        match c {
            Some(col) => self.bg(col),
            None => self,
        }
    }

    #[verifier::allow_in_spec]
    pub fn add_modifier(self, m: Modifier) -> Style
        returns
            (Style { add_modifier: self.add_modifier.with(m), ..self }),
    {
        Style { add_modifier: self.add_modifier.with(m), ..self }
    }
}

/// A piece of text in one style.
#[derive(Debug)]
pub struct Span {
    pub content: String,
    pub style: Style,
}

/// What a [`Span`] shows.
pub struct SpanView {
    pub content: Seq<char>,
    pub style: Style,
}

impl View for Span {
    type V = SpanView;

    open spec fn view(&self) -> SpanView {
        SpanView { content: self.content@, style: self.style }
    }
}

/// The span of `content` in `style`.
pub open spec fn span(content: Seq<char>, style: Style) -> SpanView {
    SpanView { content, style }
}

impl Clone for Span {
    fn clone(&self) -> (r: Span)
        ensures
            r@ == self@,
    {
        Span { content: self.content.clone(), style: self.style }
    }
}

impl Span {
    pub fn styled(content: String, style: Style) -> (r: Span)
        ensures
            r@ == span(content@, style),
    {
        Span { content, style }
    }

    pub fn raw(content: String) -> (r: Span)
        ensures
            r@ == span(content@, Style::plain()),
    {
        Span { content, style: Style::plain() }
    }
}

/// One display line.
#[derive(Debug)]
pub struct Line {
    pub spans: Vec<Span>,
}

impl View for Line {
    type V = Seq<SpanView>;

    open spec fn view(&self) -> Seq<SpanView> {
        views::views(self.spans@)
    }
}

impl Clone for Line {
    fn clone(&self) -> (r: Line)
        ensures
            r@ == self@,
    {
        Line { spans: views::copy_all(&self.spans) }
    }
}

} // verus!
