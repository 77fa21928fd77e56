//! Color themes and the choice between them.

use vstd::prelude::*;
use crate::config::Config;
use crate::numbers;
use crate::numbers::parse_within;
use crate::palette;
use crate::style::{Color, Modifier, Style};
use crate::text::{same_text, to_chars};

verus! {

/// Colors and attributes of everything that is drawn.
#[derive(Debug)]
pub struct Theme {
    pub name: String,
    pub fg: Color,
    pub bg: Option<Color>,
    pub muted: Color,
    pub heading: [Color; 6],
    pub heading_modifier: Modifier,
    pub emphasis: Modifier,
    pub strong: Modifier,
    pub code_fg: Color,
    pub code_bg: Option<Color>,
    pub link: Color,
    pub link_focused: Color,
    pub link_modifier: Modifier,
    pub quote: Color,
    pub list_marker: Color,
    pub rule: Color,
    pub strikethrough: Modifier,
    pub status_fg: Color,
    pub status_bg: Color,
    pub syntect_theme: String,
}

impl Theme {
    /// Attributes that both themes share.
    pub open spec fn common(&self) -> bool {
        &&& self.fg == Color::Reset
        &&& self.bg is None
        &&& self.heading_modifier == Modifier::bold()
        &&& self.emphasis == Modifier::italic()
        &&& self.strong == Modifier::bold()
        &&& self.link_modifier == Modifier::underlined()
        &&& self.strikethrough == Modifier::crossed_out()
    }

    /// The theme for dark terminals.
    pub open spec fn is_dark(&self) -> bool {
        &&& self.common()
        &&& self.name@ == "dark"@
        &&& self.muted == Color::DarkGray
        &&& self.heading@ == seq![
            Color::LightMagenta,
            Color::LightCyan,
            Color::LightBlue,
            Color::LightYellow,
            Color::LightGreen,
            Color::Gray,
        ]
        &&& self.code_fg == Color::Rgb(0xe6, 0xdb, 0x74)
        &&& self.code_bg == Some(Color::Rgb(0x26, 0x26, 0x26))
        &&& self.link == Color::Cyan
        &&& self.link_focused == Color::LightYellow
        &&& self.quote == Color::Gray
        &&& self.list_marker == Color::LightBlue
        &&& self.rule == Color::DarkGray
        &&& self.status_fg == Color::Black
        &&& self.status_bg == Color::LightBlue
        &&& self.syntect_theme@ == "base16-ocean.dark"@
    }

    /// The theme for light terminals.
    pub open spec fn is_light(&self) -> bool {
        &&& self.common()
        &&& self.name@ == "light"@
        &&& self.muted == Color::Gray
        &&& self.heading@ == seq![
            Color::Magenta,
            Color::Blue,
            Color::Cyan,
            Color::Rgb(0x98, 0x71, 0x00),
            Color::Green,
            Color::DarkGray,
        ]
        &&& self.code_fg == Color::Rgb(0x88, 0x55, 0x00)
        &&& self.code_bg == Some(Color::Rgb(0xee, 0xee, 0xee))
        &&& self.link == Color::Blue
        &&& self.link_focused == Color::Rgb(0xc8, 0x66, 0x00)
        &&& self.quote == Color::DarkGray
        &&& self.list_marker == Color::Blue
        &&& self.rule == Color::Gray
        &&& self.status_fg == Color::White
        &&& self.status_bg == Color::Blue
        &&& self.syntect_theme@ == "InspiredGitHub"@
    }

    pub fn dark() -> (r: Theme)
        ensures
            r.is_dark(),
    {
        Theme {
            name: "dark".to_string(),
            fg: Color::Reset,
            bg: None,
            muted: Color::DarkGray,
            heading: [
                Color::LightMagenta,
                Color::LightCyan,
                Color::LightBlue,
                Color::LightYellow,
                Color::LightGreen,
                Color::Gray,
            ],
            heading_modifier: Modifier::bold(),
            emphasis: Modifier::italic(),
            strong: Modifier::bold(),
            code_fg: Color::Rgb(0xe6, 0xdb, 0x74),
            code_bg: Some(Color::Rgb(0x26, 0x26, 0x26)),
            link: Color::Cyan,
            link_focused: Color::LightYellow,
            link_modifier: Modifier::underlined(),
            quote: Color::Gray,
            list_marker: Color::LightBlue,
            rule: Color::DarkGray,
            strikethrough: Modifier::crossed_out(),
            status_fg: Color::Black,
            status_bg: Color::LightBlue,
            syntect_theme: "base16-ocean.dark".to_string(),
        }
    }

    pub fn light() -> (r: Theme)
        ensures
            r.is_light(),
    {
        Theme {
            name: "light".to_string(),
            fg: Color::Reset,
            bg: None,
            muted: Color::Gray,
            heading: [
                Color::Magenta,
                Color::Blue,
                Color::Cyan,
                Color::Rgb(0x98, 0x71, 0x00),
                Color::Green,
                Color::DarkGray,
            ],
            heading_modifier: Modifier::bold(),
            emphasis: Modifier::italic(),
            strong: Modifier::bold(),
            code_fg: Color::Rgb(0x88, 0x55, 0x00),
            code_bg: Some(Color::Rgb(0xee, 0xee, 0xee)),
            link: Color::Blue,
            link_focused: Color::Rgb(0xc8, 0x66, 0x00),
            link_modifier: Modifier::underlined(),
            quote: Color::DarkGray,
            list_marker: Color::Blue,
            rule: Color::Gray,
            strikethrough: Modifier::crossed_out(),
            status_fg: Color::White,
            status_bg: Color::Blue,
            syntect_theme: "InspiredGitHub".to_string(),
        }
    }

    /// The style of body text.
    pub fn style_text(&self) -> (s: Style)
        ensures
            s == Style::plain().fg(self.fg),
    {
        Style::plain().fg(self.fg)
    }
}

/// What follows the last `;`.
pub open spec fn last_field(s: Seq<char>) -> Seq<char>
    decreases s.len(),
{
    if s.len() == 0 || s.last() == ';' {
        Seq::empty()
    } else {
        last_field(s.drop_last()).push(s.last())
    }
}

/// True when `COLORFGBG`, written `<fg>;<bg>`, names a light background: 7 or
/// more.
pub open spec fn light_background(v: Option<Seq<char>>) -> bool {
    v matches Some(s) && numbers::value_within(last_field(s), 255) matches Some(bg) && bg >= 7
}

fn has_light_background(v: &str) -> (r: bool)
    ensures
        r == light_background(Some(v@)),
{
    let cs = to_chars(v);
    let n = cs.len();
    let mut i: usize = n;
    assert(cs@.take(n as int) =~= cs@);
    assert(last_field(cs@) + cs@.skip(n as int) =~= last_field(cs@));
    while i > 0 && cs[i - 1] != ';'
        invariant
            i <= n,
            n == cs@.len(),
            last_field(cs@) == last_field(cs@.take(i as int)) + cs@.skip(i as int),
        decreases i,
    {
        proof {
            assert(cs@.take(i as int).drop_last() =~= cs@.take(i - 1));
            assert(last_field(cs@.take(i - 1)).push(cs@[i - 1]) + cs@.skip(i as int) =~= last_field(
                cs@.take(i - 1),
            ) + cs@.skip(i - 1));
        }
        i = i - 1;
    }
    proof {
        assert(last_field(cs@.take(i as int)) =~= Seq::<char>::empty());
        assert(last_field(cs@) =~= cs@.skip(i as int));
        assert(cs@.subrange(i as int, n as int) =~= cs@.skip(i as int));
    }
    match parse_within(vstd::slice::slice_subrange(&cs, i, n), 255) {
        Some(bg) => bg >= 7,
        None => false,
    }
}

/// The theme name in force: the configured one where the command line leaves it
/// open.
pub open spec fn chosen_name(name: Seq<char>, configured: Option<Seq<char>>) -> Seq<char> {
    if name == "auto"@ {
        match configured {
            Some(t) => t,
            None => "auto"@,
        }
    } else {
        name
    }
}

/// Picks the theme by name; any other name than `light` or `dark` leaves the
/// choice to the terminal's background.
pub fn resolve(name: &str, cfg: &Config, colorfgbg: Option<&str>) -> (r: Theme)
    ensures
        ({
            let n = chosen_name(name@, crate::views::opt_view(cfg.theme));
            if n == "light"@ || (n != "dark"@ && light_background(palette::opt_text(colorfgbg))) {
                r.is_light()
            } else {
                r.is_dark()
            }
        }),
{
    proof {
        reveal_strlit("light");
        reveal_strlit("dark");
        assert("light"@.len() == 5 && "dark"@.len() == 4);
    }
    let auto = same_text(name, "auto");
    let n: &str = if auto {
        match &cfg.theme {
            Some(t) => t.as_str(),
            None => "auto",
        }
    } else {
        name
    };
    if same_text(n, "light") {
        return Theme::light();
    }
    if same_text(n, "dark") {
        return Theme::dark();
    }
    match colorfgbg {
        Some(v) => {
            if has_light_background(v) {
                return Theme::light();
            }
        },
        None => {},
    }
    Theme::dark()
}

} // verus!
