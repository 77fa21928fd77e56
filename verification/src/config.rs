//! User settings.

use vstd::prelude::*;
use crate::diff;
use crate::diff::split_lines;
use crate::numbers;
use crate::numbers::parse_within;
use crate::text;
use crate::text::{find_char, from_chars, same_text, space, to_chars};
use crate::views;

verus! {

broadcast use crate::views::group_views;

/// Settings of the configuration file; what it leaves out is `None`.
#[derive(Debug)]
pub struct Config {
    /// `dark`, `light` or `auto`.
    pub theme: Option<String>,
    /// Word-wrap width, zero for the terminal's.
    pub width: Option<u16>,
    pub line_numbers: Option<bool>,
}

impl Default for Config {
    fn default() -> (r: Config)
        ensures
            r.theme is None,
            r.width is None,
            r.line_numbers is None,
    {
        Config { theme: None, width: None, line_numbers: None }
    }
}

impl Config {
    /// The wrap width in force: the command line's unless that is zero.
    pub fn effective_width(&self, flag: u16) -> (w: u16)
        ensures
            w == (if flag != 0 {
                flag
            } else {
                match self.width {
                    Some(n) => n,
                    None => 0,
                }
            }),
    {
        if flag != 0 {
            flag
        } else {
            match self.width {
                Some(n) => n,
                None => 0,
            }
        }
    }

    /// Whether line numbers are shown: by flag or by configuration.
    pub fn effective_line_numbers(&self, flag: bool) -> (b: bool)
        ensures
            b == (flag || self.line_numbers == Some(true)),
    {
        flag || match self.line_numbers {
            Some(b) => b,
            None => false,
        }
    }
}

// ---------------------------------------------------------------------------
// The configuration file
// ---------------------------------------------------------------------------

/// What a [`Config`] holds.
#[verifier::ext_equal]
pub struct ConfigModel {
    pub theme: Option<Seq<char>>,
    pub width: Option<u16>,
    pub line_numbers: Option<bool>,
}

impl View for Config {
    type V = ConfigModel;

    open spec fn view(&self) -> ConfigModel {
        ConfigModel {
            theme: views::opt_view(self.theme),
            width: self.width,
            line_numbers: self.line_numbers,
        }
    }
}

/// Where the comment of a line begins: at the first `#` outside quotes.
pub open spec fn comment_start(t: Seq<char>, i: int, quoted: bool) -> int
    decreases t.len() - i,
{
    if i >= t.len() {
        t.len() as int
    } else if t[i] == '#' && !quoted {
        i
    } else {
        comment_start(t, i + 1, quoted != (t[i] == '"'))
    }
}

/// First position from `i` on that is not white space.
pub open spec fn text_start(t: Seq<char>, i: int) -> int
    decreases t.len() - i,
{
    if 0 <= i < t.len() && text::is_space(t[i]) {
        text_start(t, i + 1)
    } else {
        i
    }
}

/// End of what is not white space before `n`, from `from` on.
pub open spec fn text_end(t: Seq<char>, from: int, n: int) -> int
    decreases n,
{
    if from < n && 0 < n <= t.len() && text::is_space(t[n - 1]) {
        text_end(t, from, n - 1)
    } else {
        n
    }
}

/// A text without white space around it.
pub open spec fn trimmed(t: Seq<char>) -> Seq<char> {
    let a = text_start(t, 0);
    t.subrange(a, text_end(t, a, t.len() as int))
}

/// Key and value of a line; `None` where it sets nothing.
pub open spec fn setting(line: Seq<char>) -> Option<(Seq<char>, Seq<char>)> {
    let t = line.take(comment_start(line, 0, false));
    match text::first_char(t, '=', 0) {
        Some(k) => Some((trimmed(t.take(k)), trimmed(t.skip(k + 1)))),
        None => None,
    }
}

/// The text between the quotes of a string.
pub open spec fn unquoted(v: Seq<char>) -> Option<Seq<char>> {
    if v.len() >= 2 && v[0] == '"' && v.last() == '"' {
        Some(v.subrange(1, v.len() - 1))
    } else {
        None
    }
}

impl ConfigModel {
    /// The settings with one more. Unknown keys and values of another kind set
    /// nothing.
    pub open spec fn set(self, key: Seq<char>, v: Seq<char>) -> ConfigModel {
        if key == "theme"@ {
            match unquoted(v) {
                Some(name) => ConfigModel { theme: Some(name), ..self },
                None => self,
            }
        } else if key == "width"@ {
            match numbers::value_within(v, 65535) {
                Some(n) => ConfigModel { width: Some(n as u16), ..self },
                None => self,
            }
        } else if key == "line_numbers"@ {
            if v == "true"@ {
                ConfigModel { line_numbers: Some(true), ..self }
            } else if v == "false"@ {
                ConfigModel { line_numbers: Some(false), ..self }
            } else {
                self
            }
        } else {
            self
        }
    }

    /// The settings after the first `n` lines of a file.
    pub open spec fn after_lines(self, lines: Seq<Seq<char>>, n: int) -> ConfigModel
        decreases n,
    {
        if n <= 0 {
            self
        } else {
            let before = self.after_lines(lines, n - 1);
            match setting(lines[n - 1]) {
                Some((key, v)) => before.set(key, v),
                None => before,
            }
        }
    }
}

/// The settings of a configuration file.
pub open spec fn configured(t: Seq<char>) -> ConfigModel {
    let lines = diff::lines_from(t, 0);
    ConfigModel { theme: None, width: None, line_numbers: None }.after_lines(
        lines,
        lines.len() as int,
    )
}

fn find_comment(cs: &[char]) -> (k: usize)
    ensures
        k == comment_start(cs@, 0, false),
        k <= cs@.len(),
{
    let mut quoted = false;
    let mut i: usize = 0;
    while i < cs.len()
        invariant
            i <= cs@.len(),
            comment_start(cs@, 0, false) == comment_start(cs@, i as int, quoted),
        decreases cs@.len() - i,
    {
        if cs[i] == '#' && !quoted {
            return i;
        }
        if cs[i] == '"' {
            quoted = !quoted;
        }
        i = i + 1;
    }
    i
}

/// The characters `from..to` without white space around them.
fn trim(cs: &[char], from: usize, to: usize) -> (r: String)
    requires
        from <= to <= cs@.len(),
    ensures
        r@ == trimmed(cs@.subrange(from as int, to as int)),
{
    let ghost t = cs@.subrange(from as int, to as int);
    let mut a: usize = from;
    while a < to && space(cs[a])
        invariant
            from <= a <= to <= cs@.len(),
            t == cs@.subrange(from as int, to as int),
            text_start(t, 0) == text_start(t, a - from),
        decreases to - a,
    {
        assert(t[a - from] == cs@[a as int]);
        a = a + 1;
    }
    if a < to {
        assert(t[a - from] == cs@[a as int]);
    }
    let mut b: usize = to;
    while b > a && space(cs[b - 1])
        invariant
            from <= a <= b <= to <= cs@.len(),
            t == cs@.subrange(from as int, to as int),
            text_end(t, a - from, to - from) == text_end(t, a - from, b - from),
        decreases b,
    {
        assert(t[b - from - 1] == cs@[b - 1]);
        b = b - 1;
    }
    if b > a {
        assert(t[b - from - 1] == cs@[b - 1]);
    }
    assert(t.subrange(a - from, b - from) =~= cs@.subrange(a as int, b as int));
    from_chars(cs, a, b)
}

impl Config {
    fn set(&mut self, key: &str, v: &str)
        ensures
            final(self)@ == old(self)@.set(key@, v@),
    {
        let cs = to_chars(v);
        let n = cs.len();
        if same_text(key, "theme") {
            if n >= 2 && cs[0] == '"' && cs[n - 1] == '"' {
                self.theme = Some(from_chars(&cs, 1, n - 1));
            }
        } else if same_text(key, "width") {
            match parse_within(&cs, 65535) {
                Some(w) => {
                    self.width = Some(w as u16);
                },
                None => {},
            }
        } else if same_text(key, "line_numbers") {
            if same_text(v, "true") {
                self.line_numbers = Some(true);
            } else if same_text(v, "false") {
                self.line_numbers = Some(false);
            }
        }
    }

    fn set_line(&mut self, line: &str)
        ensures
            final(self)@ == (match setting(line@) {
                Some((key, v)) => old(self)@.set(key, v),
                None => old(self)@,
            }),
    {
        let cs = to_chars(line);
        let end = find_comment(&cs);
        let t = vstd::slice::slice_subrange(&cs, 0, end);
        assert(t@ =~= cs@.take(end as int));
        match find_char(t, '=', 0) {
            Some(k) => {
                let key = trim(t, 0, k);
                let v = trim(t, k + 1, end);
                assert(t@.subrange(0, k as int) =~= t@.take(k as int));
                assert(t@.subrange(k + 1, end as int) =~= t@.skip(k + 1));
                self.set(&key, &v);
            },
            None => {},
        }
    }

    /// Reads a configuration file: lines of a key, `=` and a value, and comments.
    pub fn read(t: &str) -> (r: Config)
        ensures
            r@ == configured(t@),
    {
        let lines = split_lines(t);
        let ghost lv = views::views(lines@);
        let mut c = Config { theme: None, width: None, line_numbers: None };
        let ghost start = c@;
        let mut i: usize = 0;
        while i < lines.len()
            invariant
                lv == views::views(lines@),
                i <= lines@.len(),
                start == (ConfigModel { theme: None, width: None, line_numbers: None }),
                c@ == start.after_lines(lv, i as int),
            decreases lines@.len() - i,
        {
            c.set_line(&lines[i]);
            i = i + 1;
        }
        c
    }
}

} // verus!
