//! What is read line by line, and what is handed to the clipboard.

use vstd::arithmetic::div_mod::lemma_fundamental_div_mod_converse;
use vstd::prelude::*;
use vstd::utf8::encode_utf8;
use crate::clipboard;
use crate::config;
use crate::diff;
use crate::laws_blocks::with_newlines;
use crate::laws_wrap::is_blank;
use crate::numbers;
use crate::text;

verus! {

// ---------------------------------------------------------------------------
// Lines
// ---------------------------------------------------------------------------

/// Whether a text is one line, with no part of a line ending.
pub open spec fn is_line(l: Seq<char>) -> bool {
    &&& !l.contains('\n')
    &&& l.len() > 0 ==> l.last() != '\r'
}

pub open spec fn are_lines(ls: Seq<Seq<char>>) -> bool {
    forall|k: int| 0 <= k < ls.len() ==> is_line(#[trigger] ls[k])
}

proof fn lemma_newlines_front(l: Seq<char>, rest: Seq<Seq<char>>)
    ensures
        with_newlines(seq![l] + rest) == l.push('\n') + with_newlines(rest),
{
    let g = |x: Seq<char>| x.push('\n');
    let all = (seq![l] + rest).map_values(g);
    assert(all.drop_first() =~= rest.map_values(g));
}

proof fn lemma_lines_from(pre: Seq<char>, ls: Seq<Seq<char>>)
    requires
        are_lines(ls),
    ensures
        diff::lines_from(pre + with_newlines(ls), pre.len() as int) == ls,
    decreases ls.len(),
{
    let t = pre + with_newlines(ls);
    let i = pre.len() as int;
    if ls.len() == 0 {
        assert(with_newlines(ls) =~= Seq::<char>::empty());
        assert(ls =~= Seq::empty());
    } else {
        let l = ls[0];
        let rest = ls.drop_first();
        assert(ls =~= seq![l] + rest);
        lemma_newlines_front(l, rest);
        assert forall|k: int| 0 <= k < rest.len() implies is_line(#[trigger] rest[k]) by {
            assert(is_line(ls[k + 1]));
        }
        assert(is_line(ls[0]));
        let next = pre + l.push('\n');
        assert(t =~= next + with_newlines(rest));
        lemma_lines_from(next, rest);
        let e = i + l.len();
        text::lemma_first_char(t, '\n', i);
        assert(t[e] == '\n');
        assert(text::first_char(t, '\n', i) == Some(e)) by {
            let k = text::first_char(t, '\n', i)->0;
            if k < e {
                assert(l[k - i] == t[k]);
                assert(l.contains('\n'));
            }
        }
        assert(t.subrange(i, e) =~= l);
        assert(diff::without_cr(l) == l);
    }
}

/// Lines with a newline behind each are read as those lines.
pub proof fn law_lines_are_read(ls: Seq<Seq<char>>)
    requires
        are_lines(ls),
    ensures
        diff::lines_from(with_newlines(ls), 0) == ls,
{
    let none = Seq::<char>::empty();
    lemma_lines_from(none, ls);
    assert(none + with_newlines(ls) =~= with_newlines(ls));
}

// ---------------------------------------------------------------------------
// Diffs
// ---------------------------------------------------------------------------

proof fn lemma_begins(l: Seq<char>, p: Seq<char>)
    ensures
        text::begins_with(l, p) == p.is_prefix_of(l),
{
    if p.is_prefix_of(l) {
        assert(p =~= l.subrange(0, p.len() as int));
    }
    if text::begins_with(l, p) {
        assert(p =~= l.subrange(0, p.len() as int));
    }
}

/// A diff is shown line by line, in order and with the text of each line. A line with a
/// plus is an addition and one with a minus a removal, unless it names a file; a line
/// that begins with a space is neither. What adds or removes something is shown as it is.
pub proof fn law_diff_rows_are_its_lines(ls: Seq<Seq<char>>)
    requires
        are_lines(ls),
    ensures
        ({
            let rows = diff::diff_rows(diff::lines_from(with_newlines(ls), 0));
            &&& rows.len() == ls.len()
            &&& forall|i: int|
                0 <= i < ls.len() ==> {
                    let l = ls[i];
                    let kind = (#[trigger] rows[i]).0;
                    &&& rows[i].1 == l
                    &&& (kind is Added) == (l.len() > 0 && l[0] == '+' && !"+++"@.is_prefix_of(l))
                    &&& (kind is Removed) == (l.len() > 0 && l[0] == '-' && !"---"@.is_prefix_of(
                        l,
                    ))
                    &&& (kind is Hunk) == "@@"@.is_prefix_of(l)
                    &&& l.len() == 0 || l[0] == ' ' ==> kind is Context
                    &&& !(kind is Info)
                }
            &&& forall|i: int|
                0 <= i < ls.len() && ((#[trigger] rows[i]).0 is Added || rows[i].0 is Removed)
                    ==> diff::shown_rows(rows) == rows
        }),
{
    law_lines_are_read(ls);
    let rows = diff::diff_rows(ls);
    assert forall|i: int| 0 <= i < ls.len() implies {
        let l = ls[i];
        let kind = (#[trigger] rows[i]).0;
        &&& rows[i].1 == l
        &&& (kind is Added) == (l.len() > 0 && l[0] == '+' && !"+++"@.is_prefix_of(l))
        &&& (kind is Removed) == (l.len() > 0 && l[0] == '-' && !"---"@.is_prefix_of(l))
        &&& (kind is Hunk) == "@@"@.is_prefix_of(l)
        &&& l.len() == 0 || l[0] == ' ' ==> kind is Context
        &&& !(kind is Info)
    } by {
        let l = ls[i];
        lemma_kind(l);
    }
}

proof fn lemma_kind(l: Seq<char>)
    ensures
        ({
            let kind = diff::kind_of(l);
            &&& (kind is Added) == (l.len() > 0 && l[0] == '+' && !"+++"@.is_prefix_of(l))
            &&& (kind is Removed) == (l.len() > 0 && l[0] == '-' && !"---"@.is_prefix_of(l))
            &&& (kind is Hunk) == "@@"@.is_prefix_of(l)
            &&& l.len() == 0 || l[0] == ' ' ==> kind is Context
            &&& !(kind is Info)
        }),
{
    reveal_strlit("+++");
    reveal_strlit("---");
    reveal_strlit("@@");
    reveal_strlit("diff ");
    reveal_strlit("index ");
    reveal_strlit("new file");
    reveal_strlit("deleted file");
    reveal_strlit("rename ");
    reveal_strlit("similarity ");
    lemma_begins(l, "+++"@);
    lemma_begins(l, "---"@);
    lemma_begins(l, "@@"@);
    lemma_first(l, "+++"@);
    lemma_first(l, "---"@);
    lemma_first(l, "@@"@);
    lemma_first(l, "diff "@);
    lemma_first(l, "index "@);
    lemma_first(l, "new file"@);
    lemma_first(l, "deleted file"@);
    lemma_first(l, "rename "@);
    lemma_first(l, "similarity "@);
}

proof fn lemma_first(l: Seq<char>, p: Seq<char>)
    requires
        p.len() > 0,
    ensures
        text::begins_with(l, p) ==> l.len() > 0 && l[0] == p[0],
{
    lemma_begins(l, p);
    if p.is_prefix_of(l) {
        assert(p[0] == l.subrange(0, p.len() as int)[0]);
    }
}

// ---------------------------------------------------------------------------
// Settings
// ---------------------------------------------------------------------------

/// Whether a text begins and ends with no white space.
pub open spec fn is_trim(t: Seq<char>) -> bool {
    &&& t.len() > 0
    &&& !text::is_space(t[0])
    &&& !text::is_space(t.last())
}

/// Whether a text holds nothing that means something in a setting.
pub open spec fn is_word(t: Seq<char>) -> bool {
    forall|k: int|
        0 <= k < t.len() ==> #[trigger] t[k] != '"' && t[k] != '#' && t[k] != '='
}

/// A line that sets something: a key, an equals sign and a value, with white space around
/// them, and perhaps a comment.
pub struct Setting {
    pub s1: Seq<char>,
    pub key: Seq<char>,
    pub s2: Seq<char>,
    pub s3: Seq<char>,
    pub value: Seq<char>,
    pub s4: Seq<char>,
    pub comment: Seq<char>,
}

impl Setting {
    pub open spec fn head(self) -> Seq<char> {
        self.s1 + self.key + self.s2
    }

    pub open spec fn tail(self) -> Seq<char> {
        self.s3 + self.value + self.s4
    }

    pub open spec fn line(self) -> Seq<char> {
        self.head() + seq!['='] + self.tail() + self.comment
    }

    pub open spec fn is_ok(self) -> bool {
        &&& is_blank(self.s1)
        &&& is_blank(self.s2)
        &&& is_blank(self.s3)
        &&& is_blank(self.s4)
        &&& is_word(self.key)
        &&& is_trim(self.key)
        &&& self.comment.len() > 0 ==> self.comment[0] == '#'
        &&& is_line(self.line())
    }
}

proof fn lemma_comment_skip(t: Seq<char>, i: int, j: int, quoted: bool)
    requires
        0 <= i <= j <= t.len(),
        forall|k: int| i <= k < j ==> #[trigger] t[k] != '"' && (quoted || t[k] != '#'),
    ensures
        config::comment_start(t, i, quoted) == config::comment_start(t, j, quoted),
    decreases j - i,
{
    if i < j {
        assert(t[i] != '"');
        lemma_comment_skip(t, i + 1, j, quoted);
    }
}

proof fn lemma_text_start(t: Seq<char>, i: int, j: int)
    requires
        0 <= i <= j < t.len(),
        forall|k: int| i <= k < j ==> text::is_space(#[trigger] t[k]),
        !text::is_space(t[j]),
    ensures
        config::text_start(t, i) == j,
    decreases j - i,
{
    if i < j {
        assert(text::is_space(t[i]));
        lemma_text_start(t, i + 1, j);
    }
}

proof fn lemma_text_end(t: Seq<char>, from: int, n: int, e: int)
    requires
        0 <= from < e <= n <= t.len(),
        forall|k: int| e <= k < n ==> text::is_space(#[trigger] t[k]),
        !text::is_space(t[e - 1]),
    ensures
        config::text_end(t, from, n) == e,
    decreases n,
{
    if e < n {
        assert(text::is_space(t[n - 1]));
        lemma_text_end(t, from, n - 1, e);
    }
}

proof fn lemma_trimmed(a: Seq<char>, x: Seq<char>, b: Seq<char>)
    requires
        is_blank(a),
        is_blank(b),
        is_trim(x),
    ensures
        config::trimmed(a + x + b) == x,
{
    let t = a + x + b;
    let s = a.len() as int;
    let e = s + x.len();
    assert forall|k: int| 0 <= k < s implies text::is_space(#[trigger] t[k]) by {
        assert(t[k] == a[k]);
    }
    assert forall|k: int| e <= k < t.len() implies text::is_space(#[trigger] t[k]) by {
        assert(t[k] == b[k - e]);
    }
    assert(t[s] == x[0]);
    assert(t[e - 1] == x.last());
    lemma_text_start(t, 0, s);
    lemma_text_end(t, s, t.len() as int, e);
    assert(t.subrange(s, e) =~= x);
}

/// Where the comment of a setting begins, if its value has no quotes.
proof fn lemma_comment_plain(s: Setting)
    requires
        s.is_ok(),
        is_word(s.value),
    ensures
        config::comment_start(s.line(), 0, false) == s.line().len() - s.comment.len(),
{
    let t = s.line();
    let n = t.len() - s.comment.len();
    let body = s.head() + seq!['='] + s.tail();
    assert forall|k: int| 0 <= k < n implies #[trigger] t[k] != '"' && t[k] != '#' by {
        assert(t[k] == body[k]);
        lemma_body_char(s, k);
    }
    lemma_comment_skip(t, 0, n, false);
    if s.comment.len() > 0 {
        assert(t[n] == s.comment[0]);
    }
}

proof fn lemma_blank_char(t: Seq<char>, k: int)
    requires
        is_blank(t),
        0 <= k < t.len(),
    ensures
        t[k] != '"',
        t[k] != '#',
        t[k] != '=',
{
    assert(text::is_space(t[k]));
}

/// A character of a setting before its comment.
proof fn lemma_body_char(s: Setting, k: int)
    requires
        s.is_ok(),
        0 <= k < s.line().len() - s.comment.len(),
        is_word(s.value) || k < s.head().len() + 1 + s.s3.len() || k >= s.head().len() + 1
            + s.s3.len() + s.value.len(),
    ensures
        s.line()[k] != '"',
        s.line()[k] != '#',
{
    let a = s.s1.len();
    let b = a + s.key.len();
    let c = b + s.s2.len();
    let d = c + 1 + s.s3.len();
    let e = d + s.value.len();
    let t = s.line();
    if k < a {
        assert(t[k] == s.s1[k]);
        lemma_blank_char(s.s1, k);
    } else if k < b {
        assert(t[k] == s.key[k - a]);
    } else if k < c {
        assert(t[k] == s.s2[k - b]);
        lemma_blank_char(s.s2, k - b);
    } else if k == c {
        assert(t[k] == '=');
    } else if k < d {
        assert(t[k] == s.s3[k - c - 1]);
        lemma_blank_char(s.s3, k - c - 1);
    } else if k < e {
        assert(t[k] == s.value[k - d]);
    } else {
        assert(t[k] == s.s4[k - e]);
        lemma_blank_char(s.s4, k - e);
    }
}

/// Whether a value is a text in quotes.
pub open spec fn is_quoted(v: Seq<char>, name: Seq<char>) -> bool {
    &&& v == seq!['"'] + name + seq!['"']
    &&& !name.contains('"')
}

proof fn lemma_comment_quoted(s: Setting, name: Seq<char>)
    requires
        s.is_ok(),
        is_quoted(s.value, name),
    ensures
        config::comment_start(s.line(), 0, false) == s.line().len() - s.comment.len(),
{
    let t = s.line();
    let n = t.len() - s.comment.len();
    let d = (s.head().len() + 1 + s.s3.len()) as int;
    let e = d + s.value.len();
    assert forall|k: int| 0 <= k < d implies #[trigger] t[k] != '"' && t[k] != '#' by {
        lemma_body_char(s, k);
    }
    lemma_comment_skip(t, 0, d, false);
    assert(t[d] == s.value[0]);
    assert forall|k: int| d + 1 <= k < e - 1 implies #[trigger] t[k] != '"' by {
        assert(t[k] == s.value[k - d]);
        assert(s.value[k - d] == name[k - d - 1]);
        if name[k - d - 1] == '"' {
            assert(name.contains('"'));
        }
    }
    lemma_comment_skip(t, d + 1, e - 1, true);
    assert(t[e - 1] == s.value[s.value.len() - 1]);
    assert forall|k: int| e <= k < n implies #[trigger] t[k] != '"' && t[k] != '#' by {
        lemma_body_char(s, k);
    }
    lemma_comment_skip(t, e, n, false);
    if s.comment.len() > 0 {
        assert(t[n] == s.comment[0]);
    }
}

proof fn lemma_setting(s: Setting)
    requires
        s.is_ok(),
        is_trim(s.value),
        config::comment_start(s.line(), 0, false) == s.line().len() - s.comment.len(),
    ensures
        config::setting(s.line()) == Some((s.key, s.value)),
{
    let n = s.line().len() - s.comment.len();
    let t = s.line().take(n);
    let h = s.head();
    let c = h.len() as int;
    assert(t =~= h + seq!['='] + s.tail());
    text::lemma_first_char(t, '=', 0);
    assert(t[c] == '=');
    assert forall|k: int| 0 <= k < c implies t[k] != '=' by {
        assert(t[k] == h[k]);
        let a = s.s1.len();
        let b = a + s.key.len();
        if k < a {
            assert(h[k] == s.s1[k]);
            lemma_blank_char(s.s1, k);
        } else if k < b {
            assert(h[k] == s.key[k - a]);
        } else {
            assert(h[k] == s.s2[k - b]);
            lemma_blank_char(s.s2, k - b);
        }
    }
    assert(text::first_char(t, '=', 0) == Some(c));
    assert(t.take(c) =~= h);
    assert(t.skip(c + 1) =~= s.tail());
    lemma_trimmed(s.s1, s.key, s.s2);
    lemma_trimmed(s.s3, s.value, s.s4);
}

proof fn lemma_last_line(ls: Seq<Seq<char>>, line: Seq<char>)
    requires
        are_lines(ls),
        is_line(line),
    ensures
        config::configured(with_newlines(ls.push(line))) == match config::setting(line) {
            Some((key, v)) => config::configured(with_newlines(ls)).set(key, v),
            None => config::configured(with_newlines(ls)),
        },
{
    let all = ls.push(line);
    assert forall|k: int| 0 <= k < all.len() implies is_line(#[trigger] all[k]) by {
        if k < ls.len() {
            assert(is_line(ls[k]));
        }
    }
    law_lines_are_read(all);
    law_lines_are_read(ls);
    let none = config::ConfigModel { theme: None, width: None, line_numbers: None };
    lemma_after_same(none, ls, all, ls.len() as int);
}

proof fn lemma_after_same(
    c: config::ConfigModel,
    a: Seq<Seq<char>>,
    b: Seq<Seq<char>>,
    n: int,
)
    requires
        0 <= n <= a.len(),
        n <= b.len(),
        forall|k: int| 0 <= k < n ==> a[k] == b[k],
    ensures
        c.after_lines(a, n) == c.after_lines(b, n),
    decreases n,
{
    if n > 0 {
        lemma_after_same(c, a, b, n - 1);
    }
}

/// A line that names a theme in quotes sets it, and nothing else.
pub proof fn law_theme_is_set(ls: Seq<Seq<char>>, s: Setting, name: Seq<char>)
    requires
        are_lines(ls),
        s.is_ok(),
        s.key == "theme"@,
        is_quoted(s.value, name),
    ensures
        ({
            let before = config::configured(with_newlines(ls));
            let after = config::configured(with_newlines(ls.push(s.line())));
            &&& after.theme == Some(name)
            &&& after.width == before.width
            &&& after.line_numbers == before.line_numbers
        }),
{
    lemma_comment_quoted(s, name);
    assert(!text::is_space('"'));
    lemma_setting(s);
    lemma_last_line(ls, s.line());
    assert(s.value.subrange(1, s.value.len() - 1) =~= name);
}

/// A line with a number sets the width, and nothing else.
pub proof fn law_width_is_set(ls: Seq<Seq<char>>, s: Setting, n: u16)
    requires
        are_lines(ls),
        s.is_ok(),
        s.key == "width"@,
        s.value == text::decimal(n as nat),
    ensures
        ({
            let before = config::configured(with_newlines(ls));
            let after = config::configured(with_newlines(ls.push(s.line())));
            &&& after.width == Some(n)
            &&& after.theme == before.theme
            &&& after.line_numbers == before.line_numbers
        }),
{
    numbers::law_decimal_round_trip(n as nat);
    let v = s.value;
    assert(v.len() > 0);
    assert forall|k: int| 0 <= k < v.len() implies '0' <= #[trigger] v[k] && v[k] <= '9' by {}
    lemma_comment_plain(s);
    lemma_setting(s);
    lemma_last_line(ls, s.line());
    reveal_strlit("width");
    reveal_strlit("theme");
    assert("width"@[0] != "theme"@[0]);
}

/// A line with `true` or `false` switches line numbers on or off, and nothing else.
pub proof fn law_line_numbers_are_set(ls: Seq<Seq<char>>, s: Setting, on: bool)
    requires
        are_lines(ls),
        s.is_ok(),
        s.key == "line_numbers"@,
        s.value == (if on {
            "true"@
        } else {
            "false"@
        }),
    ensures
        ({
            let before = config::configured(with_newlines(ls));
            let after = config::configured(with_newlines(ls.push(s.line())));
            &&& after.line_numbers == Some(on)
            &&& after.theme == before.theme
            &&& after.width == before.width
        }),
{
    reveal_strlit("width");
    reveal_strlit("theme");
    reveal_strlit("line_numbers");
    reveal_strlit("true");
    reveal_strlit("false");
    assert("line_numbers"@[0] != "theme"@[0]);
    assert("line_numbers"@[0] != "width"@[0]);
    assert("true"@[0] != "false"@[0]);
    lemma_comment_plain(s);
    lemma_setting(s);
    lemma_last_line(ls, s.line());
}

/// A line without an equals sign before its comment sets nothing.
pub proof fn law_comment_sets_nothing(ls: Seq<Seq<char>>, blank: Seq<char>, rest: Seq<char>)
    requires
        are_lines(ls),
        is_blank(blank),
        is_line(blank + seq!['#'] + rest),
    ensures
        config::configured(with_newlines(ls.push(blank + seq!['#'] + rest)))
            == config::configured(with_newlines(ls)),
{
    let t = blank + seq!['#'] + rest;
    let n = blank.len() as int;
    assert forall|k: int| 0 <= k < n implies #[trigger] t[k] != '"' && t[k] != '#' by {
        assert(t[k] == blank[k]);
        lemma_blank_char(blank, k);
    }
    lemma_comment_skip(t, 0, n, false);
    assert(t[n] == '#');
    let h = t.take(n);
    text::lemma_first_char(h, '=', 0);
    assert(text::first_char(h, '=', 0) is None) by {
        if let Some(k) = text::first_char(h, '=', 0) {
            assert(h[k] == blank[k]);
            lemma_blank_char(blank, k);
        }
    }
    lemma_last_line(ls, t);
}

// ---------------------------------------------------------------------------
// The clipboard
// ---------------------------------------------------------------------------

/// The value of a digit of base 64.
pub open spec fn digit_value(c: char) -> int {
    if 'A' <= c <= 'Z' {
        c as int - 'A' as int
    } else if 'a' <= c <= 'z' {
        c as int - 'a' as int + 26
    } else if '0' <= c <= '9' {
        c as int - '0' as int + 52
    } else if c == '+' {
        62
    } else {
        63
    }
}

/// The bytes that digits of base 64 stand for, four digits for three bytes.
pub open spec fn decoded(t: Seq<char>) -> Seq<int>
    decreases t.len(),
{
    if t.len() < 4 {
        Seq::empty()
    } else {
        let a = digit_value(t[0]) * 4 + digit_value(t[1]) / 16;
        let b = digit_value(t[1]) % 16 * 16 + digit_value(t[2]) / 4;
        let c = digit_value(t[2]) % 4 * 64 + digit_value(t[3]);
        if t[2] == '=' {
            seq![a]
        } else if t[3] == '=' {
            seq![a, b]
        } else {
            seq![a, b, c] + decoded(t.skip(4))
        }
    }
}

pub open spec fn byte_values(b: Seq<u8>) -> Seq<int> {
    Seq::new(b.len(), |k: int| b[k] as int)
}

proof fn lemma_digit(n: int)
    requires
        0 <= n < 64,
    ensures
        digit_value(clipboard::base64_digit(n)) == n,
        clipboard::base64_digit(n) != '=',
{
}

proof fn lemma_group(x: int, y: int, z: int)
    requires
        0 <= x < 256,
        0 <= y < 256,
        0 <= z < 256,
    ensures
        ({
            let n = x * 65536 + y * 256 + z;
            &&& n / 262144 == x / 4
            &&& n / 4096 % 64 == x % 4 * 16 + y / 16
            &&& n / 64 % 64 == y % 16 * 4 + z / 64
            &&& n % 64 == z % 64
        }),
{
    let (a, b, c, d, e, f) = (x / 4, x % 4, y / 16, y % 16, z / 64, z % 64);
    let n = x * 65536 + y * 256 + z;
    assert(n == 262144 * a + 65536 * b + 4096 * c + 256 * d + 64 * e + f);
    lemma_fundamental_div_mod_converse(n, 262144, a, 65536 * b + 4096 * c + 256 * d + 64 * e + f);
    let p = 64 * a + 16 * b + c;
    lemma_fundamental_div_mod_converse(n, 4096, p, 256 * d + 64 * e + f);
    lemma_fundamental_div_mod_converse(p, 64, a, 16 * b + c);
    let q = 4096 * a + 1024 * b + 64 * c + 4 * d + e;
    lemma_fundamental_div_mod_converse(n, 64, q, f);
    lemma_fundamental_div_mod_converse(q, 64, 64 * a + 16 * b + c, 4 * d + e);
}

proof fn lemma_pair(x: int, y: int)
    requires
        0 <= x < 256,
        0 <= y < 256,
    ensures
        ({
            let n = x * 256 + y;
            &&& n / 1024 == x / 4
            &&& n / 16 % 64 == x % 4 * 16 + y / 16
            &&& n % 16 * 4 == y % 16 * 4
        }),
{
    let (a, b, c, d) = (x / 4, x % 4, y / 16, y % 16);
    let n = x * 256 + y;
    assert(n == 1024 * a + 256 * b + 16 * c + d);
    lemma_fundamental_div_mod_converse(n, 1024, a, 256 * b + 16 * c + d);
    let p = 64 * a + 16 * b + c;
    lemma_fundamental_div_mod_converse(n, 16, p, d);
    lemma_fundamental_div_mod_converse(p, 64, a, 16 * b + c);
}

/// Four digits give back three bytes.
proof fn lemma_group_back(x: int, y: int, z: int)
    requires
        0 <= x < 256,
        0 <= y < 256,
        0 <= z < 256,
    ensures
        x / 4 * 4 + (x % 4 * 16 + y / 16) / 16 == x,
        (x % 4 * 16 + y / 16) % 16 * 16 + (y % 16 * 4 + z / 64) / 4 == y,
        (y % 16 * 4 + z / 64) % 4 * 64 + z % 64 == z,
        0 <= x / 4 < 64,
        0 <= x % 4 * 16 + y / 16 < 64,
        0 <= y % 16 * 4 + z / 64 < 64,
{
}

proof fn lemma_decoded_group(t: Seq<char>, x: int, y: int, z: int)
    requires
        t.len() >= 4,
        0 <= x < 256,
        0 <= y < 256,
        0 <= z < 256,
        t[0] == clipboard::base64_digit(x / 4),
        t[1] == clipboard::base64_digit(x % 4 * 16 + y / 16),
        t[2] == clipboard::base64_digit(y % 16 * 4 + z / 64),
        t[3] == clipboard::base64_digit(z % 64),
    ensures
        decoded(t) == seq![x, y, z] + decoded(t.skip(4)),
{
    lemma_group_back(x, y, z);
    lemma_digit(x / 4);
    lemma_digit(x % 4 * 16 + y / 16);
    lemma_digit(y % 16 * 4 + z / 64);
    lemma_digit(z % 64);
}

proof fn lemma_decoded(b: Seq<u8>)
    ensures
        decoded(clipboard::base64_of(b)) == byte_values(b),
    decreases b.len(),
{
    let t = clipboard::base64_of(b);
    if b.len() == 0 {
        assert(decoded(t) =~= byte_values(b));
    } else if b.len() == 1 {
        let x = b[0] as int;
        lemma_group_back(x, 0, 0);
        lemma_digit(x / 4);
        lemma_digit(x % 4 * 16);
        assert(decoded(t) =~= byte_values(b));
    } else if b.len() == 2 {
        let x = b[0] as int;
        let y = b[1] as int;
        lemma_pair(x, y);
        lemma_group_back(x, y, 0);
        lemma_digit(x / 4);
        lemma_digit(x % 4 * 16 + y / 16);
        lemma_digit(y % 16 * 4);
        assert(decoded(t) =~= byte_values(b));
    } else {
        let x = b[0] as int;
        let y = b[1] as int;
        let z = b[2] as int;
        lemma_group(x, y, z);
        lemma_decoded_group(t, x, y, z);
        lemma_decoded(b.skip(3));
        assert(t.skip(4) =~= clipboard::base64_of(b.skip(3)));
        assert(byte_values(b) =~= seq![x, y, z] + byte_values(b.skip(3)));
    }
}

/// What is sent to the terminal holds the text: between its frame stand digits of base 64
/// that give back the bytes of the text.
pub proof fn law_clipboard_gets_the_text(t: Seq<char>, tmux: bool)
    ensures
        exists|data: Seq<char>|
            #[trigger] decoded(data) == byte_values(encode_utf8(t)) && clipboard::copy_sequence(
                t,
                tmux,
            ) == (if tmux {
                seq!['\x1b', 'P', 't', 'm', 'u', 'x', ';', '\x1b', '\x1b', ']', '5', '2', ';', 'c', ';']
                    + data + seq!['\x07', '\x1b', '\\']
            } else {
                seq!['\x1b', ']', '5', '2', ';', 'c', ';'] + data + seq!['\x1b', '\\']
            }),
{
    let data = clipboard::base64_of(encode_utf8(t));
    lemma_decoded(encode_utf8(t));
    reveal_strlit("\x1bPtmux;\x1b\x1b]52;c;");
    reveal_strlit("\x07\x1b\\");
    reveal_strlit("\x1b]52;c;");
    reveal_strlit("\x1b\\");
    assert(decoded(data) == byte_values(encode_utf8(t)));
    if tmux {
        assert("\x1bPtmux;\x1b\x1b]52;c;"@ =~= seq![
            '\x1b',
            'P',
            't',
            'm',
            'u',
            'x',
            ';',
            '\x1b',
            '\x1b',
            ']',
            '5',
            '2',
            ';',
            'c',
            ';',
        ]);
        assert("\x07\x1b\\"@ =~= seq!['\x07', '\x1b', '\\']);
    } else {
        assert("\x1b]52;c;"@ =~= seq!['\x1b', ']', '5', '2', ';', 'c', ';']);
        assert("\x1b\\"@ =~= seq!['\x1b', '\\']);
    }
}

} // verus!
