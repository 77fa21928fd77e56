//! Per-line JSON expansion for `.json`, `.jsonl` and `.ndjson` files.
//!
//! A source line that overflows the body width gets a button in the left
//! gutter; expanded, the line is shown in its pretty-printed form. The file
//! itself stays untouched.

use std::collections::HashSet;
use vstd::prelude::*;
use crate::style;
use crate::style::{Color, Line, Modifier, Span, Style};
use crate::text;
use crate::text::{from_chars, matches_at, repeat_char, same_text, str_width, to_chars};
use crate::views;

verus! {

broadcast use {crate::views::group_views, vstd::std_specs::hash::group_hash_axioms};

/// A JSON value. Numbers and strings keep their source text, strings with their
/// quotes and escapes.
#[derive(Debug)]
pub enum Value {
    Null,
    Bool(bool),
    Num(String),
    Str(String),
    Arr(Vec<Value>),
    Obj(Vec<Member>),
}

/// One `key: value` of an object, the key in its quotes.
#[derive(Debug)]
pub struct Member {
    pub key: String,
    pub value: Value,
}

/// What a [`Value`] holds.
pub enum Json {
    Null,
    Bool(bool),
    Num(Seq<char>),
    Str(Seq<char>),
    Arr(Seq<Json>),
    Obj(Seq<(Seq<char>, Json)>),
}

impl Value {
    pub open spec fn json(self) -> Json
        decreases self,
    {
        match self {
            Value::Null => Json::Null,
            Value::Bool(b) => Json::Bool(b),
            Value::Num(s) => Json::Num(s@),
            Value::Str(s) => Json::Str(s@),
            Value::Arr(items) => Json::Arr(
                Seq::new(
                    items@.len(),
                    |i: int|
                        if 0 <= i < items@.len() {
                            items@[i].json()
                        } else {
                            Json::Null
                        },
                ),
            ),
            Value::Obj(items) => Json::Obj(
                Seq::new(
                    items@.len(),
                    |i: int|
                        if 0 <= i < items@.len() {
                            (items@[i].key@, items@[i].value.json())
                        } else {
                            (Seq::empty(), Json::Null)
                        },
                ),
            ),
        }
    }
}

impl View for Value {
    type V = Json;

    open spec fn view(&self) -> Json {
        self.json()
    }
}

impl View for Member {
    type V = (Seq<char>, Json);

    open spec fn view(&self) -> (Seq<char>, Json) {
        (self.key@, self.value.json())
    }
}

// ---------------------------------------------------------------------------
// Grammar
// ---------------------------------------------------------------------------

pub open spec fn is_ws(c: char) -> bool {
    c == ' ' || c == '\t' || c == '\n' || c == '\r'
}

/// First position at or after `i` without JSON white space.
pub open spec fn after_ws(s: Seq<char>, i: int) -> int
    decreases s.len() - i,
{
    if 0 <= i < s.len() && is_ws(s[i]) {
        after_ws(s, i + 1)
    } else {
        i
    }
}

/// True when `s` has `c` at `i`.
pub open spec fn at(s: Seq<char>, i: int, c: char) -> bool {
    0 <= i < s.len() && s[i] == c
}

/// The hexadecimal digits.
pub open spec fn is_hex(c: char) -> bool {
    ('0' <= c && c <= '9') || ('a' <= c && c <= 'f') || ('A' <= c && c <= 'F')
}

/// The characters that a backslash escapes alone.
pub open spec fn is_escaped(c: char) -> bool {
    c == '"' || c == '\\' || c == '/' || c == 'b' || c == 'f' || c == 'n' || c == 'r' || c == 't'
}

/// End of the escape whose backslash stands at `i`: one character, or `u` and four
/// hexadecimal digits.
pub open spec fn escape_end(s: Seq<char>, i: int) -> Option<int> {
    if i < 0 || i + 1 >= s.len() {
        None
    } else if is_escaped(s[i + 1]) {
        Some(i + 2)
    } else if s[i + 1] == 'u' && i + 5 < s.len() && is_hex(s[i + 2]) && is_hex(s[i + 3]) && is_hex(
        s[i + 4],
    ) && is_hex(s[i + 5]) {
        Some(i + 6)
    } else {
        None
    }
}

/// End of a string whose inside goes on at `i`: past the first quote that no
/// backslash escapes. Control characters must be escaped.
pub open spec fn string_rest(s: Seq<char>, i: int) -> Option<int>
    decreases s.len() - i,
{
    if i < 0 || i >= s.len() {
        None
    } else if s[i] == '\\' {
        match escape_end(s, i) {
            Some(e) => string_rest(s, e),
            None => None,
        }
    } else if s[i] == '"' {
        Some(i + 1)
    } else if s[i] <= '\u{1f}' {
        None
    } else {
        string_rest(s, i + 1)
    }
}

/// End of the string that begins at `i`.
pub open spec fn string_end(s: Seq<char>, i: int) -> Option<int> {
    if at(s, i, '"') {
        string_rest(s, i + 1)
    } else {
        None
    }
}

pub open spec fn is_digit(c: char) -> bool {
    '0' <= c && c <= '9'
}

/// True when `s` has a digit at `i`.
pub open spec fn digit_at(s: Seq<char>, i: int) -> bool {
    0 <= i < s.len() && is_digit(s[i])
}

/// End of the digits at `i`.
pub open spec fn digits_end(s: Seq<char>, i: int) -> int
    decreases s.len() - i,
{
    if digit_at(s, i) {
        digits_end(s, i + 1)
    } else {
        i
    }
}

/// End of the whole part that begins at `i`: a zero, or digits that begin with
/// another one.
pub open spec fn whole_end(s: Seq<char>, i: int) -> Option<int> {
    if at(s, i, '0') {
        Some(i + 1)
    } else if digit_at(s, i) {
        Some(digits_end(s, i))
    } else {
        None
    }
}

/// End of the fraction at `i`, where there is one: a point and at least one digit.
pub open spec fn fraction_end(s: Seq<char>, i: int) -> int {
    if at(s, i, '.') && digit_at(s, i + 1) {
        digits_end(s, i + 1)
    } else {
        i
    }
}

/// End of the exponent at `i`, where there is one: its letter, a sign or none, and at
/// least one digit.
pub open spec fn exponent_end(s: Seq<char>, i: int) -> int {
    if at(s, i, 'e') || at(s, i, 'E') {
        let d = if at(s, i + 1, '+') || at(s, i + 1, '-') {
            i + 2
        } else {
            i + 1
        };
        if digit_at(s, d) {
            digits_end(s, d)
        } else {
            i
        }
    } else {
        i
    }
}

/// End of the number that begins at `i`: a minus sign or none, a whole part, and a
/// fraction and an exponent where they are there.
pub open spec fn number_end(s: Seq<char>, i: int) -> Option<int> {
    match whole_end(
        s,
        if at(s, i, '-') {
            i + 1
        } else {
            i
        },
    ) {
        Some(e) => Some(exponent_end(s, fraction_end(s, e))),
        None => None,
    }
}

pub open spec fn starts_number(c: char) -> bool {
    c == '-' || ('0' <= c && c <= '9')
}

/// The value that begins at `i`, white space before it allowed, and where it
/// ends.
pub open spec fn value_at(s: Seq<char>, i: int) -> Option<(Json, int)>
    decreases s.len() - i, 1int,
{
    let p = after_ws(s, i);
    if p < i || p < 0 || p >= s.len() {
        None
    } else if s[p] == '{' {
        object_at(s, p)
    } else if s[p] == '[' {
        array_at(s, p)
    } else if s[p] == '"' {
        match string_end(s, p) {
            Some(e) => Some((Json::Str(s.subrange(p, e)), e)),
            None => None,
        }
    } else if text::occurs_at(s, "true"@, p) {
        Some((Json::Bool(true), p + 4))
    } else if text::occurs_at(s, "false"@, p) {
        Some((Json::Bool(false), p + 5))
    } else if text::occurs_at(s, "null"@, p) {
        Some((Json::Null, p + 4))
    } else if starts_number(s[p]) {
        match number_end(s, p) {
            Some(e) => Some((Json::Num(s.subrange(p, e)), e)),
            None => None,
        }
    } else {
        None
    }
}

/// The array whose bracket stands at `p`.
pub open spec fn array_at(s: Seq<char>, p: int) -> Option<(Json, int)>
    decreases s.len() - p, 0int,
{
    let q = after_ws(s, p + 1);
    if q <= p || q > s.len() {
        None
    } else if at(s, q, ']') {
        Some((Json::Arr(Seq::empty()), q + 1))
    } else {
        elements_at(s, q, Seq::empty())
    }
}

/// The rest of an array from `p` on, after the elements `done`.
pub open spec fn elements_at(s: Seq<char>, p: int, done: Seq<Json>) -> Option<(Json, int)>
    decreases s.len() - p, 2int,
{
    match value_at(s, p) {
        Some((v, e)) => {
            let r = after_ws(s, e);
            if r <= p {
                None
            } else if at(s, r, ',') {
                elements_at(s, r + 1, done.push(v))
            } else if at(s, r, ']') {
                Some((Json::Arr(done.push(v)), r + 1))
            } else {
                None
            }
        },
        None => None,
    }
}

/// The object whose brace stands at `p`.
pub open spec fn object_at(s: Seq<char>, p: int) -> Option<(Json, int)>
    decreases s.len() - p, 0int,
{
    let q = after_ws(s, p + 1);
    if q <= p || q > s.len() {
        None
    } else if at(s, q, '}') {
        Some((Json::Obj(Seq::empty()), q + 1))
    } else {
        members_at(s, q, Seq::empty())
    }
}

/// Where the value of the member at `p` begins, and the end of its key: a
/// string, then a colon.
pub open spec fn key_at(s: Seq<char>, p: int) -> Option<(int, int)> {
    let k = after_ws(s, p);
    match string_end(s, k) {
        Some(e) => {
            let c = after_ws(s, e);
            if at(s, c, ':') && p <= k < e <= c {
                Some((e, c + 1))
            } else {
                None
            }
        },
        None => None,
    }
}

/// The rest of an object from `p` on, after the members `done`.
pub open spec fn members_at(s: Seq<char>, p: int, done: Seq<(Seq<char>, Json)>) -> Option<(Json, int)>
    decreases s.len() - p, 2int,
{
    match key_at(s, p) {
        Some((ke, vp)) => if vp <= p || vp > s.len() {
            None
        } else {
            match value_at(s, vp) {
                Some((v, e)) => {
                    let r = after_ws(s, e);
                    let next = done.push((s.subrange(after_ws(s, p), ke), v));
                    if r <= p {
                        None
                    } else if at(s, r, ',') {
                        members_at(s, r + 1, next)
                    } else if at(s, r, '}') {
                        Some((Json::Obj(next), r + 1))
                    } else {
                        None
                    }
                },
                None => None,
            }
        },
        None => None,
    }
}

/// The value of a text that is one complete JSON value.
pub open spec fn parsed(s: Seq<char>) -> Option<Json> {
    match value_at(s, 0) {
        Some((v, e)) => if after_ws(s, e) == s.len() {
            Some(v)
        } else {
            None
        },
        None => None,
    }
}

// ---------------------------------------------------------------------------
// Parser
// ---------------------------------------------------------------------------

/// A reading position in a text.
struct Parser<'a> {
    input: &'a [char],
    pos: usize,
}

impl<'a> Parser<'a> {
    spec fn wf(&self) -> bool {
        self.pos <= self.input@.len()
    }

    fn skip_ws(&mut self)
        requires
            old(self).wf(),
        ensures
            final(self).wf(),
            final(self).input == old(self).input,
            final(self).pos == after_ws(old(self).input@, old(self).pos as int),
            final(self).pos >= old(self).pos,
    {
        while self.pos < self.input.len() && (self.input[self.pos] == ' ' || self.input[self.pos]
            == '\t' || self.input[self.pos] == '\n' || self.input[self.pos] == '\r')
            invariant
                self.wf(),
                self.input == old(self).input,
                self.pos >= old(self).pos,
                after_ws(self.input@, self.pos as int) == after_ws(
                    old(self).input@,
                    old(self).pos as int,
                ),
            decreases self.input@.len() - self.pos,
        {
            self.pos = self.pos + 1;
        }
    }

    /// Steps over one character.
    fn advance(&mut self)
        requires
            old(self).pos < old(self).input@.len(),
        ensures
            final(self).wf(),
            final(self).input == old(self).input,
            final(self).pos == old(self).pos + 1,
    {
        if self.pos < self.input.len() {
            self.pos = self.pos + 1;
        }
    }

    fn peek(&self) -> (r: Option<char>)
        requires
            self.wf(),
        ensures
            r == (if self.pos < self.input@.len() {
                Some(self.input@[self.pos as int])
            } else {
                None
            }),
    {
        if self.pos < self.input.len() {
            Some(self.input[self.pos])
        } else {
            None
        }
    }

    /// Reads a word of the language.
    fn word(&mut self, w: &str) -> (r: bool)
        requires
            old(self).wf(),
        ensures
            final(self).wf(),
            final(self).input == old(self).input,
            r == text::occurs_at(old(self).input@, w@, old(self).pos as int),
            final(self).pos == if r {
                old(self).pos + w@.len()
            } else {
                old(self).pos as int
            },
    {
        let cs = to_chars(w);
        let n = self.input.len();
        if cs.len() <= n - self.pos && matches_at(self.input, &cs, self.pos) {
            self.pos = self.pos + cs.len();
            true
        } else {
            false
        }
    }

    fn parse_bool(&mut self) -> (r: Option<Value>)
        requires
            old(self).wf(),
        ensures
            final(self).wf(),
            final(self).input == old(self).input,
            match r {
                Some(v) => {
                    let s = old(self).input@;
                    let p = old(self).pos as int;
                    ||| text::occurs_at(s, "true"@, p) && v@ == Json::Bool(true) && final(self).pos == p + 4
                    ||| !text::occurs_at(s, "true"@, p) && text::occurs_at(s, "false"@, p) && v@
                        == Json::Bool(false) && final(self).pos == p + 5
                },
                None => !text::occurs_at(old(self).input@, "true"@, old(self).pos as int)
                    && !text::occurs_at(old(self).input@, "false"@, old(self).pos as int)
                    && final(self).pos == old(self).pos,
            },
    {
        proof {
            reveal_strlit("true");
            reveal_strlit("false");
        }
        if self.word("true") {
            Some(Value::Bool(true))
        } else if self.word("false") {
            Some(Value::Bool(false))
        } else {
            None
        }
    }

    fn parse_null(&mut self) -> (r: Option<Value>)
        requires
            old(self).wf(),
        ensures
            final(self).wf(),
            final(self).input == old(self).input,
            match r {
                Some(v) => text::occurs_at(old(self).input@, "null"@, old(self).pos as int) && v@
                    == Json::Null && final(self).pos == old(self).pos + 4,
                None => !text::occurs_at(old(self).input@, "null"@, old(self).pos as int)
                    && final(self).pos == old(self).pos,
            },
    {
        proof {
            reveal_strlit("null");
        }
        if self.word("null") {
            Some(Value::Null)
        } else {
            None
        }
    }

    fn parse_string_raw(&mut self) -> (r: Option<String>)
        requires
            old(self).wf(),
        ensures
            final(self).wf(),
            final(self).input == old(self).input,
            match r {
                Some(t) => string_end(old(self).input@, old(self).pos as int) == Some(
                    final(self).pos as int,
                ) && old(self).pos < final(self).pos && t@ == old(self).input@.subrange(
                    old(self).pos as int,
                    final(self).pos as int,
                ),
                None => string_end(old(self).input@, old(self).pos as int) is None,
            },
    {
        let start = self.pos;
        if self.pos >= self.input.len() || self.input[self.pos] != '"' {
            return None;
        }
        self.pos = self.pos + 1;
        while self.pos < self.input.len()
            invariant
                start < self.pos <= self.input@.len(),
                self.input == old(self).input,
                start == old(self).pos,
                string_rest(self.input@, self.pos as int) == string_end(
                    old(self).input@,
                    start as int,
                ),
            decreases self.input@.len() - self.pos,
        {
            let c = self.input[self.pos];
            if c == '\\' {
                match escape(self.input, self.pos) {
                    Some(e) => {
                        self.pos = e;
                    },
                    None => {
                        return None;
                    },
                }
            } else if c == '"' {
                self.pos = self.pos + 1;
                return Some(from_chars(self.input, start, self.pos));
            } else if c <= '\u{1f}' {
                return None;
            } else {
                self.pos = self.pos + 1;
            }
        }
        None
    }

    fn parse_number(&mut self) -> (r: Option<String>)
        requires
            old(self).wf(),
        ensures
            final(self).wf(),
            final(self).input == old(self).input,
            match r {
                Some(t) => number_end(old(self).input@, old(self).pos as int) == Some(
                    final(self).pos as int,
                ) && old(self).pos < final(self).pos && t@ == old(self).input@.subrange(
                    old(self).pos as int,
                    final(self).pos as int,
                ),
                None => number_end(old(self).input@, old(self).pos as int) is None,
            },
    {
        let start = self.pos;
        let whole: usize = if has(self.input, start, '-') {
            start + 1
        } else {
            start
        };
        if !has_digit(self.input, whole) {
            return None;
        }
        let end = if has(self.input, whole, '0') {
            whole + 1
        } else {
            skip_digits(self.input, whole)
        };
        self.pos = exponent(self.input, fraction(self.input, end));
        Some(from_chars(self.input, start, self.pos))
    }

    fn parse_value(&mut self) -> (r: Option<Value>)
        requires
            old(self).wf(),
        ensures
            final(self).wf(),
            final(self).input == old(self).input,
            match r {
                Some(v) => value_at(old(self).input@, old(self).pos as int) == Some(
                    (v@, final(self).pos as int),
                ) && old(self).pos < final(self).pos,
                None => value_at(old(self).input@, old(self).pos as int) is None,
            },
        decreases old(self).input@.len() - old(self).pos, 1int,
    {
        self.skip_ws();
        proof {
            reveal_strlit("true");
            reveal_strlit("false");
            reveal_strlit("null");
        }
        match self.peek() {
            None => None,
            Some(c) => {
                if c == '{' {
                    self.parse_object()
                } else if c == '[' {
                    self.parse_array()
                } else if c == '"' {
                    match self.parse_string_raw() {
                        Some(t) => Some(Value::Str(t)),
                        None => None,
                    }
                } else if c == 't' || c == 'f' {
                    let ghost s = self.input@;
                    let ghost p = self.pos as int;
                    let r = self.parse_bool();
                    proof {
                        if text::occurs_at(s, "null"@, p) {
                            assert(s.subrange(p, p + 4)[0] == 'n');
                        }
                    }
                    r
                } else if c == 'n' {
                    let ghost s = self.input@;
                    let ghost p = self.pos as int;
                    let r = self.parse_null();
                    proof {
                        if text::occurs_at(s, "true"@, p) {
                            assert(s.subrange(p, p + 4)[0] == 't');
                        }
                        if text::occurs_at(s, "false"@, p) {
                            assert(s.subrange(p, p + 5)[0] == 'f');
                        }
                    }
                    r
                } else {
                    proof {
                        let s = self.input@;
                        let p = self.pos as int;
                        if text::occurs_at(s, "true"@, p) {
                            assert(s.subrange(p, p + 4)[0] == 't');
                        }
                        if text::occurs_at(s, "false"@, p) {
                            assert(s.subrange(p, p + 5)[0] == 'f');
                        }
                        if text::occurs_at(s, "null"@, p) {
                            assert(s.subrange(p, p + 4)[0] == 'n');
                        }
                    }
                    if c == '-' || ('0' <= c && c <= '9') {
                        match self.parse_number() {
                            Some(t) => Some(Value::Num(t)),
                            None => None,
                        }
                    } else {
                        None
                    }
                }
            },
        }
    }

    fn parse_array(&mut self) -> (r: Option<Value>)
        requires
            old(self).wf(),
            at(old(self).input@, old(self).pos as int, '['),
        ensures
            final(self).wf(),
            final(self).input == old(self).input,
            match r {
                Some(v) => array_at(old(self).input@, old(self).pos as int) == Some(
                    (v@, final(self).pos as int),
                ) && old(self).pos < final(self).pos,
                None => array_at(old(self).input@, old(self).pos as int) is None,
            },
        decreases old(self).input@.len() - old(self).pos, 0int,
    {
        self.advance();
        self.skip_ws();
        let mut items: Vec<Value> = Vec::new();
        if self.peek() == Some(']') {
            self.advance();
            let v = Value::Arr(items);
            assert(v@ =~= Json::Arr(Seq::empty())) by {
                assert(v@->Arr_0 =~= Seq::<Json>::empty());
            }
            return Some(v);
        }
        loop
            invariant
                self.wf(),
                self.input == old(self).input,
                old(self).pos < self.pos,
                elements_at(self.input@, self.pos as int, views::views(items@)) == array_at(
                    old(self).input@,
                    old(self).pos as int,
                ),
            decreases self.input@.len() - self.pos,
        {
            let v = match self.parse_value() {
                Some(v) => v,
                None => {
                    return None;
                },
            };
            items.push(v);
            self.skip_ws();
            match self.peek() {
                Some(c) => {
                    if c == ',' {
                        self.advance();
                    } else if c == ']' {
                        self.advance();
                        let v = Value::Arr(items);
                        assert(v@->Arr_0 =~= views::views(items@));
                        return Some(v);
                    } else {
                        return None;
                    }
                },
                None => {
                    return None;
                },
            }
        }
    }

    fn parse_object(&mut self) -> (r: Option<Value>)
        requires
            old(self).wf(),
            at(old(self).input@, old(self).pos as int, '{'),
        ensures
            final(self).wf(),
            final(self).input == old(self).input,
            match r {
                Some(v) => object_at(old(self).input@, old(self).pos as int) == Some(
                    (v@, final(self).pos as int),
                ) && old(self).pos < final(self).pos,
                None => object_at(old(self).input@, old(self).pos as int) is None,
            },
        decreases old(self).input@.len() - old(self).pos, 0int,
    {
        self.advance();
        self.skip_ws();
        let mut items: Vec<Member> = Vec::new();
        if self.peek() == Some('}') {
            self.advance();
            let v = Value::Obj(items);
            assert(v@->Obj_0 =~= Seq::<(Seq<char>, Json)>::empty());
            return Some(v);
        }
        loop
            invariant
                self.wf(),
                self.input == old(self).input,
                old(self).pos < self.pos,
                members_at(self.input@, self.pos as int, views::views(items@)) == object_at(
                    old(self).input@,
                    old(self).pos as int,
                ),
            decreases self.input@.len() - self.pos,
        {
            self.skip_ws();
            let key = match self.parse_string_raw() {
                Some(k) => k,
                None => {
                    return None;
                },
            };
            self.skip_ws();
            if self.peek() != Some(':') {
                return None;
            }
            self.advance();
            let value = match self.parse_value() {
                Some(v) => v,
                None => {
                    return None;
                },
            };
            items.push(Member { key, value });
            self.skip_ws();
            match self.peek() {
                Some(c) => {
                    if c == ',' {
                        self.advance();
                    } else if c == '}' {
                        self.advance();
                        let v = Value::Obj(items);
                        assert(v@->Obj_0 =~= views::views(items@));
                        return Some(v);
                    } else {
                        return None;
                    }
                },
                None => {
                    return None;
                },
            }
        }
    }
}

fn hex_char(c: char) -> (r: bool)
    ensures
        r == is_hex(c),
{
    ('0' <= c && c <= '9') || ('a' <= c && c <= 'f') || ('A' <= c && c <= 'F')
}

fn escape(s: &[char], i: usize) -> (r: Option<usize>)
    requires
        i < s@.len(),
    ensures
        match r {
            Some(e) => escape_end(s@, i as int) == Some(e as int) && i < e <= s@.len(),
            None => escape_end(s@, i as int) is None,
        },
{
    let left = s.len() - i;
    if left < 2 {
        return None;
    }
    let c = s[i + 1];
    if c == '"' || c == '\\' || c == '/' || c == 'b' || c == 'f' || c == 'n' || c == 'r' || c
        == 't' {
        Some(i + 2)
    } else if c == 'u' && left > 5 && hex_char(s[i + 2]) && hex_char(s[i + 3]) && hex_char(s[i + 4])
        && hex_char(s[i + 5]) {
        Some(i + 6)
    } else {
        None
    }
}

fn has(s: &[char], i: usize, c: char) -> (r: bool)
    ensures
        r == at(s@, i as int, c),
        r ==> i < usize::MAX,
{
    i < s.len() && s[i] == c
}

fn has_digit(s: &[char], i: usize) -> (r: bool)
    ensures
        r == digit_at(s@, i as int),
        r ==> i < usize::MAX,
{
    i < s.len() && '0' <= s[i] && s[i] <= '9'
}

fn skip_digits(s: &[char], from: usize) -> (e: usize)
    requires
        from <= s@.len(),
    ensures
        e == digits_end(s@, from as int),
        from <= e <= s@.len(),
        digit_at(s@, from as int) ==> from < e,
{
    let mut i: usize = from;
    while has_digit(s, i)
        invariant
            from <= i <= s@.len(),
            digit_at(s@, from as int) ==> from < i || digit_at(s@, i as int),
            digits_end(s@, i as int) == digits_end(s@, from as int),
        decreases s@.len() - i,
    {
        i = i + 1;
    }
    i
}

fn fraction(s: &[char], i: usize) -> (e: usize)
    requires
        i <= s@.len(),
    ensures
        e == fraction_end(s@, i as int),
        i <= e <= s@.len(),
{
    if has(s, i, '.') && has_digit(s, i + 1) {
        skip_digits(s, i + 1)
    } else {
        i
    }
}

fn exponent(s: &[char], i: usize) -> (e: usize)
    requires
        i <= s@.len(),
    ensures
        e == exponent_end(s@, i as int),
        i <= e <= s@.len(),
{
    if has(s, i, 'e') || has(s, i, 'E') {
        let d: usize = if has(s, i + 1, '+') || has(s, i + 1, '-') {
            i + 2
        } else {
            i + 1
        };
        if has_digit(s, d) {
            return skip_digits(s, d);
        }
    }
    i
}

// ---------------------------------------------------------------------------
// Printer
// ---------------------------------------------------------------------------

/// The indent of a container's body.
pub open spec fn deeper(indent: usize) -> usize {
    text::sat(indent + 2)
}

pub open spec fn spaces(n: usize) -> Seq<char> {
    text::repeated(' ', n as nat)
}

/// `line` followed by a comma, unless it is the last of `n`.
pub open spec fn separated(line: Seq<char>, i: int, n: int) -> Seq<char> {
    if i + 1 < n {
        line.push(',')
    } else {
        line
    }
}

/// The lines before a value's last, and its last line, where the value begins
/// after `cur` and its container is indented by `indent`.
pub open spec fn printed(v: Json, indent: usize, lines: Seq<Seq<char>>, cur: Seq<char>) -> (
    Seq<Seq<char>>,
    Seq<char>,
)
    decreases v, 0int,
{
    match v {
        Json::Null => (lines, cur + "null"@),
        Json::Bool(b) => (
            lines,
            cur + if b {
                "true"@
            } else {
                "false"@
            },
        ),
        Json::Num(s) => (lines, cur + s),
        Json::Str(s) => (lines, cur + s),
        Json::Arr(items) => if items.len() == 0 {
            (lines, cur + "[]"@)
        } else {
            (
                printed_elements(items, items.len() as int, deeper(indent), lines.push(cur.push('['))),
                spaces(indent).push(']'),
            )
        },
        Json::Obj(items) => if items.len() == 0 {
            (lines, cur + "{}"@)
        } else {
            (
                printed_members(items, items.len() as int, deeper(indent), lines.push(cur.push('{'))),
                spaces(indent).push('}'),
            )
        },
    }
}

/// The lines after the first `n` elements of an array, each at `indent`.
pub open spec fn printed_elements(
    items: Seq<Json>,
    n: int,
    indent: usize,
    lines: Seq<Seq<char>>,
) -> Seq<Seq<char>>
    decreases items, n,
{
    if n <= 0 || n > items.len() {
        lines
    } else {
        let before = printed_elements(items, n - 1, indent, lines);
        let (ls, last) = printed(items[n - 1], indent, before, spaces(indent));
        ls.push(separated(last, n - 1, items.len() as int))
    }
}

/// The lines after the first `n` members of an object, each at `indent`.
pub open spec fn printed_members(
    items: Seq<(Seq<char>, Json)>,
    n: int,
    indent: usize,
    lines: Seq<Seq<char>>,
) -> Seq<Seq<char>>
    decreases items, n,
{
    if n <= 0 || n > items.len() {
        lines
    } else {
        let before = printed_members(items, n - 1, indent, lines);
        let (ls, last) = printed(
            items[n - 1].1,
            indent,
            before,
            spaces(indent) + items[n - 1].0 + ": "@,
        );
        ls.push(separated(last, n - 1, items.len() as int))
    }
}

/// The pretty-printed lines of a value.
pub open spec fn pretty(v: Json) -> Seq<Seq<char>> {
    let (ls, last) = printed(v, 0, Seq::empty(), Seq::empty());
    ls.push(last)
}

/// Writes a value, begun on the line `cur`, into `out`; its last line stays in
/// `cur` for the caller to extend.
fn write_value(v: &Value, indent: usize, out: &mut Vec<String>, cur: &mut String)
    ensures
        (views::views(final(out)@), final(cur)@) == printed(
            v@,
            indent,
            views::views(old(out)@),
            old(cur)@,
        ),
    decreases v,
{
    match v {
        Value::Null => cur.push_str("null"),
        Value::Bool(b) => {
            if *b {
                cur.push_str("true")
            } else {
                cur.push_str("false")
            }
        },
        Value::Num(s) => cur.push_str(s),
        Value::Str(s) => cur.push_str(s),
        Value::Arr(items) => {
            if items.len() == 0 {
                cur.push_str("[]");
            } else {
                cur.push('[');
                let mut head = String::new();
                std::mem::swap(&mut head, cur);
                out.push(head);
                let ghost start = views::views(out@);
                let ghost jv = v@->Arr_0;
                let inner = indent.saturating_add(2);
                let n = items.len();
                let mut i: usize = 0;
                while i < n
                    invariant
                        n == items@.len(),
                        i <= n,
                        *v == Value::Arr(*items),
                        v@ == Json::Arr(jv),
                        jv.len() == n,
                        inner == deeper(indent),
                        views::views(out@) == printed_elements(jv, i as int, inner, start),
                    decreases n - i,
                {
                    let mut line = repeat_char(' ', inner);
                    assert(items@[i as int]@ == jv[i as int]);
                    write_value(&items[i], inner, out, &mut line);
                    i = i + 1;
                    if i < n {
                        line.push(',');
                    }
                    out.push(line);
                }
                cur.push_str(&repeat_char(' ', indent));
                cur.push(']');
                assert(cur@ =~= spaces(indent).push(']'));
            }
        },
        Value::Obj(items) => {
            if items.len() == 0 {
                cur.push_str("{}");
            } else {
                cur.push('{');
                let mut head = String::new();
                std::mem::swap(&mut head, cur);
                out.push(head);
                let ghost start = views::views(out@);
                let ghost jv = v@->Obj_0;
                let inner = indent.saturating_add(2);
                let n = items.len();
                let mut i: usize = 0;
                while i < n
                    invariant
                        n == items@.len(),
                        i <= n,
                        *v == Value::Obj(*items),
                        v@ == Json::Obj(jv),
                        jv.len() == n,
                        inner == deeper(indent),
                        views::views(out@) == printed_members(jv, i as int, inner, start),
                    decreases n - i,
                {
                    let mut line = repeat_char(' ', inner);
                    line.push_str(&items[i].key);
                    line.push_str(": ");
                    assert(items@[i as int]@ == jv[i as int]);
                    write_value(&items[i].value, inner, out, &mut line);
                    i = i + 1;
                    if i < n {
                        line.push(',');
                    }
                    out.push(line);
                }
                cur.push_str(&repeat_char(' ', indent));
                cur.push('}');
                assert(cur@ =~= spaces(indent).push('}'));
            }
        },
    }
}

/// Pretty-prints a single JSON value into lines indented by two spaces. `None`
/// when `s` is not one complete JSON value.
pub fn prettify(s: &str) -> (r: Option<Vec<String>>)
    ensures
        match r {
            Some(lines) => parsed(s@) matches Some(v) && views::views(lines@) == pretty(v),
            None => parsed(s@) is None,
        },
{
    let cs = to_chars(s);
    let mut p = Parser { input: &cs, pos: 0 };
    let v = match p.parse_value() {
        Some(v) => v,
        None => {
            return None;
        },
    };
    p.skip_ws();
    if p.pos != p.input.len() {
        return None;
    }
    let mut out: Vec<String> = Vec::new();
    let mut cur = String::new();
    assert(cur@ =~= Seq::<char>::empty());
    write_value(&v, 0, &mut out, &mut cur);
    out.push(cur);
    Some(out)
}

// ---------------------------------------------------------------------------
// Expand and collapse buttons
// ---------------------------------------------------------------------------

/// A clickable button in the left gutter of a JSON line: its hit box in display
/// coordinates and the source line it controls.
#[derive(Clone, Copy, Debug, PartialEq, Eq, Structural)]
pub struct JsonlButton {
    pub line: usize,
    pub col_start: usize,
    pub col_end: usize,
    pub source_line: usize,
}

/// The buttons of a document.
#[derive(Debug)]
pub struct JsonlOverlay {
    pub buttons: Vec<JsonlButton>,
}

impl Default for JsonlOverlay {
    fn default() -> (r: JsonlOverlay)
        ensures
            r.buttons@.len() == 0,
    {
        JsonlOverlay { buttons: Vec::new() }
    }
}

impl Clone for JsonlOverlay {
    fn clone(&self) -> (r: JsonlOverlay)
        ensures
            r.buttons@ == self.buttons@,
    {
        let buttons = self.buttons.clone();
        assert(buttons@ =~= self.buttons@);
        JsonlOverlay { buttons }
    }
}

/// The buttons that cover `(line, col)`.
pub open spec fn button_covers(line: usize, col: usize) -> spec_fn(JsonlButton) -> bool {
    |b: JsonlButton| b.line == line && b.col_start <= col < b.col_end
}

impl JsonlOverlay {
    /// Index of the button that covers `(line, col)`, if any.
    pub fn at(&self, line: usize, col: usize) -> (r: Option<usize>)
        ensures
            crate::links::as_index(r) == views::first_where(
                self.buttons@,
                button_covers(line, col),
                0,
            ),
    {
        let mut i: usize = 0;
        while i < self.buttons.len()
            invariant
                i <= self.buttons@.len(),
                views::first_where(self.buttons@, button_covers(line, col), 0)
                    == views::first_where(self.buttons@, button_covers(line, col), i as int),
            decreases self.buttons@.len() - i,
        {
            let b = &self.buttons[i];
            if b.line == line && col >= b.col_start && col < b.col_end {
                return Some(i);
            }
            i = i + 1;
        }
        None
    }
}

/// A line whose leading pad of two spaces got a glyph in its first cell.
pub open spec fn glyphed(line: Seq<style::SpanView>, glyph: Seq<char>, s: Style) -> Seq<style::SpanView> {
    if line.len() > 0 && line[0].content == "  "@ {
        seq![style::span(glyph, s), style::span(" "@, line[0].style)] + line.skip(1)
    } else {
        line
    }
}

fn replace_pad_left(line: &mut Line, glyph: &str, s: Style)
    ensures
        final(line)@ == glyphed(old(line)@, glyph@, s),
{
    if line.spans.len() == 0 || !same_text(&line.spans[0].content, "  ") {
        return ;
    }
    let bg = line.spans[0].style;
    let ghost before = views::views(line.spans@);
    line.spans.set(0, Span::styled(glyph.to_string(), s));
    line.spans.insert(1, Span::styled(" ".to_string(), bg));
    assert(line@ =~= glyphed(before, glyph@, s));
}

/// The text of a source line, empty past the end of the file.
pub open spec fn source_text(raw: Seq<&str>, i: usize) -> Seq<char> {
    if i < raw.len() {
        raw[i as int]@
    } else {
        Seq::empty()
    }
}

/// What decides the buttons of a document: for each code line the source line it
/// comes from, the source text, and which source lines are expanded.
pub struct ButtonPlan<'a> {
    pub raw: Seq<&'a str>,
    pub line_map: Seq<usize>,
    pub expanded: Set<usize>,
    /// Display row of the first code line.
    pub pre_start: usize,
    /// Columns that a source line may take.
    pub limit: usize,
    pub accent: Color,
}

impl<'a> ButtonPlan<'a> {
    /// Whether code line `j` belongs to a source line with a button.
    pub open spec fn active(self, j: int) -> bool {
        text::display_width(source_text(self.raw, self.line_map[j])) > self.limit
            || self.expanded.contains(self.line_map[j])
    }

    /// Whether code line `j` is the first of its source line.
    pub open spec fn is_head(self, j: int) -> bool {
        j == 0 || self.line_map[j - 1] != self.line_map[j]
    }

    pub open spec fn glyph(self, j: int) -> Seq<char> {
        if !self.is_head(j) {
            "│"@
        } else if self.expanded.contains(self.line_map[j]) {
            "▼"@
        } else {
            "▶"@
        }
    }

    pub open spec fn glyph_style(self, j: int) -> Style {
        if self.is_head(j) {
            Style::plain().fg(self.accent).add_modifier(Modifier::bold())
        } else {
            Style::plain().fg(self.accent)
        }
    }

    /// The lines and buttons after the first `n` code lines.
    pub open spec fn buttons(self, lines: Seq<Seq<style::SpanView>>, n: int) -> (
        Seq<Seq<style::SpanView>>,
        Seq<JsonlButton>,
    )
        decreases n,
    {
        if n <= 0 {
            (lines, Seq::empty())
        } else {
            let (ls, bs) = self.buttons(lines, n - 1);
            let row = self.pre_start + n - 1;
            if self.active(n - 1) && row < ls.len() {
                (
                    ls.update(row, glyphed(ls[row], self.glyph(n - 1), self.glyph_style(n - 1))),
                    bs.push(
                        JsonlButton {
                            line: row as usize,
                            col_start: 0,
                            col_end: 2,
                            source_line: self.line_map[n - 1],
                        },
                    ),
                )
            } else {
                (ls, bs)
            }
        }
    }
}

/// Puts the expand and collapse glyphs into the first column of a rendered code
/// block: one at the head row of each source line that overflows or is
/// expanded, and a guide on its continuation rows. Each such row accepts clicks.
///
/// `line_map[i]` is the source line that produced code line `i`, `pre_start` the
/// display row of the first code line, `body_width` the width of a row.
pub fn inject_buttons(
    lines: &mut Vec<Line>,
    raw_lines: &[&str],
    line_map: &[usize],
    expanded: &HashSet<usize>,
    pre_start: usize,
    body_width: usize,
    accent: Color,
) -> (overlay: JsonlOverlay)
    ensures
        (views::views(final(lines)@), overlay.buttons@) == (ButtonPlan {
            raw: raw_lines@,
            line_map: line_map@,
            expanded: expanded@,
            pre_start,
            limit: if body_width > 2 {
                (body_width - 2) as usize
            } else {
                0
            },
            accent,
        }).buttons(views::views(old(lines)@), line_map@.len() as int),
{
    let limit: usize = if body_width > 2 {
        body_width - 2
    } else {
        0
    };
    let ghost plan = ButtonPlan {
        raw: raw_lines@,
        line_map: line_map@,
        expanded: expanded@,
        pre_start,
        limit,
        accent,
    };
    let ghost start = views::views(lines@);
    let head_style = Style::plain().fg(accent).add_modifier(Modifier::bold());
    let guide_style = Style::plain().fg(accent);
    let mut buttons: Vec<JsonlButton> = Vec::new();
    let mut i: usize = 0;
    while i < line_map.len()
        invariant
            plan == (ButtonPlan {
                raw: raw_lines@,
                line_map: line_map@,
                expanded: expanded@,
                pre_start,
                limit,
                accent,
            }),
            head_style == Style::plain().fg(accent).add_modifier(Modifier::bold()),
            guide_style == Style::plain().fg(accent),
            i <= line_map@.len(),
            (views::views(lines@), buttons@) == plan.buttons(start, i as int),
        decreases line_map@.len() - i,
    {
        let src = line_map[i];
        let is_expanded = expanded.contains(&src);
        let raw_line: &str = if src < raw_lines.len() {
            raw_lines[src]
        } else {
            ""
        };
        proof {
            reveal_strlit("");
            assert(raw_line@ =~= source_text(plan.raw, src));
        }
        let overflows = str_width(raw_line) > limit;
        let n = lines.len();
        if (overflows || is_expanded) && pre_start < n && i < n - pre_start {
            let row = pre_start + i;
            let head = i == 0 || line_map[i - 1] != src;
            let glyph = if !head {
                "│"
            } else if is_expanded {
                "▼"
            } else {
                "▶"
            };
            let s = if head {
                head_style
            } else {
                guide_style
            };
            replace_pad_left(&mut lines[row], glyph, s);
            buttons.push(
                JsonlButton { line: row, col_start: 0, col_end: 2, source_line: src },
            );
        }
        i = i + 1;
    }
    JsonlOverlay { buttons }
}

} // verus!
