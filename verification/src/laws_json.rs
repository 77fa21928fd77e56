//! Pretty-printed JSON means what it did before.

use vstd::prelude::*;
use crate::jsonl;
use crate::jsonl::Json;
use crate::text;

verus! {

// ---------------------------------------------------------------------------
// Values that come from texts
// ---------------------------------------------------------------------------

/// Whether `s` is a number token.
pub open spec fn is_number(s: Seq<char>) -> bool {
    jsonl::number_end(s, 0) == Some(s.len() as int)
}

/// Whether a number may go on with `c`.
pub open spec fn is_number_char(c: char) -> bool {
    jsonl::is_digit(c) || c == '.' || c == 'e' || c == 'E' || c == '+' || c == '-'
}

/// Whether `s` is a string token.
pub open spec fn is_string(s: Seq<char>) -> bool {
    jsonl::string_end(s, 0) == Some(s.len() as int)
}

/// Whether a value is made of tokens.
pub open spec fn is_value(v: Json) -> bool
    decreases v,
{
    match v {
        Json::Null => true,
        Json::Bool(_) => true,
        Json::Num(s) => is_number(s),
        Json::Str(s) => is_string(s),
        Json::Arr(items) => forall|i: int| 0 <= i < items.len() ==> is_value(#[trigger] items[i]),
        Json::Obj(items) => forall|i: int|
            0 <= i < items.len() ==> is_string((#[trigger] items[i]).0) && is_value(items[i].1),
    }
}

proof fn lemma_string_rest(s: Seq<char>, i: int)
    ensures
        jsonl::string_rest(s, i) matches Some(e) ==> i < e <= s.len(),
    decreases s.len() - i,
{
    if 0 <= i < s.len() {
        if s[i] != '\\' {
            lemma_string_rest(s, i + 1);
        } else if jsonl::escape_end(s, i) is Some {
            lemma_string_rest(s, jsonl::escape_end(s, i)->0);
        }
    }
}

/// A string ends at the same place in a part of the text that holds it.
proof fn lemma_string_part(s: Seq<char>, p: int, i: int, e: int)
    requires
        0 <= p <= i,
        jsonl::string_rest(s, i) == Some(e),
    ensures
        jsonl::string_rest(s.subrange(p, e), i - p) == Some(e - p),
        i < e <= s.len(),
    decreases s.len() - i,
{
    lemma_string_rest(s, i);
    let u = s.subrange(p, e);
    assert(u[i - p] == s[i]);
    if s[i] == '\\' {
        let j = jsonl::escape_end(s, i)->0;
        lemma_string_part(s, p, j, e);
        assert(u[i + 1 - p] == s[i + 1]);
        assert(j == i + 6 ==> u[i + 2 - p] == s[i + 2] && u[i + 3 - p] == s[i + 3] && u[i + 4 - p]
            == s[i + 4] && u[i + 5 - p] == s[i + 5]);
    } else if s[i] == '"' {
    } else {
        lemma_string_part(s, p, i + 1, e);
    }
}

proof fn lemma_string_token(s: Seq<char>, p: int, e: int)
    requires
        jsonl::string_end(s, p) == Some(e),
    ensures
        is_string(s.subrange(p, e)),
        p < e <= s.len(),
{
    lemma_string_part(s, p, p + 1, e);
}

proof fn lemma_digits(s: Seq<char>, i: int)
    requires
        0 <= i <= s.len(),
    ensures
        i <= jsonl::digits_end(s, i) <= s.len(),
        !jsonl::digit_at(s, jsonl::digits_end(s, i)),
        jsonl::digit_at(s, i) ==> i < jsonl::digits_end(s, i),
    decreases s.len() - i,
{
    if jsonl::digit_at(s, i) {
        lemma_digits(s, i + 1);
    }
}

/// Digits end at the same place in a part of the text that holds them.
proof fn lemma_digits_part(s: Seq<char>, p: int, u: Seq<char>, i: int)
    requires
        0 <= p,
        0 <= i <= u.len(),
        p + u.len() <= s.len(),
        forall|k: int| 0 <= k < u.len() ==> s[p + k] == #[trigger] u[k],
        jsonl::digits_end(s, p + i) <= p + u.len(),
    ensures
        jsonl::digits_end(s, p + i) == p + jsonl::digits_end(u, i),
    decreases u.len() - i,
{
    if i < u.len() {
        assert(s[p + i] == u[i]);
        if jsonl::digit_at(u, i) {
            lemma_digits_part(s, p, u, i + 1);
        }
    } else {
        lemma_digits(s, p + i);
    }
}

/// A number ends at the same place in a part of the text that holds it.
proof fn lemma_number_part(s: Seq<char>, p: int, u: Seq<char>)
    requires
        0 <= p,
        p + u.len() <= s.len(),
        forall|k: int| 0 <= k < u.len() ==> s[p + k] == #[trigger] u[k],
        jsonl::number_end(s, p) == Some(p + u.len()),
    ensures
        is_number(u),
{
    let w: int = if jsonl::at(s, p, '-') {
        1
    } else {
        0
    };
    let e = jsonl::whole_end(s, p + w)->0;
    let f = jsonl::fraction_end(s, e);
    let x = jsonl::exponent_end(s, f);
    lemma_digits(s, p + w);
    if e < s.len() {
        lemma_digits(s, e + 1);
    }
    if f + 1 < s.len() {
        lemma_digits(s, f + 1);
    }
    if f + 2 < s.len() {
        lemma_digits(s, f + 2);
    }
    assert(x == p + u.len());
    assert(p + w < e <= f <= x);
    assert(u[0] == s[p + 0]);
    assert(u[w] == s[p + w]);
    if !jsonl::at(s, p + w, '0') {
        lemma_digits_part(s, p, u, w);
    }
    assert(jsonl::whole_end(u, w) == Some(e - p));
    if e < f {
        assert(u[e - p] == s[p + (e - p)]);
        assert(u[e + 1 - p] == s[p + (e + 1 - p)]);
        lemma_digits_part(s, p, u, e + 1 - p);
    } else if e < x {
        assert(u[e - p] == s[p + (e - p)]);
    }
    assert(jsonl::fraction_end(u, e - p) == f - p);
    if f < x {
        assert(u[f - p] == s[p + (f - p)]);
        assert(u[f + 1 - p] == s[p + (f + 1 - p)]);
        if jsonl::at(s, f + 1, '+') || jsonl::at(s, f + 1, '-') {
            assert(u[f + 2 - p] == s[p + (f + 2 - p)]);
            lemma_digits_part(s, p, u, f + 2 - p);
        } else {
            lemma_digits_part(s, p, u, f + 1 - p);
        }
    }
}

proof fn lemma_value_at(s: Seq<char>, i: int)
    ensures
        jsonl::value_at(s, i) matches Some((v, e)) ==> is_value(v),
    decreases s.len() - i, 1int,
{
    let p = jsonl::after_ws(s, i);
    if !(p < i || p < 0 || p >= s.len()) {
        if s[p] == '{' {
            lemma_object_at(s, p);
        } else if s[p] == '[' {
            lemma_array_at(s, p);
        } else if s[p] == '"' {
            match jsonl::string_end(s, p) {
                Some(e) => lemma_string_token(s, p, e),
                None => {},
            }
        } else if jsonl::starts_number(s[p]) {
            match jsonl::number_end(s, p) {
                Some(e) => {
                    lemma_number_bounds(s, p);
                    lemma_number_part(s, p, s.subrange(p, e));
                },
                None => {},
            }
        }
    }
}

proof fn lemma_number_bounds(s: Seq<char>, p: int)
    requires
        0 <= p <= s.len(),
    ensures
        jsonl::number_end(s, p) matches Some(e) ==> p < e <= s.len(),
{
    let w: int = if jsonl::at(s, p, '-') {
        1
    } else {
        0
    };
    lemma_digits(s, p + w);
    match jsonl::whole_end(s, p + w) {
        Some(e) => {
            let f = jsonl::fraction_end(s, e);
            if e < s.len() {
                lemma_digits(s, e + 1);
            }
            if f < s.len() {
                lemma_digits(s, f + 1);
            }
            if f + 1 < s.len() {
                lemma_digits(s, f + 2);
            }
        },
        None => {},
    }
}

proof fn lemma_array_at(s: Seq<char>, p: int)
    ensures
        jsonl::array_at(s, p) matches Some((v, e)) ==> is_value(v),
    decreases s.len() - p, 0int,
{
    let q = jsonl::after_ws(s, p + 1);
    if !(q <= p || q > s.len()) && !jsonl::at(s, q, ']') {
        lemma_elements_at(s, q, Seq::empty());
    }
}

proof fn lemma_elements_at(s: Seq<char>, p: int, done: Seq<Json>)
    requires
        forall|i: int| 0 <= i < done.len() ==> is_value(#[trigger] done[i]),
    ensures
        jsonl::elements_at(s, p, done) matches Some((v, e)) ==> is_value(v),
    decreases s.len() - p, 2int,
{
    lemma_value_at(s, p);
    match jsonl::value_at(s, p) {
        Some((v, e)) => {
            let r = jsonl::after_ws(s, e);
            let next = done.push(v);
            assert forall|i: int| 0 <= i < next.len() implies is_value(#[trigger] next[i]) by {
                if i < done.len() {
                    assert(next[i] == done[i]);
                }
            }
            if r > p && jsonl::at(s, r, ',') {
                lemma_elements_at(s, r + 1, next);
            }
        },
        None => {},
    }
}

proof fn lemma_object_at(s: Seq<char>, p: int)
    ensures
        jsonl::object_at(s, p) matches Some((v, e)) ==> is_value(v),
    decreases s.len() - p, 0int,
{
    let q = jsonl::after_ws(s, p + 1);
    if !(q <= p || q > s.len()) && !jsonl::at(s, q, '}') {
        lemma_members_at(s, q, Seq::empty());
    }
}

proof fn lemma_members_at(s: Seq<char>, p: int, done: Seq<(Seq<char>, Json)>)
    requires
        forall|i: int|
            0 <= i < done.len() ==> is_string((#[trigger] done[i]).0) && is_value(done[i].1),
    ensures
        jsonl::members_at(s, p, done) matches Some((v, e)) ==> is_value(v),
    decreases s.len() - p, 2int,
{
    match jsonl::key_at(s, p) {
        Some((ke, vp)) => {
            if !(vp <= p || vp > s.len()) {
                lemma_value_at(s, vp);
                let k = jsonl::after_ws(s, p);
                lemma_string_token(s, k, ke);
                match jsonl::value_at(s, vp) {
                    Some((v, e)) => {
                        let r = jsonl::after_ws(s, e);
                        let next = done.push((s.subrange(k, ke), v));
                        assert forall|i: int| 0 <= i < next.len() implies is_string(
                            (#[trigger] next[i]).0,
                        ) && is_value(next[i].1) by {
                            if i < done.len() {
                                assert(next[i] == done[i]);
                            }
                        }
                        if r > p && jsonl::at(s, r, ',') {
                            lemma_members_at(s, r + 1, next);
                        }
                    },
                    None => {},
                }
            }
        },
        None => {},
    }
}

// ---------------------------------------------------------------------------
// The printed text of a value
// ---------------------------------------------------------------------------

/// Lines with a newline after each.
pub open spec fn ended_lines(lines: Seq<Seq<char>>) -> Seq<char>
    decreases lines.len(),
{
    if lines.len() == 0 {
        Seq::empty()
    } else {
        ended_lines(lines.drop_last()) + lines.last().push('\n')
    }
}

/// Lines with newlines between them.
pub open spec fn joined_lines(lines: Seq<Seq<char>>) -> Seq<char> {
    if lines.len() == 0 {
        Seq::empty()
    } else {
        ended_lines(lines.drop_last()) + lines.last()
    }
}

/// What ends the line of element `i` of `n`.
spec fn line_end(i: int, n: int) -> Seq<char> {
    if i + 1 < n {
        seq![',', '\n']
    } else {
        seq!['\n']
    }
}

/// The text of a value.
spec fn flat(v: Json, indent: usize) -> Seq<char>
    decreases v, 0int,
{
    match v {
        Json::Null => "null"@,
        Json::Bool(b) => if b {
            "true"@
        } else {
            "false"@
        },
        Json::Num(s) => s,
        Json::Str(s) => s,
        Json::Arr(items) => if items.len() == 0 {
            "[]"@
        } else {
            seq!['[', '\n'] + flat_elements(items, 0, jsonl::deeper(indent)) + jsonl::spaces(
                indent,
            ).push(']')
        },
        Json::Obj(items) => if items.len() == 0 {
            "{}"@
        } else {
            seq!['{', '\n'] + flat_members(items, 0, jsonl::deeper(indent)) + jsonl::spaces(
                indent,
            ).push('}')
        },
    }
}

/// The text of the elements from `k` on.
spec fn flat_elements(items: Seq<Json>, k: int, indent: usize) -> Seq<char>
    decreases items, items.len() - k,
{
    if k < 0 || k >= items.len() {
        Seq::empty()
    } else {
        jsonl::spaces(indent) + flat(items[k], indent) + line_end(k, items.len() as int)
            + flat_elements(items, k + 1, indent)
    }
}

/// The text of the members from `k` on.
spec fn flat_members(items: Seq<(Seq<char>, Json)>, k: int, indent: usize) -> Seq<char>
    decreases items, items.len() - k,
{
    if k < 0 || k >= items.len() {
        Seq::empty()
    } else {
        jsonl::spaces(indent) + items[k].0 + ": "@ + flat(items[k].1, indent) + line_end(
            k,
            items.len() as int,
        ) + flat_members(items, k + 1, indent)
    }
}

proof fn lemma_ended_push(lines: Seq<Seq<char>>, l: Seq<char>)
    ensures
        ended_lines(lines.push(l)) == ended_lines(lines) + l.push('\n'),
{
    assert(lines.push(l).drop_last() =~= lines);
}

proof fn lemma_printed(v: Json, indent: usize, lines: Seq<Seq<char>>, cur: Seq<char>)
    ensures
        ({
            let (ls, last) = jsonl::printed(v, indent, lines, cur);
            ended_lines(ls) + last == ended_lines(lines) + cur + flat(v, indent)
        }),
    decreases v, 0int,
{
    let (ls, last) = jsonl::printed(v, indent, lines, cur);
    let start = ended_lines(lines);
    match v {
        Json::Arr(items) => {
            if items.len() == 0 {
                assert(start + (cur + "[]"@) =~= start + cur + "[]"@);
            } else {
                let inner = jsonl::deeper(indent);
                let head = lines.push(cur.push('['));
                lemma_ended_push(lines, cur.push('['));
                lemma_printed_elements(items, items.len() as int, inner, head);
                let body = flat_elements(items, 0, inner);
                assert(flat_elements(items, items.len() as int, inner) =~= Seq::empty());
                assert(ended_lines(ls) =~= ended_lines(head) + body);
                assert(ended_lines(ls) + last =~= start + cur + (seq!['[', '\n'] + body
                    + jsonl::spaces(indent).push(']')));
            }
        },
        Json::Obj(items) => {
            if items.len() == 0 {
                assert(start + (cur + "{}"@) =~= start + cur + "{}"@);
            } else {
                let inner = jsonl::deeper(indent);
                let head = lines.push(cur.push('{'));
                lemma_ended_push(lines, cur.push('{'));
                lemma_printed_members(items, items.len() as int, inner, head);
                let body = flat_members(items, 0, inner);
                assert(flat_members(items, items.len() as int, inner) =~= Seq::empty());
                assert(ended_lines(ls) =~= ended_lines(head) + body);
                assert(ended_lines(ls) + last =~= start + cur + (seq!['{', '\n'] + body
                    + jsonl::spaces(indent).push('}')));
            }
        },
        _ => {
            assert(start + (cur + flat(v, indent)) =~= start + cur + flat(v, indent));
        },
    }
}

proof fn lemma_printed_elements(items: Seq<Json>, n: int, indent: usize, lines: Seq<Seq<char>>)
    requires
        0 <= n <= items.len(),
    ensures
        ended_lines(jsonl::printed_elements(items, n, indent, lines)) + flat_elements(
            items,
            n,
            indent,
        ) == ended_lines(lines) + flat_elements(items, 0, indent),
    decreases items, n,
{
    if n > 0 {
        lemma_printed_elements(items, n - 1, indent, lines);
        let before = jsonl::printed_elements(items, n - 1, indent, lines);
        let (ls, last) = jsonl::printed(items[n - 1], indent, before, jsonl::spaces(indent));
        lemma_printed(items[n - 1], indent, before, jsonl::spaces(indent));
        let line = jsonl::separated(last, n - 1, items.len() as int);
        lemma_ended_push(ls, line);
        assert(line.push('\n') =~= last + line_end(n - 1, items.len() as int));
        assert(ended_lines(ls) + line.push('\n') =~= ended_lines(before) + jsonl::spaces(indent)
            + flat(items[n - 1], indent) + line_end(n - 1, items.len() as int));
        let rest = flat_elements(items, n, indent);
        assert(ended_lines(ls) + line.push('\n') + rest =~= ended_lines(before) + (
        jsonl::spaces(indent) + flat(items[n - 1], indent) + line_end(
            n - 1,
            items.len() as int,
        ) + rest));
    }
}

proof fn lemma_printed_members(
    items: Seq<(Seq<char>, Json)>,
    n: int,
    indent: usize,
    lines: Seq<Seq<char>>,
)
    requires
        0 <= n <= items.len(),
    ensures
        ended_lines(jsonl::printed_members(items, n, indent, lines)) + flat_members(
            items,
            n,
            indent,
        ) == ended_lines(lines) + flat_members(items, 0, indent),
    decreases items, n,
{
    if n > 0 {
        lemma_printed_members(items, n - 1, indent, lines);
        let before = jsonl::printed_members(items, n - 1, indent, lines);
        let head = jsonl::spaces(indent) + items[n - 1].0 + ": "@;
        let (ls, last) = jsonl::printed(items[n - 1].1, indent, before, head);
        lemma_printed(items[n - 1].1, indent, before, head);
        let line = jsonl::separated(last, n - 1, items.len() as int);
        lemma_ended_push(ls, line);
        assert(line.push('\n') =~= last + line_end(n - 1, items.len() as int));
        let rest = flat_members(items, n, indent);
        let end = line_end(n - 1, items.len() as int);
        assert(ended_lines(ls) + line.push('\n') =~= (ended_lines(ls) + last) + end);
        assert((ended_lines(ls) + last) + end + rest =~= ended_lines(before) + (head + flat(
            items[n - 1].1,
            indent,
        ) + end + rest));
        assert(ended_lines(ls) + line.push('\n') + rest =~= ended_lines(before) + (head + flat(
            items[n - 1].1,
            indent,
        ) + line_end(n - 1, items.len() as int) + rest));
    }
}

// ---------------------------------------------------------------------------
// Reading the printed text
// ---------------------------------------------------------------------------

/// Whether `s` goes on with `x` at `i`.
spec fn goes_on(s: Seq<char>, i: int, x: Seq<char>) -> bool {
    0 <= i <= s.len() && s.skip(i) == x
}

proof fn lemma_goes_on(s: Seq<char>, i: int, a: Seq<char>, b: Seq<char>)
    requires
        goes_on(s, i, a + b),
    ensures
        i + a.len() + b.len() == s.len(),
        goes_on(s, i + a.len(), b),
        forall|k: int| 0 <= k < a.len() ==> s[i + k] == #[trigger] a[k],
        b.len() > 0 ==> s[i + a.len()] == b[0],
        text::occurs_at(s, a, i),
{
    assert(s.skip(i).len() == s.len() - i);
    assert forall|k: int| 0 <= k < a.len() implies s[i + k] == #[trigger] a[k] by {
        assert(s.skip(i)[k] == (a + b)[k]);
    }
    assert(s.skip(i + a.len()) =~= b) by {
        assert forall|k: int| 0 <= k < b.len() implies s.skip(i + a.len())[k] == b[k] by {
            assert(s.skip(i)[a.len() + k] == (a + b)[a.len() + k]);
        }
    }
    assert(s.subrange(i, i + a.len()) =~= a);
}

/// White space is passed over up to what follows it.
proof fn lemma_after_ws(s: Seq<char>, i: int, ws: Seq<char>, x: Seq<char>)
    requires
        goes_on(s, i, ws + x),
        forall|k: int| 0 <= k < ws.len() ==> jsonl::is_ws(#[trigger] ws[k]),
        x.len() > 0 ==> !jsonl::is_ws(x[0]),
    ensures
        jsonl::after_ws(s, i) == i + ws.len(),
        goes_on(s, i + ws.len(), x),
    decreases ws.len(),
{
    lemma_goes_on(s, i, ws, x);
    if ws.len() > 0 {
        assert(s[i + 0] == ws[0]);
        let rest = ws.skip(1);
        assert(goes_on(s, i + 1, rest + x)) by {
            assert(ws + x =~= seq![ws[0]] + (rest + x));
            lemma_goes_on(s, i, seq![ws[0]], rest + x);
        }
        assert forall|k: int| 0 <= k < rest.len() implies jsonl::is_ws(#[trigger] rest[k]) by {
            assert(rest[k] == ws[k + 1]);
        }
        lemma_after_ws(s, i + 1, rest, x);
    }
}

proof fn lemma_read_digits(s: Seq<char>, p: int, num: Seq<char>, rest: Seq<char>, i: int)
    requires
        goes_on(s, p, num + rest),
        rest.len() > 0 ==> !is_number_char(rest[0]),
        0 <= i <= num.len(),
    ensures
        jsonl::digits_end(s, p + i) == p + jsonl::digits_end(num, i),
    decreases num.len() - i,
{
    lemma_goes_on(s, p, num, rest);
    if i < num.len() {
        assert(s[p + i] == num[i]);
        if jsonl::digit_at(num, i) {
            lemma_read_digits(s, p, num, rest, i + 1);
        }
    } else if rest.len() > 0 {
        assert(s[p + i] == rest[0]);
    }
}

proof fn lemma_read_number(s: Seq<char>, p: int, num: Seq<char>, rest: Seq<char>)
    requires
        goes_on(s, p, num + rest),
        is_number(num),
        rest.len() > 0 ==> !is_number_char(rest[0]),
    ensures
        jsonl::number_end(s, p) == Some(p + num.len()),
{
    lemma_goes_on(s, p, num, rest);
    let n = num.len() as int;
    assert forall|i: int, c: char|
        0 <= i <= n && is_number_char(c) implies #[trigger] jsonl::at(s, p + i, c) == jsonl::at(
        num,
        i,
        c,
    ) by {
        if i < n {
            assert(s[p + i] == num[i]);
        } else if rest.len() > 0 {
            assert(s[p + i] == rest[0]);
        }
    }
    assert forall|i: int| 0 <= i <= n implies #[trigger] jsonl::digit_at(s, p + i)
        == jsonl::digit_at(num, i) by {
        if i < n {
            assert(s[p + i] == num[i]);
        } else if rest.len() > 0 {
            assert(s[p + i] == rest[0]);
        }
    }
    let w: int = if jsonl::at(num, 0, '-') {
        1
    } else {
        0
    };
    let e = jsonl::whole_end(num, w)->0;
    let f = jsonl::fraction_end(num, e);
    lemma_digits(num, w);
    if e < n {
        lemma_digits(num, e + 1);
    }
    if f < n {
        lemma_digits(num, f + 1);
    }
    if f + 1 < n {
        lemma_digits(num, f + 2);
    }
    assert(jsonl::at(s, p + 0, '-') == jsonl::at(num, 0, '-'));
    assert(jsonl::at(s, p + w, '0') == jsonl::at(num, w, '0'));
    assert(jsonl::digit_at(s, p + w) == jsonl::digit_at(num, w));
    lemma_read_digits(s, p, num, rest, w);
    assert(jsonl::whole_end(s, p + w) == Some(p + e));
    assert(jsonl::at(s, p + e, '.') == jsonl::at(num, e, '.'));
    if e < n {
        assert(jsonl::digit_at(s, p + (e + 1)) == jsonl::digit_at(num, e + 1));
        lemma_read_digits(s, p, num, rest, e + 1);
    }
    assert(jsonl::fraction_end(s, p + e) == p + f);
    assert(jsonl::at(s, p + f, 'e') == jsonl::at(num, f, 'e'));
    assert(jsonl::at(s, p + f, 'E') == jsonl::at(num, f, 'E'));
    if f < n {
        assert(jsonl::at(s, p + (f + 1), '+') == jsonl::at(num, f + 1, '+'));
        assert(jsonl::at(s, p + (f + 1), '-') == jsonl::at(num, f + 1, '-'));
        assert(jsonl::digit_at(s, p + (f + 1)) == jsonl::digit_at(num, f + 1));
        lemma_read_digits(s, p, num, rest, f + 1);
    }
    if f + 1 < n {
        assert(jsonl::digit_at(s, p + (f + 2)) == jsonl::digit_at(num, f + 2));
        lemma_read_digits(s, p, num, rest, f + 2);
    }
    assert(jsonl::exponent_end(s, p + f) == p + jsonl::exponent_end(num, f));
}

/// A string that stands in a larger text ends at the same place.
proof fn lemma_read_string_rest(s: Seq<char>, p: int, str: Seq<char>, i: int, e: int)
    requires
        0 <= p,
        0 <= i,
        p + str.len() <= s.len(),
        forall|k: int| 0 <= k < str.len() ==> s[p + k] == #[trigger] str[k],
        jsonl::string_rest(str, i) == Some(e),
    ensures
        jsonl::string_rest(s, p + i) == Some(p + e),
    decreases str.len() - i,
{
    lemma_string_rest(str, i);
    assert(s[p + i] == str[i]);
    if str[i] == '\\' {
        let j = jsonl::escape_end(str, i)->0;
        lemma_string_rest(str, j);
        assert(s[p + (i + 1)] == str[i + 1]);
        if j == i + 6 {
            assert(s[p + (i + 2)] == str[i + 2]);
            assert(s[p + (i + 3)] == str[i + 3]);
            assert(s[p + (i + 4)] == str[i + 4]);
            assert(s[p + (i + 5)] == str[i + 5]);
        }
        lemma_read_string_rest(s, p, str, j, e);
    } else if str[i] == '"' {
    } else {
        lemma_read_string_rest(s, p, str, i + 1, e);
    }
}

proof fn lemma_read_string(s: Seq<char>, p: int, str: Seq<char>, rest: Seq<char>)
    requires
        goes_on(s, p, str + rest),
        is_string(str),
    ensures
        str.len() > 0,
        str[0] == '"',
        jsonl::string_end(s, p) == Some(p + str.len()),
{
    lemma_goes_on(s, p, str, rest);
    lemma_string_rest(str, 1);
    assert(s[p + 0] == str[0]);
    lemma_read_string_rest(s, p, str, 1, str.len() as int);
}

/// The text of a value begins with a character that is not white space.
proof fn lemma_flat_start(v: Json, indent: usize)
    requires
        is_value(v),
    ensures
        flat(v, indent).len() > 0,
        !jsonl::is_ws(flat(v, indent)[0]),
{
    reveal_strlit("null");
    reveal_strlit("true");
    reveal_strlit("false");
    reveal_strlit("[]");
    reveal_strlit("{}");
    match v {
        Json::Str(s) => {
            lemma_string_rest(s, 1);
        },
        _ => {},
    }
}

/// Reading the text of a value gives the value and ends where the text does.
proof fn lemma_read_value(
    s: Seq<char>,
    i: int,
    ws: Seq<char>,
    v: Json,
    indent: usize,
    rest: Seq<char>,
)
    requires
        is_value(v),
        goes_on(s, i, ws + (flat(v, indent) + rest)),
        forall|k: int| 0 <= k < ws.len() ==> jsonl::is_ws(#[trigger] ws[k]),
        rest.len() > 0 ==> !is_number_char(rest[0]),
    ensures
        jsonl::value_at(s, i) == Some((v, s.len() - rest.len())),
    decreases v, 1int,
{
    reveal_strlit("null");
    reveal_strlit("true");
    reveal_strlit("false");
    reveal_strlit("[]");
    reveal_strlit("{}");
    let f = flat(v, indent);
    lemma_flat_start(v, indent);
    lemma_after_ws(s, i, ws, f + rest);
    let p = i + ws.len();
    lemma_goes_on(s, p, f, rest);
    assert(s[p + 0] == f[0]);
    match v {
        Json::Null => {},
        Json::Bool(b) => {},
        Json::Num(t) => {
            lemma_read_number(s, p, t, rest);
            assert(s.subrange(p, p + t.len()) =~= t);
            lemma_no_word(s, p);
        },
        Json::Str(t) => {
            lemma_read_string(s, p, t, rest);
            assert(s.subrange(p, p + t.len()) =~= t);
        },
        Json::Arr(items) => lemma_read_array(s, p, items, indent, rest),
        Json::Obj(items) => lemma_read_object(s, p, items, indent, rest),
    }
}

/// Reading the text of an array, from its bracket on.
proof fn lemma_read_array(
    s: Seq<char>,
    p: int,
    items: Seq<Json>,
    indent: usize,
    rest: Seq<char>,
)
    requires
        is_value(Json::Arr(items)),
        goes_on(s, p, flat(Json::Arr(items), indent) + rest),
    ensures
        jsonl::array_at(s, p) == Some((Json::Arr(items), s.len() - rest.len())),
    decreases items, items.len() + 1,
{
    reveal_strlit("[]");
    let f = flat(Json::Arr(items), indent);
    lemma_goes_on(s, p, f, rest);
    if items.len() == 0 {
        assert(s[p + 1] == f[1]);
        assert(items =~= Seq::<Json>::empty());
    } else {
        let inner = jsonl::deeper(indent);
        let body = flat_elements(items, 0, inner);
        let end = jsonl::spaces(indent).push(']') + rest;
        assert(is_value(items[0]));
        lemma_elements_start(items, inner);
        let more = body.skip(inner as int);
        let gap = seq!['\n'] + jsonl::spaces(inner);
        assert(f + rest =~= seq!['['] + (gap + (more + end)));
        lemma_goes_on(s, p, seq!['['], gap + (more + end));
        lemma_after_ws(s, p + 1, gap, more + end);
        let q = p + 1 + gap.len();
        lemma_goes_on(s, q, more, end);
        assert(s[q + 0] == more[0]);
        assert(more + end =~= Seq::<char>::empty() + (flat(items[0], inner) + (line_end(
            0,
            items.len() as int,
        ) + flat_elements(items, 1, inner) + end)));
        lemma_read_elements(s, q, Seq::empty(), items, 0, inner, jsonl::spaces(indent), rest);
        assert(items.take(0) =~= Seq::<Json>::empty());
    }
}

/// Reading the text of an object, from its brace on.
proof fn lemma_read_object(
    s: Seq<char>,
    p: int,
    items: Seq<(Seq<char>, Json)>,
    indent: usize,
    rest: Seq<char>,
)
    requires
        is_value(Json::Obj(items)),
        goes_on(s, p, flat(Json::Obj(items), indent) + rest),
    ensures
        jsonl::object_at(s, p) == Some((Json::Obj(items), s.len() - rest.len())),
    decreases items, items.len() + 1,
{
    reveal_strlit("{}");
    let f = flat(Json::Obj(items), indent);
    lemma_goes_on(s, p, f, rest);
    if items.len() == 0 {
        assert(s[p + 1] == f[1]);
        assert(items =~= Seq::<(Seq<char>, Json)>::empty());
    } else {
        let inner = jsonl::deeper(indent);
        let body = flat_members(items, 0, inner);
        let end = jsonl::spaces(indent).push('}') + rest;
        assert(is_string(items[0].0));
        lemma_members_start(items, inner);
        let more = body.skip(inner as int);
        let gap = seq!['\n'] + jsonl::spaces(inner);
        assert(f + rest =~= seq!['{'] + (gap + (more + end)));
        lemma_goes_on(s, p, seq!['{'], gap + (more + end));
        lemma_after_ws(s, p + 1, gap, more + end);
        let q = p + 1 + gap.len();
        lemma_goes_on(s, q, more, end);
        assert(s[q + 0] == more[0]);
        assert(more + end =~= Seq::<char>::empty() + (items[0].0 + (": "@ + (flat(
            items[0].1,
            inner,
        ) + (line_end(0, items.len() as int) + flat_members(items, 1, inner) + end)))));
        lemma_read_members(s, q, Seq::empty(), items, 0, inner, jsonl::spaces(indent), rest);
        assert(items.take(0) =~= Seq::<(Seq<char>, Json)>::empty());
    }
}

/// A number is no word of the language.
proof fn lemma_no_word(s: Seq<char>, p: int)
    requires
        0 <= p < s.len(),
        jsonl::starts_number(s[p]),
    ensures
        !text::occurs_at(s, "true"@, p),
        !text::occurs_at(s, "false"@, p),
        !text::occurs_at(s, "null"@, p),
{
    reveal_strlit("null");
    reveal_strlit("true");
    reveal_strlit("false");
    if text::occurs_at(s, "true"@, p) {
        assert(s.subrange(p, p + 4)[0] == s[p]);
    }
    if text::occurs_at(s, "false"@, p) {
        assert(s.subrange(p, p + 5)[0] == s[p]);
    }
    if text::occurs_at(s, "null"@, p) {
        assert(s.subrange(p, p + 4)[0] == s[p]);
    }
}

proof fn lemma_elements_start(items: Seq<Json>, indent: usize)
    requires
        items.len() > 0,
        is_value(items[0]),
    ensures
        ({
            let body = flat_elements(items, 0, indent);
            let more = body.skip(indent as int);
            &&& body == jsonl::spaces(indent) + more
            &&& more == flat(items[0], indent) + line_end(0, items.len() as int) + flat_elements(
                items,
                1,
                indent,
            )
            &&& more.len() > 0
            &&& !jsonl::is_ws(more[0])
            &&& more[0] != ']'
        }),
{
    lemma_flat_start(items[0], indent);
    let f = flat(items[0], indent);
    let body = flat_elements(items, 0, indent);
    let tail = line_end(0, items.len() as int) + flat_elements(items, 1, indent);
    assert(body =~= jsonl::spaces(indent) + (f + tail));
    assert(body.skip(indent as int) =~= f + tail);
    assert(f + tail =~= f + line_end(0, items.len() as int) + flat_elements(items, 1, indent));
    lemma_flat_no_close(items[0], indent);
}

/// The text of a value does not begin with a closing bracket.
proof fn lemma_flat_no_close(v: Json, indent: usize)
    requires
        is_value(v),
    ensures
        flat(v, indent).len() > 0,
        flat(v, indent)[0] != ']',
{
    reveal_strlit("null");
    reveal_strlit("true");
    reveal_strlit("false");
    reveal_strlit("[]");
    reveal_strlit("{}");
    match v {
        Json::Str(s) => {
            lemma_string_rest(s, 1);
        },
        _ => {},
    }
}

proof fn lemma_members_start(items: Seq<(Seq<char>, Json)>, indent: usize)
    requires
        items.len() > 0,
        is_string(items[0].0),
    ensures
        ({
            let body = flat_members(items, 0, indent);
            let more = body.skip(indent as int);
            &&& body == jsonl::spaces(indent) + more
            &&& more == items[0].0 + ": "@ + flat(items[0].1, indent) + line_end(
                0,
                items.len() as int,
            ) + flat_members(items, 1, indent)
            &&& more.len() > 0
            &&& more[0] == '"'
        }),
{
    let key = items[0].0;
    lemma_string_rest(key, 1);
    let body = flat_members(items, 0, indent);
    let tail = ": "@ + flat(items[0].1, indent) + line_end(0, items.len() as int)
        + flat_members(items, 1, indent);
    assert(body =~= jsonl::spaces(indent) + (key + tail));
    assert(body.skip(indent as int) =~= key + tail);
    assert(key + tail =~= key + ": "@ + flat(items[0].1, indent) + line_end(
        0,
        items.len() as int,
    ) + flat_members(items, 1, indent));
}

/// Reading the elements from `k` on, where the first stands after `ws`: its indent
/// was passed over already.
proof fn lemma_read_elements(
    s: Seq<char>,
    p: int,
    ws: Seq<char>,
    items: Seq<Json>,
    k: int,
    indent: usize,
    closing: Seq<char>,
    rest: Seq<char>,
)
    requires
        0 <= k < items.len(),
        forall|i: int| 0 <= i < items.len() ==> is_value(#[trigger] items[i]),
        forall|i: int| 0 <= i < ws.len() ==> jsonl::is_ws(#[trigger] ws[i]),
        forall|i: int| 0 <= i < closing.len() ==> jsonl::is_ws(#[trigger] closing[i]),
        goes_on(
            s,
            p,
            ws + (flat(items[k], indent) + (line_end(k, items.len() as int) + flat_elements(
                items,
                k + 1,
                indent,
            ) + (closing.push(']') + rest))),
        ),
    ensures
        jsonl::elements_at(s, p, items.take(k)) == Some(
            (Json::Arr(items), s.len() - rest.len()),
        ),
    decreases items, items.len() - k,
{
    let n = items.len() as int;
    let end = closing.push(']') + rest;
    let after = line_end(k, n) + flat_elements(items, k + 1, indent) + end;
    lemma_read_value(s, p, ws, items[k], indent, after);
    let f = flat(items[k], indent);
    lemma_goes_on(s, p, ws, f + after);
    lemma_goes_on(s, p + ws.len(), f, after);
    lemma_flat_start(items[k], indent);
    let e = p + ws.len() + f.len();
    assert(e == s.len() - after.len());
    assert(items.take(k).push(items[k]) =~= items.take(k + 1));
    if k + 1 < n {
        let gap = seq!['\n'] + jsonl::spaces(indent);
        let next = flat(items[k + 1], indent) + (line_end(k + 1, n) + flat_elements(
            items,
            k + 2,
            indent,
        ) + end);
        assert(after =~= seq![','] + (gap + next));
        assert(after =~= Seq::<char>::empty() + after);
        lemma_after_ws(s, e, Seq::empty(), after);
        lemma_goes_on(s, e, seq![','], gap + next);
        lemma_read_elements(s, e + 1, gap, items, k + 1, indent, closing, rest);
    } else {
        let gap = seq!['\n'] + closing;
        assert(flat_elements(items, k + 1, indent) =~= Seq::<char>::empty());
        assert(after =~= gap + (seq![']'] + rest));
        lemma_after_ws(s, e, gap, seq![']'] + rest);
        lemma_goes_on(s, e + gap.len(), seq![']'], rest);
        let bracket = seq![']'];
        assert(s[e + gap.len() + 0] == bracket[0]);
        assert(items.take(n) =~= items);
    }
}

/// Reading the members from `k` on, where the first stands after `ws`.
proof fn lemma_read_members(
    s: Seq<char>,
    p: int,
    ws: Seq<char>,
    items: Seq<(Seq<char>, Json)>,
    k: int,
    indent: usize,
    closing: Seq<char>,
    rest: Seq<char>,
)
    requires
        0 <= k < items.len(),
        forall|i: int|
            0 <= i < items.len() ==> is_string((#[trigger] items[i]).0) && is_value(items[i].1),
        forall|i: int| 0 <= i < ws.len() ==> jsonl::is_ws(#[trigger] ws[i]),
        forall|i: int| 0 <= i < closing.len() ==> jsonl::is_ws(#[trigger] closing[i]),
        goes_on(
            s,
            p,
            ws + (items[k].0 + (": "@ + (flat(items[k].1, indent) + (line_end(
                k,
                items.len() as int,
            ) + flat_members(items, k + 1, indent) + (closing.push('}') + rest))))),
        ),
    ensures
        jsonl::members_at(s, p, items.take(k)) == Some((Json::Obj(items), s.len() - rest.len())),
    decreases items, items.len() - k,
{
    reveal_strlit(": ");
    let n = items.len() as int;
    let (key, v) = items[k];
    let end = closing.push('}') + rest;
    let after = line_end(k, n) + flat_members(items, k + 1, indent) + end;
    let f = flat(v, indent);
    let colon = ": "@ + (f + after);
    lemma_string_rest(key, 1);
    lemma_after_ws(s, p, ws, key + colon);
    let a = p + ws.len();
    lemma_read_string(s, a, key, colon);
    lemma_goes_on(s, a, key, colon);
    assert(s.subrange(a, a + key.len()) =~= key);
    let b = a + key.len();
    assert(colon =~= Seq::<char>::empty() + colon);
    assert(colon[0] == ':');
    lemma_after_ws(s, b, Seq::empty(), colon);
    assert(colon =~= seq![':'] + (seq![' '] + (f + after)));
    lemma_goes_on(s, b, seq![':'], seq![' '] + (f + after));
    assert(jsonl::key_at(s, p) == Some((b, b + 1)));
    lemma_read_value(s, b + 1, seq![' '], v, indent, after);
    lemma_goes_on(s, b + 1, seq![' '], f + after);
    lemma_goes_on(s, b + 2, f, after);
    lemma_flat_start(v, indent);
    let e = b + 2 + f.len();
    assert(e == s.len() - after.len());
    assert(items.take(k).push((key, v)) =~= items.take(k + 1));
    if k + 1 < n {
        let gap = seq!['\n'] + jsonl::spaces(indent);
        let next = items[k + 1].0 + (": "@ + (flat(items[k + 1].1, indent) + (line_end(k + 1, n)
            + flat_members(items, k + 2, indent) + end)));
        assert(after =~= seq![','] + (gap + next));
        assert(after =~= Seq::<char>::empty() + after);
        lemma_after_ws(s, e, Seq::empty(), after);
        lemma_goes_on(s, e, seq![','], gap + next);
        lemma_read_members(s, e + 1, gap, items, k + 1, indent, closing, rest);
    } else {
        let gap = seq!['\n'] + closing;
        assert(flat_members(items, k + 1, indent) =~= Seq::<char>::empty());
        assert(after =~= gap + (seq!['}'] + rest));
        lemma_after_ws(s, e, gap, seq!['}'] + rest);
        lemma_goes_on(s, e + gap.len(), seq!['}'], rest);
        let brace = seq!['}'];
        assert(s[e + gap.len() + 0] == brace[0]);
        assert(items.take(n) =~= items);
    }
}

/// The pretty-printed lines of a text are JSON again and mean the same value.
pub proof fn law_pretty_keeps_the_value(s: Seq<char>)
    requires
        jsonl::parsed(s) is Some,
    ensures
        jsonl::parsed(joined_lines(jsonl::pretty(jsonl::parsed(s)->0))) == jsonl::parsed(s),
{
    let v = jsonl::parsed(s)->0;
    lemma_value_at(s, 0);
    let (ls, last) = jsonl::printed(v, 0, Seq::empty(), Seq::empty());
    lemma_printed(v, 0, Seq::empty(), Seq::empty());
    let lines = jsonl::pretty(v);
    assert(lines.drop_last() =~= ls);
    let t = joined_lines(lines);
    let none = Seq::<char>::empty();
    assert(t =~= flat(v, 0));
    assert(t.skip(0) =~= none + (flat(v, 0) + none));
    lemma_read_value(t, 0, none, v, 0, none);
    assert(jsonl::after_ws(t, t.len() as int) == t.len());
}

} // verus!
