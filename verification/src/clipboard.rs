//! The escape sequence that puts text on the terminal's clipboard.

use vstd::prelude::*;
use vstd::utf8::*;
use base64::Engine;

verus! {

/// The digits of base 64.
pub open spec fn base64_digit(n: int) -> char {
    if n < 26 {
        ('A' as int + n) as char
    } else if n < 52 {
        ('a' as int + (n - 26)) as char
    } else if n < 62 {
        ('0' as int + (n - 52)) as char
    } else if n == 62 {
        '+'
    } else {
        '/'
    }
}

/// Bytes in base 64: four digits for three bytes, the last group padded with `=`.
pub open spec fn base64_of(b: Seq<u8>) -> Seq<char>
    decreases b.len(),
{
    if b.len() == 0 {
        Seq::empty()
    } else if b.len() == 1 {
        seq![base64_digit(b[0] as int / 4), base64_digit(b[0] as int % 4 * 16), '=', '=']
    } else if b.len() == 2 {
        let n = b[0] * 256 + b[1];
        seq![
            base64_digit(n / 1024),
            base64_digit(n / 16 % 64),
            base64_digit(n % 16 * 4),
            '=',
        ]
    } else {
        let n = b[0] * 65536 + b[1] * 256 + b[2];
        seq![
            base64_digit(n / 262144),
            base64_digit(n / 4096 % 64),
            base64_digit(n / 64 % 64),
            base64_digit(n % 64),
        ] + base64_of(b.skip(3))
    }
}

/// `Engine::encode` of base64 with the `STANDARD` engine: the bytes of a text in
/// base 64 with the standard alphabet and padding.
#[verifier::external_body]
fn encode_base64(t: &str) -> (r: String)
    ensures
        r@ == base64_of(encode_utf8(t@)),
{
    base64::engine::general_purpose::STANDARD.encode(t.as_bytes())
}

/// The sequence that sets the clipboard to `t`; inside tmux it is wrapped so that
/// tmux hands it on.
pub open spec fn copy_sequence(t: Seq<char>, tmux: bool) -> Seq<char> {
    let data = base64_of(encode_utf8(t));
    if tmux {
        "\x1bPtmux;\x1b\x1b]52;c;"@ + data + "\x07\x1b\\"@
    } else {
        "\x1b]52;c;"@ + data + "\x1b\\"@
    }
}

/// Writes the sequence that sets the clipboard to `t`.
pub fn osc52_copy(t: &str, tmux: bool) -> (r: String)
    ensures
        r@ == copy_sequence(t@, tmux),
{
    let data = encode_base64(t);
    if tmux {
        let mut out = "\x1bPtmux;\x1b\x1b]52;c;".to_string();
        out.push_str(&data);
        out.push_str("\x07\x1b\\");
        out
    } else {
        let mut out = "\x1b]52;c;".to_string();
        out.push_str(&data);
        out.push_str("\x1b\\");
        out
    }
}

} // verus!
