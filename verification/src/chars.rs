//! Character classes and the few primitive operations on `char` and `String`
//! that the lexer builds on.

use vstd::prelude::*;
use vstd::string::StringExecFns;

verus! {

/// The code points that Unicode classes as white space (`White_Space`).
pub open spec fn is_white_space(c: char) -> bool {
    let n = c as u32;
    ||| 0x09 <= n <= 0x0D
    ||| n == 0x20
    ||| n == 0x85
    ||| n == 0xA0
    ||| n == 0x1680
    ||| 0x2000 <= n <= 0x200A
    ||| n == 0x2028
    ||| n == 0x2029
    ||| n == 0x202F
    ||| n == 0x205F
    ||| n == 0x3000
}

/// Whether a code point belongs to one of the Unicode general categories for
/// numbers (`Nd`, `Nl`, `No`), as `char::is_numeric` reports it.
pub uninterp spec fn is_numeric_char(c: char) -> bool;

/// The decimal digits `0` to `9`.
pub open spec fn is_digit(c: char) -> bool {
    '0' <= c <= '9'
}

/// The numeric characters: among the ASCII characters the decimal digits,
/// beyond them the characters of the Unicode number categories.
pub open spec fn is_numeric(c: char) -> bool {
    if (c as u32) < 0x80 {
        is_digit(c)
    } else {
        is_numeric_char(c)
    }
}

/// The characters that may start a number: a numeric character, a sign or a
/// decimal point.
pub open spec fn starts_number(c: char) -> bool {
    is_numeric(c) || c == '+' || c == '-' || c == '.'
}

/// The characters that number scanning consumes: those that may start a
/// number, and the exponent markers.
pub open spec fn in_number_class(c: char) -> bool {
    starts_number(c) || c == 'e' || c == 'E'
}

/// The escape characters that are kept as they are written.
pub open spec fn is_plain_escape(c: char) -> bool {
    c == '"' || c == '\\' || c == '/' || c == 'b' || c == 'f' || c == 'n' || c == 'r' || c == 't'
}

/// The value of a hexadecimal digit, in either case.
pub open spec fn hex_value(c: char) -> Option<int> {
    if '0' <= c <= '9' {
        Some(c as int - '0' as int)
    } else if 'a' <= c <= 'f' {
        Some(c as int - 'a' as int + 10)
    } else if 'A' <= c <= 'F' {
        Some(c as int - 'A' as int + 10)
    } else {
        None
    }
}

/// Whether an integer is a Unicode scalar value: a code point that is no
/// surrogate.
pub open spec fn is_scalar(x: int) -> bool {
    0 <= x < 0xD800 || 0xE000 <= x <= 0x10FFFF
}

/// Calls `char::is_whitespace`. Trusted: the result is membership in the
/// `White_Space` set of the Unicode character database, written out in
/// [`is_white_space`].
#[verifier::external_body]
pub(crate) fn char_is_whitespace(c: char) -> (r: bool)
    ensures
        r == is_white_space(c),
{
    c.is_whitespace()
}

/// Calls `char::is_numeric`. Trusted: the result is a function of the
/// character alone, named [`is_numeric_char`]; among the ASCII characters
/// the numeric ones are exactly the decimal digits.
#[verifier::external_body]
pub(crate) fn char_is_numeric(c: char) -> (r: bool)
    ensures
        r == is_numeric_char(c),
        (c as u32) < 0x80 ==> r == is_digit(c),
{
    c.is_numeric()
}

/// Calls `char::from_u32`. Trusted: the result is the character with the
/// given code point where that is a scalar value, and `None` otherwise.
#[verifier::external_body]
pub(crate) fn char_from_u32(x: u32) -> (r: Option<char>)
    ensures
        is_scalar(x as int) ==> r == Some(x as char),
        !is_scalar(x as int) ==> r is None,
{
    char::from_u32(x)
}

/// Calls `String::push`. Trusted: the character is appended to the text.
#[verifier::external_body]
pub(crate) fn push_char(s: &mut String, c: char)
    ensures
        final(s)@ == old(s)@.push(c),
{
    s.push(c)
}

/// The characters of a text, in order.
pub(crate) fn chars_of(text: &str) -> (out: Vec<char>)
    ensures
        out@ == text@,
{
    let mut out: Vec<char> = Vec::new();
    for c in it: text.chars()
        invariant
            out@ == it.seq().take(it.index() as int),
            it.seq() == text@,
    {
        out.push(c);
    }
    assert(out@ == text@);
    out
}

/// The text made of the given characters, in order.
pub(crate) fn string_of(chars: &Vec<char>) -> (out: String)
    ensures
        out@ == chars@,
{
    let mut out = String::new();
    let mut i: usize = 0;
    while i < chars.len()
        invariant
            i <= chars.len(),
            out@ == chars@.take(i as int),
        decreases chars.len() - i,
    {
        push_char(&mut out, chars[i]);
        i += 1;
        assert(chars@.take(i as int) == chars@.take(i - 1).push(chars@[i - 1]));
    }
    assert(chars@.take(i as int) == chars@);
    out
}

/// A message: a fixed opening followed by the characters it is about.
pub(crate) fn message(opening: &str, detail: &Vec<char>) -> (out: String)
    ensures
        out@ == opening@ + detail@,
{
    let mut out = opening.to_owned();
    let mut i: usize = 0;
    assert(detail@.take(0) == Seq::<char>::empty());
    assert(opening@ + Seq::<char>::empty() == opening@);
    while i < detail.len()
        invariant
            i <= detail.len(),
            out@ == opening@ + detail@.take(i as int),
        decreases detail.len() - i,
    {
        push_char(&mut out, detail[i]);
        i += 1;
        assert(detail@.take(i as int) == detail@.take(i - 1).push(detail@[i - 1]));
        assert(opening@ + detail@.take(i - 1).push(detail@[i - 1]) == (opening@ + detail@.take(
            i - 1,
        )).push(detail@[i - 1]));
    }
    assert(detail@.take(i as int) == detail@);
    out
}

/// One text followed by another.
pub(crate) fn joined(first: &str, second: &str) -> (out: String)
    ensures
        out@ == first@ + second@,
{
    let mut out = first.to_owned();
    out.append(second);
    out
}

/// Whether two runs of characters are the same.
pub(crate) fn same_chars(a: &Vec<char>, b: &Vec<char>) -> (r: bool)
    ensures
        r == (a@ == b@),
{
    if a.len() != b.len() {
        return false;
    }
    let mut i: usize = 0;
    while i < a.len()
        invariant
            i <= a.len(),
            a.len() == b.len(),
            a@.take(i as int) == b@.take(i as int),
        decreases a.len() - i,
    {
        if a[i] != b[i] {
            return false;
        }
        i += 1;
        assert(a@.take(i as int) == a@.take(i - 1).push(a@[i - 1]));
        assert(b@.take(i as int) == b@.take(i - 1).push(b@[i - 1]));
    }
    assert(a@.take(i as int) == a@);
    assert(b@.take(i as int) == b@);
    true
}

/// Tests for a decimal digit.
pub(crate) fn is_ascii_digit(c: char) -> (r: bool)
    ensures
        r == is_digit(c),
{
    '0' <= c && c <= '9'
}

/// Tests for an escape character that is kept as it is written.
pub(crate) fn plain_escape(c: char) -> (r: bool)
    ensures
        r == is_plain_escape(c),
{
    c == '"' || c == '\\' || c == '/' || c == 'b' || c == 'f' || c == 'n' || c == 'r' || c == 't'
}

/// The value of a hexadecimal digit, or `None` for any other character.
pub fn hex_digit(c: char) -> (r: Option<u16>)
    ensures
        match hex_value(c) {
            Some(v) => r == Some(v as u16) && 0 <= v < 16,
            None => r is None,
        },
{
    let n: u32 = c as u32;
    if '0' <= c && c <= '9' {
        Some((n - 0x30) as u16)
    } else if 'a' <= c && c <= 'f' {
        Some((n - 0x61 + 10) as u16)
    } else if 'A' <= c && c <= 'F' {
        Some((n - 0x41 + 10) as u16)
    } else {
        None
    }
}

} // verus!
