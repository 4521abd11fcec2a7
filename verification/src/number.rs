//! The grammar of decimal floating-point literals.
//!
//! A literal is an optional sign, a mantissa of decimal digits with at most
//! one decimal point and at least one digit, and an optional exponent: `e`
//! or `E`, an optional sign and at least one digit.

use vstd::prelude::*;
use crate::chars::{is_digit, is_ascii_digit};

verus! {

/// The index just past the run of decimal digits of `t` that starts at `i`.
pub open spec fn digits_end(t: Seq<char>, i: int) -> int
    decreases t.len() - i,
{
    if 0 <= i < t.len() && is_digit(t[i]) {
        digits_end(t, i + 1)
    } else {
        i
    }
}

/// The index just past a sign at `i`, or `i` where there is none.
pub open spec fn sign_end(t: Seq<char>, i: int) -> int {
    if 0 <= i < t.len() && (t[i] == '+' || t[i] == '-') {
        i + 1
    } else {
        i
    }
}

/// Whether `t` is a decimal floating-point literal.
pub open spec fn float_literal(t: Seq<char>) -> bool {
    let a = sign_end(t, 0);
    let b = digits_end(t, a);
    let dot = b < t.len() && t[b] == '.';
    let c = if dot { digits_end(t, b + 1) } else { b };
    let mantissa_digits = (b - a) + (if dot { c - (b + 1) } else { 0 });
    &&& mantissa_digits > 0
    &&& (c == t.len() || {
        let d = sign_end(t, c + 1);
        &&& (t[c] == 'e' || t[c] == 'E')
        &&& digits_end(t, d) > d
        &&& digits_end(t, d) == t.len()
    })
}

/// The run of digits that starts at `i` ends between `i` and the end of `t`.
pub proof fn lemma_digits_end_bounds(t: Seq<char>, i: int)
    requires
        0 <= i <= t.len(),
    ensures
        i <= digits_end(t, i) <= t.len(),
    decreases t.len() - i,
{
    if i < t.len() && is_digit(t[i]) {
        lemma_digits_end_bounds(t, i + 1);
    }
}

/// Every character of the run of digits that starts at `i` is a digit.
pub proof fn lemma_digits_run(t: Seq<char>, i: int, k: int)
    requires
        0 <= i <= k < digits_end(t, i),
    ensures
        is_digit(t[k]),
        k < t.len(),
    decreases t.len() - i,
{
    if i < t.len() && is_digit(t[i]) {
        if k > i {
            lemma_digits_run(t, i + 1, k);
        }
    }
}

/// A literal is not empty, starts with a sign, a digit or a decimal point,
/// and consists of digits, signs, decimal points and exponent markers.
pub proof fn lemma_float_literal_chars(t: Seq<char>)
    requires
        float_literal(t),
    ensures
        t.len() > 0,
        is_digit(t[0]) || t[0] == '+' || t[0] == '-' || t[0] == '.',
        forall|k: int|
            0 <= k < t.len() ==> is_digit(#[trigger] t[k]) || t[k] == '+' || t[k] == '-' || t[k]
                == '.' || t[k] == 'e' || t[k] == 'E',
{
    let a = sign_end(t, 0);
    let b = digits_end(t, a);
    let dot = b < t.len() && t[b] == '.';
    let c = if dot { digits_end(t, b + 1) } else { b };
    let d = sign_end(t, c + 1);
    lemma_digits_end_bounds(t, a);
    if dot {
        lemma_digits_end_bounds(t, b + 1);
    }
    if c < t.len() {
        lemma_digits_end_bounds(t, d);
    }
    if a == 0 && b > 0 {
        lemma_digits_run(t, a, 0);
    }
    assert forall|k: int| 0 <= k < t.len() implies is_digit(#[trigger] t[k]) || t[k] == '+' || t[k]
        == '-' || t[k] == '.' || t[k] == 'e' || t[k] == 'E' by {
        if a <= k < b {
            lemma_digits_run(t, a, k);
        } else if dot && b < k < c {
            lemma_digits_run(t, b + 1, k);
        } else if c < t.len() && d <= k {
            lemma_digits_run(t, d, k);
        }
    }
}

fn skip_digits(t: &Vec<char>, start: usize) -> (end: usize)
    requires
        start <= t.len(),
    ensures
        end == digits_end(t@, start as int),
        start <= end <= t.len(),
{
    let mut i: usize = start;
    while i < t.len() && is_ascii_digit(t[i])
        invariant
            start <= i <= t.len(),
            digits_end(t@, start as int) == digits_end(t@, i as int),
        decreases t.len() - i,
    {
        i += 1;
    }
    i
}

fn skip_sign(t: &Vec<char>, start: usize) -> (end: usize)
    requires
        start <= t.len(),
    ensures
        end == sign_end(t@, start as int),
        start <= end <= t.len(),
{
    if start < t.len() && (t[start] == '+' || t[start] == '-') {
        start + 1
    } else {
        start
    }
}

/// Decides whether the characters form a decimal floating-point literal.
pub fn is_float_literal(t: &Vec<char>) -> (r: bool)
    ensures
        r == float_literal(t@),
{
    let a: usize = skip_sign(t, 0);
    let b: usize = skip_digits(t, a);
    let dot: bool = b < t.len() && t[b] == '.';
    let c: usize = if dot { skip_digits(t, b + 1) } else { b };
    let mantissa_digits: usize = (b - a) + (if dot { c - (b + 1) } else { 0 });
    if mantissa_digits == 0 {
        return false;
    }
    if c == t.len() {
        return true;
    }
    if t[c] != 'e' && t[c] != 'E' {
        return false;
    }
    let d: usize = skip_sign(t, c + 1);
    let e: usize = skip_digits(t, d);
    e > d && e == t.len()
}

} // verus!
