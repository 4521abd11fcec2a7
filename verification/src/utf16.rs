//! Decoding of UTF-16 code units into Unicode scalar values.

use vstd::prelude::*;
use crate::chars::{char_from_u32, push_char};

verus! {

/// A code unit that opens a surrogate pair.
pub open spec fn is_high_surrogate(u: u16) -> bool {
    0xD800 <= u <= 0xDBFF
}

/// A code unit that closes a surrogate pair.
pub open spec fn is_low_surrogate(u: u16) -> bool {
    0xDC00 <= u <= 0xDFFF
}

/// The scalar value that a surrogate pair encodes.
pub open spec fn pair_value(high: u16, low: u16) -> int {
    0x10000 + (high - 0xD800) * 0x400 + (low - 0xDC00)
}

/// The characters that a sequence of UTF-16 code units encodes, or `None`
/// where a surrogate stands without its partner.
pub open spec fn decode_utf16(units: Seq<u16>) -> Option<Seq<char>>
    decreases units.len(),
{
    if units.len() == 0 {
        Some(Seq::empty())
    } else if !is_high_surrogate(units[0]) && !is_low_surrogate(units[0]) {
        match decode_utf16(units.skip(1)) {
            Some(rest) => Some(seq![units[0] as char] + rest),
            None => None,
        }
    } else if is_high_surrogate(units[0]) && units.len() >= 2 && is_low_surrogate(units[1]) {
        match decode_utf16(units.skip(2)) {
            Some(rest) => Some(seq![pair_value(units[0], units[1]) as char] + rest),
            None => None,
        }
    } else {
        None
    }
}

/// A surrogate pair decodes to the one scalar value that it encodes, beyond
/// the basic plane.
pub proof fn lemma_surrogate_pair_decodes(high: u16, low: u16)
    requires
        is_high_surrogate(high),
        is_low_surrogate(low),
    ensures
        decode_utf16(seq![high, low]) == Some(seq![pair_value(high, low) as char]),
        0x10000 <= pair_value(high, low) <= 0x10FFFF,
        (pair_value(high, low) as char) as int == pair_value(high, low),
{
    let units = seq![high, low];
    assert(units.skip(2) == Seq::<u16>::empty());
    assert(decode_utf16(units.skip(2)) == Some(Seq::<char>::empty()));
    assert(seq![pair_value(high, low) as char] + Seq::<char>::empty() == seq![
        pair_value(high, low) as char,
    ]);
}

/// A code unit that is no surrogate decodes to the character with that code
/// point.
pub proof fn lemma_plain_unit_decodes(unit: u16)
    requires
        !is_high_surrogate(unit),
        !is_low_surrogate(unit),
    ensures
        decode_utf16(seq![unit]) == Some(seq![unit as char]),
{
    let units = seq![unit];
    assert(units.skip(1) == Seq::<u16>::empty());
    assert(decode_utf16(units.skip(1)) == Some(Seq::<char>::empty()));
    assert(seq![unit as char] + Seq::<char>::empty() == seq![unit as char]);
}

/// A surrogate without its partner does not decode.
pub proof fn lemma_lone_surrogate_fails(unit: u16)
    requires
        is_high_surrogate(unit) || is_low_surrogate(unit),
    ensures
        decode_utf16(seq![unit]) is None,
{
}

/// What decoding gives once the first `done` units have given `head`.
pub open spec fn decode_after(head: Seq<char>, units: Seq<u16>, done: int) -> Option<Seq<char>> {
    match decode_utf16(units.skip(done)) {
        Some(rest) => Some(head + rest),
        None => None,
    }
}

/// Decodes UTF-16 code units into text; `None` where a surrogate stands
/// without its partner.
pub fn decode(units: &Vec<u16>) -> (r: Option<String>)
    ensures
        match decode_utf16(units@) {
            Some(text) => r is Some && r->Some_0@ == text,
            None => r is None,
        },
{
    let mut out = String::new();
    let mut i: usize = 0;
    assert(units@.skip(0) == units@);
    assert(Seq::<char>::empty() + decode_utf16(units@)->Some_0 == decode_utf16(units@)->Some_0);
    while i < units.len()
        invariant
            i <= units.len(),
            decode_utf16(units@) == decode_after(out@, units@, i as int),
        decreases units.len() - i,
    {
        let ghost tail = units@.skip(i as int);
        let ghost head = out@;
        let u: u16 = units[i];
        assert(tail[0] == u);
        if u < 0xD800 || u > 0xDFFF {
            let c = match char_from_u32(u as u32) {
                Some(c) => c,
                None => {
                    return None;
                },
            };
            push_char(&mut out, c);
            i += 1;
            proof {
                assert(tail.skip(1) == units@.skip(i as int));
                if let Some(rest) = decode_utf16(tail.skip(1)) {
                    assert(head + (seq![c] + rest) == head.push(c) + rest);
                }
            }
        } else if u <= 0xDBFF && i + 1 < units.len() && 0xDC00 <= units[i + 1] && units[i + 1]
            <= 0xDFFF {
            let low: u16 = units[i + 1];
            assert(tail[1] == low);
            let x: u32 = 0x10000 + (u as u32 - 0xD800) * 0x400 + (low as u32 - 0xDC00);
            let c = match char_from_u32(x) {
                Some(c) => c,
                None => {
                    return None;
                },
            };
            push_char(&mut out, c);
            i += 2;
            proof {
                assert(tail.skip(2) == units@.skip(i as int));
                if let Some(rest) = decode_utf16(tail.skip(2)) {
                    assert(head + (seq![c] + rest) == head.push(c) + rest);
                }
            }
        } else {
            return None;
        }
    }
    assert(units@.skip(i as int) == Seq::<u16>::empty());
    assert(out@ + Seq::<char>::empty() == out@);
    Some(out)
}

} // verus!
