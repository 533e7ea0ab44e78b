//! Character and string helpers over std, and UTF-16 decoding.

use vstd::prelude::*;

verus! {

/// Whether `v` is a Unicode scalar value (a valid `char`).
pub open spec fn is_scalar_value(v: u32) -> bool {
    v <= 0x10FFFF && !(0xD800 <= v <= 0xDFFF)
}

/// Calls `char::from_u32`. Trusted: as documented, it gives the character
/// with code `v` exactly when `v` is a Unicode scalar value.
#[verifier::external_body]
pub(crate) fn char_from_u32(v: u32) -> (c: Option<char>)
    ensures
        c is Some <==> is_scalar_value(v),
        c matches Some(x) ==> x as u32 == v,
{
    char::from_u32(v)
}

/// Calls `String::push`. Trusted: the character is appended.
#[verifier::external_body]
pub(crate) fn string_push(s: &mut String, c: char)
    ensures
        final(s)@ == old(s)@.push(c),
{
    s.push(c);
}

/// Calls `String::clear`. Trusted: the string is left empty.
#[verifier::external_body]
pub(crate) fn string_clear(s: &mut String)
    ensures
        final(s)@ == Seq::<char>::empty(),
{
    s.clear();
}

/// The codes of a character sequence.
pub open spec fn char_codes(cs: Seq<char>) -> Seq<u32> {
    cs.map_values(|c: char| c as u32)
}

/// The code a UTF-16 unit is read as when each unit is taken on its own:
/// itself, or `'?'` for a surrogate.
pub open spec fn unit_code(u: u16) -> u32 {
    if 0xD800 <= u <= 0xDFFF {
        '?' as u32
    } else {
        u as u32
    }
}

/// Appends to `out` the character a UTF-16 unit is read as on its own:
/// itself, or `'?'` for a surrogate.
pub fn push_unit_char(out: &mut String, u: u16)
    ensures
        final(out)@.len() == old(out)@.len() + 1,
        final(out)@.subrange(0, old(out)@.len() as int) == old(out)@,
        final(out)@.last() as u32 == unit_code(u),
{
    match char_from_u32(u as u32) {
        Some(c) => {
            string_push(out, c);
        },
        None => {
            string_push(out, '?');
        },
    }
    assert(final(out)@.subrange(0, old(out)@.len() as int) =~= old(out)@);
}

} // verus!
