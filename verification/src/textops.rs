//! Thin, trusted conversions between text representations.
//!
//! The parser works over a `Vec<char>` so that positions index characters;
//! these are the only crossings between that form, `str`/`String`, and
//! character codes.

use vstd::prelude::*;

verus! {

/// Relies on str::chars: yields exactly the characters of the string, in
/// order. Each character takes at least one byte, and a Rust allocation
/// holds fewer than usize::MAX bytes, so the count is below usize::MAX.
#[verifier::external_body]
pub(crate) fn str_to_chars(s: &str) -> (r: Vec<char>)
    ensures
        r@ == s@,
        r@.len() < usize::MAX,
{
    s.chars().collect()
}

/// Relies on FromIterator for String over chars: the string holding exactly
/// these characters, in order.
#[verifier::external_body]
pub(crate) fn chars_to_string(v: &Vec<char>) -> (r: String)
    ensures
        r@ == v@,
{
    v.iter().collect()
}

/// Relies on Extend for Vec over str::chars: appends the string's
/// characters, in order.
#[verifier::external_body]
pub(crate) fn push_str_chars(out: &mut Vec<char>, s: &str)
    ensures
        final(out)@ == old(out)@ + s@,
{
    out.extend(s.chars());
}

/// Relies on char::from_u32: every value below 0x110000 and outside the
/// UTF-16 surrogate range is the code of exactly one character.
#[verifier::external_body]
pub(crate) fn char_of_u32(v: u32) -> (c: char)
    requires
        v < 0xD800 || (0xE000 <= v && v < 0x110000),
    ensures
        c as u32 == v,
{
    char::from_u32(v).unwrap()
}

} // verus!
