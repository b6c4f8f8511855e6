//! Conversions between strings and character vectors.
//!
//! The text handled by this crate is processed character by character; these
//! helpers move between `String`/`&str` and `Vec<char>`.

use vstd::prelude::*;

verus! {

/// Relies on str::chars: iterating a string slice yields exactly the
/// characters of its view, in order.
#[verifier::external_body]
pub fn chars_vec(s: &str) -> (r: Vec<char>)
    ensures
        r@ == s@,
{
    s.chars().collect()
}

/// Relies on FromIterator for String: collecting characters builds the string
/// with exactly those characters, in order.
#[verifier::external_body]
pub fn string_of_chars(v: &Vec<char>) -> (r: String)
    ensures
        r@ == v@,
{
    v.iter().collect()
}

/// Relies on char::from_u32: it returns the character with the given code
/// point, and `None` exactly for surrogates and values past the last code
/// point.
#[verifier::external_body]
pub fn char_from_u32(v: u32) -> (r: Option<char>)
    ensures
        r matches Some(c) ==> c == (v as char) && (c as u32) == v,
        r is None <==> (0xD800 <= v < 0xE000 || v > 0x10FFFF),
{
    char::from_u32(v)
}

} // verus!
