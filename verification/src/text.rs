//! The few steps between text types that the format logic leaves to the
//! standard library: splitting a string into its characters, assembling a
//! string from characters, and checking a code point.

use vstd::prelude::*;

verus! {

/// Relies on str::chars and Iterator::collect: the characters of a string
/// slice, in order — exactly the string's view.
#[verifier::external_body]
pub fn str_to_chars(s: &str) -> (r: Vec<char>)
    ensures
        r@ == s@,
{
    s.chars().collect()
}

/// Relies on Iterator::collect for String: the string holding exactly the
/// given characters, in order.
#[verifier::external_body]
pub fn chars_to_string(v: &Vec<char>) -> (r: String)
    ensures
        r@ == v@,
{
    v.iter().collect()
}

/// Relies on char::from_u32: `Some` exactly on Unicode scalar values (all
/// code points except the surrogate range), and the returned character is
/// that code point.
#[verifier::external_body]
pub fn char_from_u32(v: u32) -> (r: Option<char>)
    ensures
        r is Some <==> vstd::utf8::is_scalar(v),
        r matches Some(c) ==> c == v as char,
{
    char::from_u32(v)
}

} // verus!
