//! Thin trusted wrappers around character and string operations of std for
//! which the verifier has no specification.

use vstd::prelude::*;

verus! {

/// Relies on `String::push`: it appends exactly the given character at the
/// end of the string.
#[verifier::external_body]
pub(crate) fn push_char(s: &mut String, c: char)
    ensures
        final(s)@ == old(s)@.push(c),
{
    s.push(c)
}

/// Relies on `char::from_u32`: it returns `Some` exactly for Unicode scalar
/// values, and the returned character carries the given code.
#[verifier::external_body]
pub(crate) fn char_from_u32(u: u32) -> (r: Option<char>)
    ensures
        r is Some <==> vstd::utf8::is_scalar(u),
        r matches Some(c) ==> c as u32 == u,
{
    char::from_u32(u)
}

} // verus!
