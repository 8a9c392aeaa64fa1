//! Trusted string helpers for parts of `std` that vstd leaves unspecified.

use vstd::prelude::*;

verus! {

use vstd::utf8::{decode_utf8, valid_utf8};

/// Relies on `String::push`: appends exactly the given character.
#[verifier::external_body]
pub fn push_char(s: &mut String, c: char)
    ensures
        final(s)@ == old(s)@.push(c),
{
    s.push(c);
}

/// Relies on `String::from_utf8`: succeeds exactly on valid UTF-8 input,
/// and then holds that input's decoded characters.
#[verifier::external_body]
pub fn utf8_to_string(bytes: Vec<u8>) -> (r: Option<String>)
    ensures
        r is Some <==> valid_utf8(bytes@),
        r matches Some(s) ==> s@ == decode_utf8(bytes@),
{
    String::from_utf8(bytes).ok()
}

} // verus!
