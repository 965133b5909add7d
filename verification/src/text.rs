//! Conversion of raw bytes into text.

use vstd::prelude::*;

verus! {

/// Relies on `String::from_utf8`: it returns `Ok` exactly when the bytes
/// are valid UTF-8, and the returned string then holds those bytes
/// decoded, one `char` per encoded scalar value.
#[verifier::external_body]
pub(crate) fn vec_into_string(bytes: Vec<u8>) -> (r: Option<String>)
    ensures
        r is Some <==> vstd::utf8::valid_utf8(bytes@),
        r matches Some(s) ==> s@ == vstd::utf8::decode_utf8(bytes@),
{
    match String::from_utf8(bytes) {
        Ok(s) => Some(s),
        Err(_) => None,
    }
}

} // verus!
