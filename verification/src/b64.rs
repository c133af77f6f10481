//! Base64 decoding of the header secret and the token seed, through the
//! `base64` crate.

use vstd::prelude::*;

verus! {

/// What standard base64 decoding yields on a string: `None` exactly on
/// input that is not valid padded base64. The value depends on the input
/// characters alone.
pub uninterp spec fn b64_decode(s: Seq<char>) -> Option<Seq<u8>>;

/// Relies on base64::decode: standard-alphabet, padded base64 decoding,
/// a deterministic function of the input that fails on invalid input.
#[verifier::external_body]
pub fn decode_base64(s: &str) -> (r: Option<Vec<u8>>)
    ensures
        r is Some <==> b64_decode(s@) is Some,
        r is Some ==> r.unwrap()@ == b64_decode(s@).unwrap(),
{
    match base64::decode(s) {
        Ok(v) => Some(v),
        Err(_) => None,
    }
}

} // verus!
