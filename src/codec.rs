//! The binary-to-text encoding of every variable part of the wire format:
//! standard base64 with padding, as the `base64` crate implements it.
use vstd::prelude::*;

verus! {

/// What `base64::encode` returns for the given bytes.
pub uninterp spec fn base64_of(b: Seq<u8>) -> Seq<char>;

/// What `base64::decode` returns for the given text bytes: the decoded
/// bytes, or `None` where the text is not valid base64.
pub uninterp spec fn base64_decoded(s: Seq<u8>) -> Option<Seq<u8>>;

/// The bytes of a text whose characters are all ASCII.
pub open spec fn ascii_bytes(s: Seq<char>) -> Seq<u8> {
    s.map_values(|c: char| c as u8)
}

/// The longest input that `base64::encode` accepts: its output length,
/// four characters for every three bytes started, must fit in a `usize`.
pub open spec fn encodable_len(n: nat) -> bool {
    n <= usize::MAX / 4 * 3
}

/// `base64::DecodeError`, the error of `base64::decode`, carried opaquely.
#[verifier::external_type_specification]
#[verifier::external_body]
pub struct ExDecodeError(base64::DecodeError);

/// Relies on `base64::encode` (standard alphabet, padded): the text is a
/// function of the bytes alone, and `base64::decode` gives the bytes back.
/// It panics where the output length overflows, which `requires` leaves out.
#[verifier::external_body]
pub(crate) fn encode_base64(b: &[u8]) -> (r: String)
    requires
        encodable_len(b@.len()),
    ensures
        r@ == base64_of(b@),
        base64_decoded(ascii_bytes(r@)) == Some(b@),
{
    base64::encode(b)
}

/// Relies on `base64::decode` (standard alphabet, padded): the result is a
/// function of the text alone. It panics where the input length plus seven
/// overflows, which `requires` leaves out.
#[verifier::external_body]
pub(crate) fn decode_base64(s: &[u8]) -> (r: Result<Vec<u8>, base64::DecodeError>)
    requires
        s@.len() <= usize::MAX - 7,
    ensures
        r is Ok <==> base64_decoded(s@) is Some,
        r is Ok ==> base64_decoded(s@) == Some(r->Ok_0@),
{
    base64::decode(s)
}

/// Encodes bytes as base64 text; decoding that text gives the bytes back.
pub fn encode_bytes(b: &[u8]) -> (r: String)
    requires
        encodable_len(b@.len()),
    ensures
        r@ == base64_of(b@),
        base64_decoded(ascii_bytes(r@)) == Some(b@),
{
    encode_base64(b)
}

/// Decodes base64 text, or gives `None` where it is not valid base64.
pub fn decode_bytes(s: &[u8]) -> (r: Option<Vec<u8>>)
    requires
        s@.len() <= usize::MAX - 7,
    ensures
        match r {
            Some(v) => base64_decoded(s@) == Some(v@),
            None => base64_decoded(s@) is None,
        },
{
    match decode_base64(s) {
        Ok(v) => Some(v),
        Err(_) => None,
    }
}

} // verus!
