//! Base64 transport encoding, through the `base64` crate's standard engines.
//!
//! The padded standard engine carries image payloads into the wire format and
//! rasterized pages into the output envelope; the unpadded engine carries PDF
//! bytes, an asymmetry the output protocol fixes.

use vstd::prelude::*;

verus! {

/// What the standard padded engine encodes a byte string to.
pub uninterp spec fn b64_of(bytes: Seq<u8>) -> Seq<char>;

/// What the standard unpadded engine encodes a byte string to.
pub uninterp spec fn b64_nopad_of(bytes: Seq<u8>) -> Seq<char>;

/// What the standard padded engine decodes a string to, if anything.
pub uninterp spec fn b64_decode_of(s: Seq<char>) -> Option<Seq<u8>>;

/// The characters the standard padded alphabet can emit.
pub open spec fn is_b64_char(c: char) -> bool {
    ('A' <= c && c <= 'Z') || ('a' <= c && c <= 'z') || ('0' <= c && c <= '9') || c == '+' || c
        == '/' || c == '='
}

/// Relies on base64's `STANDARD` engine encode: it emits only standard-alphabet
/// and padding characters, and `STANDARD` decode inverts it.
#[verifier::external_body]
pub(crate) fn b64_encode(bytes: &Vec<u8>) -> (r: String)
    ensures
        r@ == b64_of(bytes@),
        forall|i: int| 0 <= i < r@.len() ==> is_b64_char(#[trigger] r@[i]),
        b64_decode_of(r@) == Some(bytes@),
{
    base64::Engine::encode(&base64::engine::general_purpose::STANDARD, bytes)
}

/// Relies on base64's `STANDARD` engine decode: strict standard base64 with
/// canonical padding.
#[verifier::external_body]
pub(crate) fn b64_decode(s: &str) -> (r: Option<Vec<u8>>)
    ensures
        r is Some <==> b64_decode_of(s@) is Some,
        r is Some ==> r->0@ == b64_decode_of(s@)->0,
{
    base64::Engine::decode(&base64::engine::general_purpose::STANDARD, s).ok()
}

/// Relies on base64's `STANDARD_NO_PAD` engine encode: it emits only
/// standard-alphabet characters with no `=` padding, four characters for every
/// three bytes, rounded up.
#[verifier::external_body]
pub(crate) fn b64_encode_nopad(bytes: &Vec<u8>) -> (r: String)
    ensures
        r@ == b64_nopad_of(bytes@),
        r@.len() == (bytes@.len() * 4 + 2) / 3,
        r@.len() == 0 <==> bytes@.len() == 0,
        forall|i: int| 0 <= i < r@.len() ==> is_b64_char(#[trigger] r@[i]) && r@[i] != '=',
{
    base64::Engine::encode(&base64::engine::general_purpose::STANDARD_NO_PAD, bytes)
}

} // verus!
