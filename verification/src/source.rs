//! Decoding the caller-supplied main document: base64 transport decode, an
//! optional UTF-8 byte-order mark, then UTF-8 validation. Any failure is fatal
//! to the invocation.

use vstd::prelude::*;

use crate::b64::{b64_decode, b64_decode_of};

verus! {

/// Why the main document could not be decoded.
#[derive(Debug, Copy, Clone, PartialEq, Eq, Structural)]
pub enum SourceError {
    MalformedBase64,
    InvalidUtf8,
}

/// The UTF-8 byte-order mark.
pub open spec fn bom() -> Seq<u8> {
    seq![0xefu8, 0xbbu8, 0xbfu8]
}

/// Bytes with a leading byte-order mark removed.
pub open spec fn strip_bom(bytes: Seq<u8>) -> Seq<u8> {
    if bytes.len() >= 3 && bytes.subrange(0, 3) == bom() {
        bytes.skip(3)
    } else {
        bytes
    }
}

/// What the main-source decode chain yields for a given wire string.
pub open spec fn main_source_model(enc: Seq<char>) -> Result<Seq<char>, SourceError> {
    match b64_decode_of(enc) {
        None => Err(SourceError::MalformedBase64),
        Some(bytes) => {
            let body = strip_bom(bytes);
            if vstd::utf8::valid_utf8(body) {
                Ok(vstd::utf8::decode_utf8(body))
            } else {
                Err(SourceError::InvalidUtf8)
            }
        },
    }
}

/// Relies on `String::from_utf8`: succeeds exactly on valid UTF-8 and returns
/// its decoding.
#[verifier::external_body]
fn utf8_to_string(bytes: Vec<u8>) -> (r: Option<String>)
    ensures
        r is Some <==> vstd::utf8::valid_utf8(bytes@),
        r is Some ==> r->0@ == vstd::utf8::decode_utf8(bytes@),
{
    String::from_utf8(bytes).ok()
}

/// Decodes UTF-8 text, removing a leading byte-order mark if present.
pub fn decode_utf8_text(bytes: Vec<u8>) -> (r: Option<String>)
    ensures
        r is Some <==> vstd::utf8::valid_utf8(strip_bom(bytes@)),
        r is Some ==> r->0@ == vstd::utf8::decode_utf8(strip_bom(bytes@)),
{
    let n = bytes.len();
    if n >= 3 && bytes[0] == 0xef && bytes[1] == 0xbb && bytes[2] == 0xbf {
        proof {
            assert(bytes@.subrange(0, 3) =~= bom());
        }
        let mut body: Vec<u8> = Vec::new();
        let mut i: usize = 3;
        proof {
            assert(body@ =~= bytes@.subrange(3, 3));
        }
        while i < n
            invariant
                3 <= i <= n,
                n == bytes@.len(),
                body@ == bytes@.subrange(3, i as int),
            decreases n - i,
        {
            body.push(bytes[i]);
            proof {
                assert(body@ =~= bytes@.subrange(3, i + 1));
            }
            i += 1;
        }
        proof {
            assert(body@ =~= bytes@.skip(3));
            assert(strip_bom(bytes@) == bytes@.skip(3));
        }
        utf8_to_string(body)
    } else {
        proof {
            if bytes@.len() >= 3 && bytes@.subrange(0, 3) == bom() {
                assert(bytes@[0] == bytes@.subrange(0, 3)[0]);
                assert(bytes@[1] == bytes@.subrange(0, 3)[1]);
                assert(bytes@[2] == bytes@.subrange(0, 3)[2]);
            }
            assert(strip_bom(bytes@) == bytes@);
        }
        utf8_to_string(bytes)
    }
}

/// Decodes the caller-supplied main document: base64, byte-order mark, UTF-8.
pub fn decode_main_source(enc: &str) -> (r: Result<String, SourceError>)
    ensures
        match r {
            Ok(text) => main_source_model(enc@) is Ok && text@ == main_source_model(enc@)->Ok_0,
            Err(e) => main_source_model(enc@) is Err && e == main_source_model(enc@)->Err_0,
        },
{
    match b64_decode(enc) {
        None => Err(SourceError::MalformedBase64),
        Some(bytes) => match decode_utf8_text(bytes) {
            Some(text) => Ok(text),
            None => Err(SourceError::InvalidUtf8),
        },
    }
}

} // verus!
