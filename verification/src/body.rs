//! Bodies on their way into and out of JSON strings.
use base64::Engine;
use vstd::prelude::*;
use vstd::slice::*;

use crate::text;

verus! {

/// `memchr::memchr` returns the position of the first occurrence of a byte.
pub assume_specification[ memchr::memchr ](needle: u8, haystack: &[u8]) -> (r: Option<usize>)
    ensures
        r matches Some(i) ==> i < haystack@.len() && haystack@[i as int] == needle && (forall|j: int|
            0 <= j < i ==> haystack@[j] != needle),
        r is None ==> (forall|j: int| 0 <= j < haystack@.len() ==> haystack@[j] != needle),
;

/// The standard base64 text of some bytes, as `base64` writes it.
pub uninterp spec fn base64_text(data: Seq<u8>) -> Seq<char>;

/// The bytes of a standard base64 text, or the text of the error, as `base64` reads it.
pub uninterp spec fn base64_bytes(source: Seq<char>) -> Result<Seq<u8>, Seq<char>>;

/// The result of reading some bytes back.
pub open spec fn readable(data: Seq<u8>) -> Result<Seq<u8>, Seq<char>> {
    Ok(data)
}

/// `encode` of the standard engine of `base64`. What it writes, its `decode` reads back.
#[verifier::external_body]
fn base64_encode(data: &[u8]) -> (r: String)
    ensures
        r@ == base64_text(data@),
        base64_bytes(r@) == readable(data@),
{
    base64::engine::general_purpose::STANDARD.encode(data)
}

/// `decode` of the standard engine of `base64`.
#[verifier::external_body]
fn base64_decode(source: &str) -> (r: Result<Vec<u8>, String>)
    ensures
        bytes_result(r) == base64_bytes(source@),
{
    match base64::engine::general_purpose::STANDARD.decode(source.as_bytes()) {
        Ok(bytes) => Ok(bytes),
        Err(e) => Err(e.to_string()),
    }
}

/// The view of a result that holds bytes or an error text.
pub open spec fn bytes_result(r: Result<Vec<u8>, String>) -> Result<Seq<u8>, Seq<char>> {
    match r {
        Ok(b) => Ok(b@),
        Err(e) => Err(e@),
    }
}

/// The bytes that a body text stands for.
pub open spec fn decoded_body(body: Seq<char>, is_base64_encoded: bool) -> Result<Seq<u8>, Seq<char>> {
    if is_base64_encoded {
        base64_bytes(body)
    } else {
        Ok(vstd::utf8::encode_utf8(body))
    }
}

/// The bytes that a body text stands for.
pub fn decode_body_bytes(body: &str, is_base64_encoded: bool) -> (r: Result<Vec<u8>, String>)
    ensures
        bytes_result(r) == decoded_body(body@, is_base64_encoded),
{
    if is_base64_encoded {
        base64_decode(body)
    } else {
        Ok(slice_to_vec(body.as_bytes()))
    }
}

/// The body text of some bytes, and whether it is base64.
///
/// There is none for an empty body. A body is written as text where it is UTF-8 without the
/// character NUL, and as base64 otherwise: NUL grows sixfold in a JSON string.
pub open spec fn encoded_body(body: Seq<u8>) -> (Option<Seq<char>>, bool) {
    if body.len() == 0 {
        (None, false)
    } else if body.contains(0u8) || !vstd::utf8::valid_utf8(body) {
        (Some(base64_text(body)), true)
    } else {
        (Some(vstd::utf8::decode_utf8(body)), false)
    }
}

/// The body text of some bytes, and whether it is base64; decoding it gives the bytes back.
pub fn encode_body(body: &[u8]) -> (r: (Option<String>, bool))
    ensures
        (text::opt_text(r.0), r.1) == encoded_body(body@),
        r.0 is None ==> body@.len() == 0,
        r.0 matches Some(s) ==> decoded_body(s@, r.1) == readable(body@),
{
    if body.len() == 0 {
        return (None, false);
    }
    if memchr::memchr(0, body).is_some() {
        return (Some(base64_encode(body)), true);
    }
    match text::read_utf8(body) {
        Some(s) => (Some(s), false),
        None => (Some(base64_encode(body)), true),
    }
}

} // verus!
