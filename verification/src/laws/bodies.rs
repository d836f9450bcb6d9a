//! Bodies: what is text, what is base64, and what either stands for.
use vstd::prelude::*;

use crate::body;

verus! {

/// A body is written as text exactly where it is UTF-8 without the character NUL, and then the
/// text is the one with these bytes. Every other body is base64, and an empty one is left out.
pub proof fn lemma_bodies_are_text_where_they_can_be(data: Seq<u8>)
    ensures
        body::encoded_body(data).0 is None <==> data.len() == 0,
        body::encoded_body(data).1 <==> data.len() > 0 && (!vstd::utf8::valid_utf8(data) || exists|
            i: int,
        |
            0 <= i < data.len() && data[i] == 0),
        !body::encoded_body(data).1 && data.len() > 0 ==> vstd::utf8::encode_utf8(
            body::encoded_body(data).0->0,
        ) == data,
        body::encoded_body(data).1 ==> body::encoded_body(data).0 == Some(body::base64_text(data)),
{
    broadcast use vstd::utf8::group_utf8_lib;

    if data.contains(0u8) {
        let i = data.index_of(0u8);
        assert(data[i] == 0);
    }
    if exists|i: int| 0 <= i < data.len() && data[i] == 0 {
        let i = choose|i: int| 0 <= i < data.len() && data[i] == 0;
        assert(data.contains(data[i]));
    }
}

/// A body text stands for its own bytes, or for those of its base64.
pub proof fn lemma_what_a_body_text_stands_for(text: Seq<char>)
    ensures
        body::decoded_body(text, false) == Ok::<Seq<u8>, Seq<char>>(vstd::utf8::encode_utf8(text)),
        body::decoded_body(text, true) == body::base64_bytes(text),
{
}

} // verus!
