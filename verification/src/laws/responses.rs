//! Response records, and the responses that requests get for them.
use vstd::prelude::*;

use crate::body;
use crate::buffered;
use crate::buffered::BatchResponse;
use crate::http_types;
use crate::response;
use crate::str_map;
use crate::text;

verus! {

/// Whether a response can be made of a record.
pub open spec fn can_be_answered(
    status_code: u16,
    headers: Seq<(Seq<char>, Seq<char>)>,
    cookies: Seq<Seq<char>>,
    body: Seq<char>,
    is_base64_encoded: bool,
) -> bool {
    &&& 100 <= status_code <= 999
    &&& forall|i: int|
        0 <= i < headers.len() ==> http_types::valid_header_name((#[trigger] headers[i]).0)
            && http_types::valid_header_value(headers[i].1)
    &&& forall|i: int|
        0 <= i < cookies.len() ==> http_types::valid_header_value(#[trigger] cookies[i])
    &&& is_base64_encoded ==> body::base64_bytes(body) is Ok
}

/// Whether some bytes are the body that a record asks for.
pub open spec fn is_body_of(bytes: Seq<u8>, body: Seq<char>, is_base64_encoded: bool) -> bool {
    if is_base64_encoded {
        body::base64_bytes(body) == Ok::<Seq<u8>, Seq<char>>(bytes)
    } else {
        bytes == vstd::utf8::encode_utf8(body)
    }
}

/// Headers are refused exactly where one of them is not valid. Otherwise each stands under its
/// name in lower case with the last value that was given for it, and nothing else changes.
pub proof fn lemma_headers_are_kept(
    headers: Seq<(Seq<char>, Seq<char>)>,
    acc: Map<Seq<char>, Seq<Seq<u8>>>,
)
    ensures
        response::read_headers(headers, acc) is Ok <==> forall|i: int|
            0 <= i < headers.len() ==> http_types::valid_header_name((#[trigger] headers[i]).0)
                && http_types::valid_header_value(headers[i].1),
        response::read_headers(headers, acc) matches Ok(m) ==> {
            &&& forall|i: int|
                0 <= i < headers.len() ==> m.dom().contains(
                    text::lower_text((#[trigger] headers[i]).0),
                )
            &&& forall|i: int|
                0 <= i < headers.len() && (forall|j: int|
                    i < j < headers.len() ==> text::lower_text((#[trigger] headers[j]).0)
                        != text::lower_text(headers[i].0)) ==> m[text::lower_text(
                    (#[trigger] headers[i]).0,
                )] == seq![vstd::utf8::encode_utf8(headers[i].1)]
            &&& forall|k: Seq<char>|
                (forall|i: int|
                    0 <= i < headers.len() ==> text::lower_text((#[trigger] headers[i]).0) != k)
                    ==> (#[trigger] m.dom().contains(k) <==> acc.dom().contains(k)) && (
                acc.dom().contains(k) ==> m[k] == acc[k])
        },
    decreases headers.len(),
{
    if headers.len() > 0 {
        let rest = headers.drop_first();
        let key = text::lower_text(headers[0].0);
        let next = acc.insert(key, seq![vstd::utf8::encode_utf8(headers[0].1)]);
        lemma_headers_are_kept(rest, next);
        assert forall|i: int| 0 < i < headers.len() implies headers[i] == #[trigger] rest[i - 1] by {}
        if forall|i: int|
            0 <= i < headers.len() ==> http_types::valid_header_name((#[trigger] headers[i]).0)
                && http_types::valid_header_value(headers[i].1) {
            assert forall|i: int| 0 <= i < rest.len() implies http_types::valid_header_name(
                (#[trigger] rest[i]).0,
            ) && http_types::valid_header_value(rest[i].1) by {
                assert(rest[i] == headers[i + 1]);
            }
        }
        if response::read_headers(headers, acc) is Ok {
            let m = response::read_headers(headers, acc)->Ok_0;
            assert forall|i: int| 0 <= i < headers.len() implies http_types::valid_header_name(
                (#[trigger] headers[i]).0,
            ) && http_types::valid_header_value(headers[i].1) by {
                if i > 0 {
                    assert(headers[i] == rest[i - 1]);
                }
            }
            assert forall|i: int| 0 <= i < headers.len() implies m.dom().contains(
                text::lower_text((#[trigger] headers[i]).0),
            ) by {
                if i > 0 {
                    assert(headers[i] == rest[i - 1]);
                } else if exists|j: int|
                    0 <= j < rest.len() && text::lower_text((#[trigger] rest[j]).0) == key {
                } else {
                    assert(m.dom().contains(key) <==> next.dom().contains(key));
                }
            }
            assert forall|i: int|
                0 <= i < headers.len() && (forall|j: int|
                    i < j < headers.len() ==> text::lower_text((#[trigger] headers[j]).0)
                        != text::lower_text(headers[i].0)) implies m[text::lower_text(
                (#[trigger] headers[i]).0,
            )] == seq![vstd::utf8::encode_utf8(headers[i].1)] by {
                if i > 0 {
                    assert(headers[i] == rest[i - 1]);
                    assert forall|j: int| i - 1 < j < rest.len() implies text::lower_text(
                        (#[trigger] rest[j]).0,
                    ) != text::lower_text(rest[i - 1].0) by {
                        assert(rest[j] == headers[j + 1]);
                    }
                } else {
                    assert forall|j: int| 0 <= j < rest.len() implies text::lower_text(
                        (#[trigger] rest[j]).0,
                    ) != key by {
                        assert(rest[j] == headers[j + 1]);
                    }
                    assert(m.dom().contains(key) <==> next.dom().contains(key));
                }
            }
            assert forall|k: Seq<char>|
                (forall|i: int|
                    0 <= i < headers.len() ==> text::lower_text((#[trigger] headers[i]).0)
                        != k) implies (#[trigger] m.dom().contains(k) <==> acc.dom().contains(k)) && (
            acc.dom().contains(k) ==> m[k] == acc[k]) by {
                assert(text::lower_text(headers[0].0) != k);
                assert forall|j: int| 0 <= j < rest.len() implies text::lower_text(
                    (#[trigger] rest[j]).0,
                ) != k by {
                    assert(rest[j] == headers[j + 1]);
                }
                assert(m.dom().contains(k) <==> next.dom().contains(k));
            }
        }
    }
}

/// The values that some cookies have as headers, in order.
pub open spec fn cookie_values(cookies: Seq<Seq<char>>) -> Seq<Seq<u8>> {
    Seq::new(cookies.len(), |i: int| vstd::utf8::encode_utf8(cookies[i]))
}

/// Cookies are refused exactly where one of them cannot stand in a header. Otherwise all of them
/// stand in order behind the other values of `set-cookie`, and nothing else changes.
pub proof fn lemma_cookies_are_set(
    cookies: Seq<Seq<char>>,
    acc: Map<Seq<char>, Seq<Seq<u8>>>,
)
    ensures
        response::read_cookies(cookies, acc) is Ok <==> forall|i: int|
            0 <= i < cookies.len() ==> http_types::valid_header_value(#[trigger] cookies[i]),
        response::read_cookies(cookies, acc) matches Ok(m) ==> {
            &&& cookies.len() == 0 ==> m == acc
            &&& cookies.len() > 0 ==> m.dom().contains("set-cookie"@) && m["set-cookie"@] == (
            if acc.dom().contains("set-cookie"@) {
                acc["set-cookie"@]
            } else {
                Seq::empty()
            }) + cookie_values(cookies)
            &&& m.remove("set-cookie"@) == acc.remove("set-cookie"@)
        },
    decreases cookies.len(),
{
    let name = "set-cookie"@;
    if cookies.len() > 0 {
        let rest = cookies.drop_first();
        let next = http_types::appended(acc, name, vstd::utf8::encode_utf8(cookies[0]));
        lemma_cookies_are_set(rest, next);
        if forall|i: int|
            0 <= i < cookies.len() ==> http_types::valid_header_value(#[trigger] cookies[i]) {
            assert forall|i: int| 0 <= i < rest.len() implies http_types::valid_header_value(
                #[trigger] rest[i],
            ) by {
                assert(rest[i] == cookies[i + 1]);
            }
        }
        if let Ok(m) = response::read_cookies(cookies, acc) {
            assert forall|i: int| 0 <= i < cookies.len() implies http_types::valid_header_value(
                #[trigger] cookies[i],
            ) by {
                if i > 0 {
                    assert(cookies[i] == rest[i - 1]);
                }
            }
            assert(next.remove(name) =~= acc.remove(name));
            let before = if acc.dom().contains(name) {
                acc[name]
            } else {
                Seq::empty()
            };
            assert(m[name] =~= before + cookie_values(cookies));
        }
    }
}

/// A response is made of a record exactly where its status is one, its headers and cookies are
/// valid and its body decodes. It has the status and the body of the record.
pub proof fn lemma_sound_records_make_responses(
    status_code: u16,
    headers: Seq<(Seq<char>, Seq<char>)>,
    cookies: Seq<Seq<char>>,
    body: Seq<char>,
    is_base64_encoded: bool,
)
    ensures
        response::response_parts(status_code, headers, cookies, body, is_base64_encoded) is Ok
            <==> can_be_answered(status_code, headers, cookies, body, is_base64_encoded),
        response::response_parts(status_code, headers, cookies, body, is_base64_encoded) matches Ok(
            r,
        ) ==> {
            &&& r.status == status_code
            &&& is_body_of(r.body, body, is_base64_encoded)
            &&& forall|i: int|
                0 <= i < headers.len() ==> r.headers.dom().contains(
                    text::lower_text((#[trigger] headers[i]).0),
                )
            &&& cookies.len() == 0 ==> forall|i: int|
                0 <= i < headers.len() && (forall|j: int|
                    i < j < headers.len() ==> text::lower_text((#[trigger] headers[j]).0)
                        != text::lower_text(headers[i].0)) ==> r.headers[text::lower_text(
                    (#[trigger] headers[i]).0,
                )] == seq![vstd::utf8::encode_utf8(headers[i].1)]
            &&& cookies.len() > 0 ==> r.headers.dom().contains("set-cookie"@)
                && cookie_values(cookies).is_suffix_of(r.headers["set-cookie"@])
            &&& forall|k: Seq<char>| #[trigger]
                r.headers.dom().contains(k) ==> k == "set-cookie"@ || exists|i: int|
                    0 <= i < headers.len() && text::lower_text((#[trigger] headers[i]).0) == k
        },
{
    lemma_headers_are_kept(headers, http_types::no_headers());
    if let Ok(h) = response::read_headers(headers, http_types::no_headers()) {
        lemma_cookies_are_set(cookies, h);
        if let Ok(r) = response::response_parts(
            status_code,
            headers,
            cookies,
            body,
            is_base64_encoded,
        ) {
            assert forall|i: int| 0 <= i < headers.len() implies r.headers.dom().contains(
                text::lower_text((#[trigger] headers[i]).0),
            ) by {
                let k = text::lower_text(headers[i].0);
                assert(h.dom().contains(k));
                if k != "set-cookie"@ {
                    assert(h.remove("set-cookie"@).dom().contains(k));
                    assert(r.headers.remove("set-cookie"@).dom().contains(k));
                }
            }
            if cookies.len() > 0 {
                let all = r.headers["set-cookie"@];
                let n = all.len() - cookies.len();
                assert(cookie_values(cookies) =~= all.subrange(n, all.len() as int));
            }
            assert forall|k: Seq<char>| #[trigger] r.headers.dom().contains(k) implies k
                == "set-cookie"@ || exists|i: int|
                0 <= i < headers.len() && text::lower_text((#[trigger] headers[i]).0) == k by {
                if k != "set-cookie"@ {
                    assert(r.headers.remove("set-cookie"@).dom().contains(k));
                    assert(h.remove("set-cookie"@).dom().contains(k));
                    assert(h.dom().contains(k));
                }
            }
        }
    }
}

/// Telling the batch size changes nothing of a response but the header that tells it; it is told
/// only where it is asked for.
pub proof fn lemma_only_the_batch_size_is_added(
    r: response::ResponseView,
    n: usize,
    size: nat,
)
    ensures
        response::tagged(r, None) == r,
        response::tagged(r, Some(n)).status == r.status,
        response::tagged(r, Some(n)).body == r.body,
        response::tagged(r, Some(n)).headers.remove("x-lpr-batch-size"@) == r.headers.remove(
            "x-lpr-batch-size"@,
        ),
        response::tagged(r, Some(n)).headers.dom().contains("x-lpr-batch-size"@),
        response::tagged(r, Some(n)).headers["x-lpr-batch-size"@] == seq![
            vstd::utf8::encode_utf8(text::decimal_text(n as nat)),
        ],
        buffered::size_tag(size, false) is None,
        size <= usize::MAX ==> buffered::size_tag(size, true) == Some(size as usize),
{
    assert(response::tagged(r, Some(n)).headers.remove("x-lpr-batch-size"@) =~= r.headers.remove(
        "x-lpr-batch-size"@,
    ));
}

/// A failure answers each request that waits with its status and its text, in order.
pub proof fn lemma_failures_say_why<B>(
    pending: Seq<(Seq<char>, B)>,
    tag: Option<usize>,
    status: u16,
    msg: Seq<char>,
    i: int,
)
    requires
        0 <= i < pending.len(),
    ensures
        buffered::failed(pending, tag, status, msg).len() == pending.len(),
        buffered::failed(pending, tag, status, msg)[i].0 == pending[i].1,
        buffered::failed(pending, tag, status, msg)[i].1.status == status,
        buffered::failed(pending, tag, status, msg)[i].1.body == vstd::utf8::encode_utf8(msg),
{
}

/// A response item stands for the response that is made of its fields, with its headers and its
/// cookies, or for an error that says why there is none.
pub proof fn lemma_items_become_their_responses(item: buffered::ResponseItemView)
    ensures
        ({
            let made = response::response_parts(
                item.status_code,
                item.headers,
                item.cookies,
                item.body,
                item.is_base64_encoded,
            );
            let given = buffered::item_response(item);
            &&& can_be_answered(
                item.status_code,
                item.headers,
                item.cookies,
                item.body,
                item.is_base64_encoded,
            ) ==> given == made->Ok_0 && given.status == item.status_code
            &&& !can_be_answered(
                item.status_code,
                item.headers,
                item.cookies,
                item.body,
                item.is_base64_encoded,
            ) ==> given.status == 502 && given.body == vstd::utf8::encode_utf8(
                "bad response: "@ + made->Err_0,
            )
        }),
{
    lemma_sound_records_make_responses(
        item.status_code,
        item.headers,
        item.cookies,
        item.body,
        item.is_base64_encoded,
    );
}

/// A text is answered with its status and its bytes, and without headers.
pub proof fn lemma_texts_are_plain(status: u16, msg: Seq<char>)
    ensures
        response::text_response(status, msg).status == status,
        response::text_response(status, msg).body == vstd::utf8::encode_utf8(msg),
        response::text_response(status, msg).headers == Map::<Seq<char>, Seq<Seq<u8>>>::empty(),
{
}

/// Whether some replies give a sink a response with a status and a body.
pub open spec fn is_answered_with<B>(
    replies: Seq<(B, response::ResponseView)>,
    sink: B,
    status: u16,
    bytes: Seq<u8>,
) -> bool {
    exists|m: int|
        0 <= m < replies.len() && (#[trigger] replies[m]).0 == sink && replies[m].1.status == status
            && replies[m].1.body == bytes
}

/// The first item with an id is the one that counts for it.
proof fn lemma_first_item(items: Seq<buffered::ResponseItemView>, id: Seq<char>, i: int)
    requires
        0 <= i <= items.len(),
        i < items.len() ==> items[i].id == id,
        forall|j: int| 0 <= j < i ==> (#[trigger] items[j]).id != id,
    ensures
        buffered::response_for(items, id) == if i < items.len() {
            buffered::item_response(items[i])
        } else {
            response::text_response(502, "missing response record"@)
        },
    decreases items.len(),
{
    if items.len() > 0 && i > 0 {
        assert(items[0].id != id);
        let rest = items.drop_first();
        assert forall|j: int| 0 <= j < i - 1 implies (#[trigger] rest[j]).id != id by {
            assert(rest[j] == items[j + 1]);
        }
        lemma_first_item(rest, id, i - 1);
    }
}

/// The first record with the id of a request reaches it: the request is answered with the status
/// and the body of the record, and with an error only where no response can be made of it. A
/// request without a record is answered with an error.
pub proof fn lemma_records_reach_their_requests<B>(
    parsed: BatchResponse,
    pending: Seq<(Seq<char>, B)>,
    report_batch_size: bool,
    n: int,
    i: int,
)
    requires
        parsed.v == 1,
        str_map::distinct_keys(pending),
        0 <= n < pending.len(),
        0 <= i <= parsed.responses@.len(),
        i < parsed.responses@.len() ==> parsed.responses@[i].id@ == pending[n].0,
        forall|j: int| 0 <= j < i ==> (#[trigger] parsed.responses@[j]).id@ != pending[n].0,
    ensures
        ({
            let replies = buffered::buffered_replies(
                Ok::<BatchResponse, String>(parsed),
                pending,
                report_batch_size,
            );
            let sink = pending[n].1;
            if i == parsed.responses@.len() {
                is_answered_with(
                    replies,
                    sink,
                    502,
                    vstd::utf8::encode_utf8("missing response record"@),
                )
            } else {
                let r = parsed.responses@[i];
                let headers = str_map::text_entries(r.headers@);
                let cookies = text::texts(r.cookies@);
                if can_be_answered(r.status_code, headers, cookies, r.body@, r.is_base64_encoded) {
                    exists|bytes: Seq<u8>|
                        is_body_of(bytes, r.body@, r.is_base64_encoded)
                            && #[trigger] is_answered_with(replies, sink, r.status_code, bytes)
                } else {
                    exists|bytes: Seq<u8>| #[trigger] is_answered_with(replies, sink, 502, bytes)
                }
            }
        }),
{
    let items = buffered::response_items(parsed.responses@);
    let tag = buffered::size_tag(pending.len(), report_batch_size);
    let replies = buffered::buffered_replies(
        Ok::<BatchResponse, String>(parsed),
        pending,
        report_batch_size,
    );
    let id = pending[n].0;
    assert forall|j: int| 0 <= j < i implies (#[trigger] items[j]).id != id by {
        assert(parsed.responses@[j].id@ != id);
    }
    lemma_first_item(items, id, i);
    buffered::lemma_answered_by_id(items, pending, tag, n);
    let view = response::tagged(buffered::response_for(items, id), tag);
    let reply = (pending[n].1, view);
    let m = choose|m: int| 0 <= m < replies.len() && replies[m] == reply;
    assert(replies[m].0 == pending[n].1);
    assert(is_answered_with(replies, pending[n].1, view.status, view.body));
    if i < parsed.responses@.len() {
        let r = parsed.responses@[i];
        lemma_sound_records_make_responses(
            r.status_code,
            str_map::text_entries(r.headers@),
            text::texts(r.cookies@),
            r.body@,
            r.is_base64_encoded,
        );
    }
}

/// A response that cannot be decoded, or is of another version, fails every request of its batch.
pub proof fn lemma_unreadable_responses_fail_everyone<B>(
    parsed: Result<BatchResponse, String>,
    pending: Seq<(Seq<char>, B)>,
    report_batch_size: bool,
    i: int,
)
    requires
        parsed matches Ok(p) ==> p.v != 1,
        0 <= i < pending.len(),
    ensures
        ({
            let replies = buffered::buffered_replies(parsed, pending, report_batch_size);
            &&& replies.len() == pending.len()
            &&& replies[i].0 == pending[i].1
            &&& replies[i].1.status == 502
            &&& parsed matches Err(e) ==> replies[i].1.body == vstd::utf8::encode_utf8(
                "decode response: "@ + e@,
            )
        }),
{
}

} // verus!
