//! The HTTP response that goes back to a client.
use vstd::prelude::*;
use vstd::slice::*;

use crate::body;
use crate::http_types;
use crate::str_map;
use crate::str_map::StrMap;
use crate::text;

verus! {

pub const LPR_BATCH_SIZE_HEADER_NAME: &'static str = "x-lpr-batch-size";

/// The name of the header that sets a cookie.
pub const SET_COOKIE_HEADER_NAME: &'static str = "set-cookie";

/// HTTP response returned to the client.
#[derive(Debug)]
pub struct RouterResponse {
    pub status: u16,
    pub headers: http::HeaderMap,
    pub body: Vec<u8>,
}

/// What a response says.
#[verifier::ext_equal]
pub struct ResponseView {
    pub status: u16,
    pub headers: Map<Seq<char>, Seq<Seq<u8>>>,
    pub body: Seq<u8>,
}

impl View for RouterResponse {
    type V = ResponseView;

    open spec fn view(&self) -> ResponseView {
        ResponseView {
            status: self.status,
            headers: http_types::header_entries(self.headers),
            body: self.body@,
        }
    }
}

/// A response with a text and without headers.
pub open spec fn text_response(status: u16, body: Seq<char>) -> ResponseView {
    ResponseView {
        status,
        headers: http_types::no_headers(),
        body: vstd::utf8::encode_utf8(body),
    }
}

/// Header contents with the batch size, where it is asked for.
pub open spec fn tagged_headers(
    headers: Map<Seq<char>, Seq<Seq<u8>>>,
    tag: Option<usize>,
) -> Map<Seq<char>, Seq<Seq<u8>>> {
    match tag {
        Some(n) => headers.insert(
            LPR_BATCH_SIZE_HEADER_NAME@,
            seq![vstd::utf8::encode_utf8(text::decimal_text(n as nat))],
        ),
        None => headers,
    }
}

/// A response with the batch size among its headers, where it is asked for.
pub open spec fn tagged(response: ResponseView, tag: Option<usize>) -> ResponseView {
    ResponseView { headers: tagged_headers(response.headers, tag), ..response }
}

impl RouterResponse {
    /// A plain text response (no default content-type is set).
    pub fn text(status: u16, body: &str) -> (r: Self)
        ensures
            r@ == text_response(status, body@),
    {
        RouterResponse {
            status,
            headers: http_types::header_map_new(),
            body: slice_to_vec(body.as_bytes()),
        }
    }
}

proof fn lemma_own_names()
    ensures
        http_types::valid_header_name(LPR_BATCH_SIZE_HEADER_NAME@),
        text::lower_text(LPR_BATCH_SIZE_HEADER_NAME@) == LPR_BATCH_SIZE_HEADER_NAME@,
        http_types::valid_header_name(SET_COOKIE_HEADER_NAME@),
        text::lower_text(SET_COOKIE_HEADER_NAME@) == SET_COOKIE_HEADER_NAME@,
{
    reveal_strlit("x-lpr-batch-size");
    reveal_strlit("set-cookie");
    assert(text::lower_text(LPR_BATCH_SIZE_HEADER_NAME@) =~= LPR_BATCH_SIZE_HEADER_NAME@);
    assert(text::lower_text(SET_COOKIE_HEADER_NAME@) =~= SET_COOKIE_HEADER_NAME@);
}

/// Sets the header that tells how many requests shared the invocation.
pub fn insert_batch_size_header(headers: &mut http::HeaderMap, batch_size: usize)
    requires
        http_types::has_room(http_types::header_entries(*old(headers))),
    ensures
        http_types::header_entries(*final(headers)) == tagged_headers(
            http_types::header_entries(*old(headers)),
            Some(batch_size),
        ),
{
    let value = text::decimal(batch_size as u64);
    proof {
        lemma_own_names();
        http_types::lemma_decimal_is_value(batch_size as nat);
    }
    http_types::header_map_insert(headers, LPR_BATCH_SIZE_HEADER_NAME, value.as_str());
}

/// Sets the batch size header where it is asked for.
pub fn tag_headers(headers: &mut http::HeaderMap, tag: Option<usize>)
    requires
        http_types::has_room(http_types::header_entries(*old(headers))),
    ensures
        http_types::header_entries(*final(headers)) == tagged_headers(
            http_types::header_entries(*old(headers)),
            tag,
        ),
{
    if let Some(n) = tag {
        insert_batch_size_header(headers, n);
    }
}

/// The most headers that a response may bring along: with a cookie header and the batch size
/// header there is room for them in a header map.
pub const MAX_RESPONSE_HEADERS: usize = 6552;

/// Header contents with the given headers put in one after another, or the first error.
pub open spec fn read_headers(
    headers: Seq<(Seq<char>, Seq<char>)>,
    acc: Map<Seq<char>, Seq<Seq<u8>>>,
) -> Result<Map<Seq<char>, Seq<Seq<u8>>>, Seq<char>>
    decreases headers.len(),
{
    if headers.len() == 0 {
        Ok(acc)
    } else if !http_types::valid_header_name(headers[0].0) {
        Err("invalid HTTP header name"@)
    } else if !http_types::valid_header_value(headers[0].1) {
        Err("failed to parse header value"@)
    } else {
        read_headers(
            headers.drop_first(),
            acc.insert(
                text::lower_text(headers[0].0),
                seq![vstd::utf8::encode_utf8(headers[0].1)],
            ),
        )
    }
}

/// Header contents with a header for each cookie behind those already there, or the first
/// error.
pub open spec fn read_cookies(
    cookies: Seq<Seq<char>>,
    acc: Map<Seq<char>, Seq<Seq<u8>>>,
) -> Result<Map<Seq<char>, Seq<Seq<u8>>>, Seq<char>>
    decreases cookies.len(),
{
    if cookies.len() == 0 {
        Ok(acc)
    } else if !http_types::valid_header_value(cookies[0]) {
        Err("failed to parse header value"@)
    } else {
        read_cookies(
            cookies.drop_first(),
            http_types::appended(
                acc,
                SET_COOKIE_HEADER_NAME@,
                vstd::utf8::encode_utf8(cookies[0]),
            ),
        )
    }
}

/// The header contents that a response record asks for, or the first error.
pub open spec fn record_headers(
    headers: Seq<(Seq<char>, Seq<char>)>,
    cookies: Seq<Seq<char>>,
) -> Result<Map<Seq<char>, Seq<Seq<u8>>>, Seq<char>> {
    match read_headers(headers, http_types::no_headers()) {
        Ok(h) => read_cookies(cookies, h),
        Err(e) => Err(e),
    }
}

/// The view of a result that holds a header map or an error text.
pub open spec fn headers_result(r: Result<http::HeaderMap, String>) -> Result<
    Map<Seq<char>, Seq<Seq<u8>>>,
    Seq<char>,
> {
    match r {
        Ok(h) => Ok(http_types::header_entries(h)),
        Err(e) => Err(e@),
    }
}

/// Builds a header map.
pub fn headers_from_map(headers_in: &StrMap<String>) -> (r: Result<http::HeaderMap, String>)
    requires
        headers_in@.len() <= MAX_RESPONSE_HEADERS,
    ensures
        headers_result(r) == read_headers(
            str_map::text_entries(headers_in@),
            http_types::no_headers(),
        ),
        r matches Ok(h) ==> http_types::header_entries(h).dom().finite()
            && http_types::header_entries(h).dom().len() <= headers_in@.len(),
{
    let ghost all = str_map::text_entries(headers_in@);
    let mut headers = http_types::header_map_new();
    let mut i: usize = 0;
    assert(all.skip(0) =~= all);
    while i < headers_in.len()
        invariant
            i <= headers_in@.len() <= MAX_RESPONSE_HEADERS,
            all == str_map::text_entries(headers_in@),
            http_types::header_entries(headers).dom().finite(),
            http_types::header_entries(headers).dom().len() <= i,
            read_headers(all, http_types::no_headers()) == read_headers(
                all.skip(i as int),
                http_types::header_entries(headers),
            ),
        decreases headers_in@.len() - i,
    {
        let (name, value) = headers_in.entry_at(i);
        proof {
            assert(all.skip(i as int)[0] == (name@, value@));
            assert(all.skip(i as int).drop_first() =~= all.skip(i + 1));
        }
        match http_types::header_name(name.as_str()) {
            Err(e) => {
                return Err(e);
            },
            Ok(_) => {},
        }
        match http_types::check_header_value(value.as_str()) {
            Err(e) => {
                return Err(e);
            },
            Ok(_) => {},
        }
        http_types::header_map_insert(&mut headers, name.as_str(), value.as_str());
        i = i + 1;
    }
    Ok(headers)
}

/// Builds the header map that a response record asks for.
pub fn response_headers(headers_in: &StrMap<String>, cookies: &Vec<String>) -> (r: Result<
    http::HeaderMap,
    String,
>)
    requires
        headers_in@.len() <= MAX_RESPONSE_HEADERS,
    ensures
        headers_result(r) == record_headers(
            str_map::text_entries(headers_in@),
            text::texts(cookies@),
        ),
        r matches Ok(h) ==> http_types::has_room(http_types::header_entries(h)),
{
    let mut headers = match headers_from_map(headers_in) {
        Ok(h) => h,
        Err(e) => {
            return Err(e);
        },
    };
    let ghost start = http_types::header_entries(headers);
    let ghost all = text::texts(cookies@);
    let mut i: usize = 0;
    proof {
        lemma_own_names();
        assert(all.skip(0) =~= all);
    }
    while i < cookies.len()
        invariant
            i <= cookies@.len(),
            all == text::texts(cookies@),
            record_headers(str_map::text_entries(headers_in@), all) == read_cookies(all, start),
            http_types::valid_header_name(SET_COOKIE_HEADER_NAME@),
            text::lower_text(SET_COOKIE_HEADER_NAME@) == SET_COOKIE_HEADER_NAME@,
            start.dom().finite(),
            start.dom().len() <= MAX_RESPONSE_HEADERS,
            http_types::header_entries(headers).dom() == start.dom()
                || http_types::header_entries(headers).dom() == start.dom().insert(
                SET_COOKIE_HEADER_NAME@,
            ),
            read_cookies(all, start) == read_cookies(
                all.skip(i as int),
                http_types::header_entries(headers),
            ),
        decreases cookies@.len() - i,
    {
        proof {
            assert(all.skip(i as int)[0] == cookies@[i as int]@);
            assert(all.skip(i as int).drop_first() =~= all.skip(i + 1));
        }
        match http_types::check_header_value(cookies[i].as_str()) {
            Err(e) => {
                return Err(e);
            },
            Ok(_) => {},
        }
        let ghost before = http_types::header_entries(headers);
        http_types::header_map_append(&mut headers, SET_COOKIE_HEADER_NAME, cookies[i].as_str());
        assert(http_types::header_entries(headers).dom() =~= before.dom().insert(
            SET_COOKIE_HEADER_NAME@,
        ));
        assert(http_types::header_entries(headers).dom() =~= start.dom().insert(
            SET_COOKIE_HEADER_NAME@,
        ));
        i = i + 1;
    }
    Ok(headers)
}

/// The response that a response record stands for, or the first error.
pub open spec fn response_parts(
    status_code: u16,
    headers: Seq<(Seq<char>, Seq<char>)>,
    cookies: Seq<Seq<char>>,
    body: Seq<char>,
    is_base64_encoded: bool,
) -> Result<ResponseView, Seq<char>> {
    if !http_types::valid_status(status_code) {
        Err("invalid status code"@)
    } else {
        match record_headers(headers, cookies) {
            Err(e) => Err(e),
            Ok(h) => match body::decoded_body(body, is_base64_encoded) {
                Err(e) => Err(e),
                Ok(b) => Ok(ResponseView { status: status_code, headers: h, body: b }),
            },
        }
    }
}

/// The view of a result that holds a response or an error text.
pub open spec fn response_result(r: Result<RouterResponse, String>) -> Result<
    ResponseView,
    Seq<char>,
> {
    match r {
        Ok(x) => Ok(x@),
        Err(e) => Err(e@),
    }
}

/// Builds the response that a response record stands for.
pub fn build_router_response_parts(
    status_code: u16,
    headers_in: &StrMap<String>,
    cookies: &Vec<String>,
    body: &str,
    is_base64_encoded: bool,
) -> (r: Result<RouterResponse, String>)
    requires
        headers_in@.len() <= MAX_RESPONSE_HEADERS,
    ensures
        response_result(r) == response_parts(
            status_code,
            str_map::text_entries(headers_in@),
            text::texts(cookies@),
            body@,
            is_base64_encoded,
        ),
        r matches Ok(x) ==> http_types::has_room(x@.headers),
{
    let status = match http_types::status_code(status_code) {
        Ok(s) => s,
        Err(e) => {
            return Err(e);
        },
    };
    let headers = match response_headers(headers_in, cookies) {
        Ok(h) => h,
        Err(e) => {
            return Err(e);
        },
    };
    let bytes = match body::decode_body_bytes(body, is_base64_encoded) {
        Ok(b) => b,
        Err(e) => {
            return Err(e);
        },
    };
    Ok(RouterResponse { status, headers, body: bytes })
}

} // verus!
