//! Header names, header values, header maps and status codes, as the `http` crate has them.
use vstd::prelude::*;

use crate::text;

verus! {

/// The header map of the `http` crate.
#[verifier::external_type_specification]
#[verifier::external_body]
#[verifier::reject_recursive_types(T)]
pub struct ExHeaderMap<T>(http::HeaderMap<T>);

/// The header value of the `http` crate, the value type of its header maps.
#[verifier::external_type_specification]
#[verifier::external_body]
pub struct ExHeaderValue(http::HeaderValue);

/// What a header map holds: under each name, in lower case, the values in order, as bytes.
pub uninterp spec fn header_entries(headers: http::HeaderMap) -> Map<Seq<char>, Seq<Seq<u8>>>;

/// The contents of a header map without entries.
pub open spec fn no_headers() -> Map<Seq<char>, Seq<Seq<u8>>> {
    Map::empty()
}

/// The characters that may occur in a header name.
pub open spec fn is_token_char(c: char) -> bool {
    ||| '0' <= c <= '9'
    ||| 'A' <= c <= 'Z'
    ||| 'a' <= c <= 'z'
    ||| c == '!'
    ||| '#' <= c <= '\''
    ||| c == '*'
    ||| c == '+'
    ||| c == '-'
    ||| c == '.'
    ||| '^' <= c <= '`'
    ||| c == '|'
    ||| c == '~'
}

/// The longest header name.
pub const MAX_NAME_LEN: usize = 65535;

/// Whether a text is a header name, in any letter case.
pub open spec fn valid_header_name(name: Seq<char>) -> bool {
    &&& 0 < name.len() <= MAX_NAME_LEN
    &&& forall|i: int| 0 <= i < name.len() ==> is_token_char(#[trigger] name[i])
}

/// Whether a text may stand as a header value: no control character but the tab.
pub open spec fn valid_header_value(value: Seq<char>) -> bool {
    forall|i: int| 0 <= i < value.len() ==> (#[trigger] value[i]) == '\t' || (value[i] >= ' ' && value[i] != '\u{7f}')
}

/// The number of names up to which a header map takes a further name whatever the names are.
///
/// A header map whose names collide doubles its index once a fifth of it is in use, and panics
/// where the index would pass 32768 places.
pub const MAX_NAMES: usize = 6553;

/// Whether a header map takes a further name.
pub open spec fn has_room(headers: Map<Seq<char>, Seq<Seq<u8>>>) -> bool {
    headers.dom().finite() && headers.dom().len() <= MAX_NAMES
}

/// `http::HeaderMap::new` returns a map without entries.
#[verifier::external_body]
pub(crate) fn header_map_new() -> (r: http::HeaderMap)
    ensures
        header_entries(r) == no_headers(),
{
    http::HeaderMap::new()
}

/// `http::HeaderName::from_bytes` accepts the texts of at most 65535 token characters, and
/// puts them in lower case. The error is the text that its error displays.
#[verifier::external_body]
pub(crate) fn header_name(name: &str) -> (r: Result<String, String>)
    ensures
        r is Ok <==> valid_header_name(name@),
        r matches Ok(n) ==> n@ == text::lower_text(name@),
        r matches Err(e) ==> e@ == "invalid HTTP header name"@,
{
    match http::HeaderName::from_bytes(name.as_bytes()) {
        Ok(n) => Ok(n.as_str().to_string()),
        Err(e) => Err(e.to_string()),
    }
}

/// `http::HeaderValue::from_str` accepts the texts without control characters other than the
/// tab. The error is the text that its error displays.
#[verifier::external_body]
pub(crate) fn check_header_value(value: &str) -> (r: Result<(), String>)
    ensures
        r is Ok <==> valid_header_value(value@),
        r matches Err(e) ==> e@ == "failed to parse header value"@,
{
    match http::HeaderValue::from_str(value) {
        Ok(_) => Ok(()),
        Err(e) => Err(e.to_string()),
    }
}

/// `http::HeaderMap::insert` replaces all values under a name by one.
#[verifier::external_body]
pub(crate) fn header_map_insert(headers: &mut http::HeaderMap, name: &str, value: &str)
    requires
        valid_header_name(name@),
        valid_header_value(value@),
        has_room(header_entries(*old(headers))),
    ensures
        header_entries(*final(headers)) == header_entries(*old(headers)).insert(
            text::lower_text(name@),
            seq![vstd::utf8::encode_utf8(value@)],
        ),
{
    headers.insert(
        http::HeaderName::from_bytes(name.as_bytes()).unwrap(),
        http::HeaderValue::from_str(value).unwrap(),
    );
}

/// The values under a name, with one more at the end.
pub open spec fn appended(
    headers: Map<Seq<char>, Seq<Seq<u8>>>,
    name: Seq<char>,
    value: Seq<u8>,
) -> Map<Seq<char>, Seq<Seq<u8>>> {
    let before = if headers.dom().contains(name) {
        headers[name]
    } else {
        Seq::empty()
    };
    headers.insert(name, before.push(value))
}

/// `http::HeaderMap::append` adds a value behind those already under a name.
#[verifier::external_body]
pub(crate) fn header_map_append(headers: &mut http::HeaderMap, name: &str, value: &str)
    requires
        valid_header_name(name@),
        valid_header_value(value@),
        has_room(header_entries(*old(headers))),
    ensures
        header_entries(*final(headers)) == appended(
            header_entries(*old(headers)),
            text::lower_text(name@),
            vstd::utf8::encode_utf8(value@),
        ),
{
    headers.append(
        http::HeaderName::from_bytes(name.as_bytes()).unwrap(),
        http::HeaderValue::from_str(value).unwrap(),
    );
}

/// Whether a number is a status code.
pub open spec fn valid_status(code: u16) -> bool {
    100 <= code <= 999
}

/// `http::StatusCode::from_u16` accepts the numbers from 100 to 999. The error is the text
/// that its error displays.
#[verifier::external_body]
pub(crate) fn status_code(code: u16) -> (r: Result<u16, String>)
    ensures
        r is Ok <==> valid_status(code),
        r matches Ok(s) ==> s == code,
        r matches Err(e) ==> e@ == "invalid status code"@,
{
    match http::StatusCode::from_u16(code) {
        Ok(s) => Ok(s.as_u16()),
        Err(e) => Err(e.to_string()),
    }
}

/// Decimal notation is a header value.
pub proof fn lemma_decimal_is_value(n: nat)
    ensures
        valid_header_value(text::decimal_text(n)),
    decreases n,
{
    if n >= 10 {
        lemma_decimal_is_value(n / 10);
    }
}

} // verus!
