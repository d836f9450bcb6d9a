//! What a function is told of the requests of a batch.
use vstd::prelude::*;

use crate::body;
use crate::event;
use crate::json;
use crate::laws::texts;
use crate::request::PendingRequest;
use crate::str_map;
use crate::text;

verus! {

/// An item says where its request went: the path as it came in, the query as it came in, and the
/// method with the template that the path matched.
pub proof fn lemma_items_name_the_request<B, I, D>(req: PendingRequest<B, I, D>, t: u64)
    ensures
        ({
            let item = event::request_item(req, t);
            &&& item.raw_path == req.path@
            &&& item.request_context.http.path == req.path@
            &&& item.request_context.http.method == req.method@
            &&& item.raw_query_string == req.raw_query_string@
            &&& item.route_key == req.method@ + " "@ + req.route@
            &&& item.request_context.route_key == req.method@ + " "@ + req.route@
            &&& item.id == req.id@
            &&& item.request_context.request_id == req.id@
        }),
{
}

/// An item has the headers, the query parameters and the path parameters of its request, each
/// with its value.
pub proof fn lemma_items_keep_headers_and_parameters<B, I, D>(
    req: PendingRequest<B, I, D>,
    t: u64,
    i: int,
)
    ensures
        ({
            let item = event::request_item(req, t);
            &&& item.headers.len() == req.headers@.len()
            &&& 0 <= i < req.headers@.len() ==> item.headers[i] == (
                req.headers@[i].0,
                req.headers@[i].1@,
            )
            &&& item.query_string_parameters.len() == req.query@.len()
            &&& 0 <= i < req.query@.len() ==> item.query_string_parameters[i] == (
                req.query@[i].0,
                req.query@[i].1@,
            )
            &&& item.path_parameters.len() == req.path_params@.len()
            &&& 0 <= i < req.path_params@.len() ==> item.path_parameters[i] == (
                req.path_params@[i].0,
                req.path_params@[i].1@,
            )
            &&& item.stage_variables.len() == 0
        }),
{
}

/// An item says when its batch was received, by which version and protocol it goes, and who asked.
pub proof fn lemma_items_describe_the_request<B, I, D>(req: PendingRequest<B, I, D>, t: u64)
    ensures
        ({
            let item = event::request_item(req, t);
            let headers = str_map::text_entries(req.headers@);
            &&& item.version == "2.0"@
            &&& item.request_context.stage == "$default"@
            &&& item.request_context.http.protocol == "HTTP/1.1"@
            &&& t <= i64::MAX ==> item.request_context.time_epoch == t
            &&& t > i64::MAX ==> item.request_context.time_epoch == t - 0x1_0000_0000_0000_0000
            &&& item.request_context.http.user_agent == str_map::lookup(headers, "user-agent"@)
            &&& item.request_context.http.source_ip == event::request_source_ip(headers)
            &&& item.cookies == event::request_cookies(headers)
            &&& (item.body, item.is_base64_encoded) == body::encoded_body(req.body@)
            &&& item.request_context.account_id is None
            &&& item.request_context.api_id is None
            &&& item.request_context.domain_name is None
            &&& item.request_context.domain_prefix is None
            &&& item.request_context.time is None
        }),
{
}

/// There is one item for each request, in order.
pub proof fn lemma_every_request_has_its_item<B, I, D>(
    batch: Seq<PendingRequest<B, I, D>>,
    t: u64,
    i: int,
)
    requires
        0 <= i < batch.len(),
    ensures
        event::request_items(batch, t).len() == batch.len(),
        event::request_items(batch, t)[i].request_context.request_id == batch[i].id@,
        event::request_items(batch, t)[i].raw_path == batch[i].path@,
        event::request_items(batch, t)[i] == event::request_item(batch[i], t),
        event::item_texts(event::request_items(batch, t)).len() == batch.len(),
        event::item_texts(event::request_items(batch, t))[i] == seq!['{'] + text::join_text(
            event::item_members(event::request_item(batch[i], t)),
            seq![','],
        ) + seq!['}'],
{
}

/// A member that stands in one of two lists stands in both together.
proof fn lemma_in_either(a: Seq<Seq<char>>, b: Seq<Seq<char>>, m: Seq<char>)
    ensures
        a.contains(m) || b.contains(m) ==> (a + b).contains(m),
{
    if a.contains(m) {
        let i = a.index_of(m);
        assert((a + b)[i] == m);
    }
    if b.contains(m) {
        let i = b.index_of(m);
        assert((a + b)[a.len() + i] == m);
    }
}

/// How many members there are under a condition.
pub open spec fn count(b: bool) -> int {
    if b {
        1
    } else {
        0
    }
}

/// The JSON object of an item has a member for each thing that the item says, under the name that
/// an HTTP API gives it. A member without anything to say is left out, and there are no others.
pub proof fn lemma_item_objects(e: event::ItemView)
    ensures
        ({
            let m = event::item_members(e);
            &&& m.contains(json::member("version"@, json::json_string(e.version)))
            &&& m.contains(json::member("routeKey"@, json::json_string(e.route_key)))
            &&& m.contains(json::member("rawPath"@, json::json_string(e.raw_path)))
            &&& m.contains(json::member("rawQueryString"@, json::json_string(e.raw_query_string)))
            &&& m.contains(
                json::member("headers"@, json::object(json::text_members(e.headers))),
            )
            &&& m.contains(
                json::member(
                    "requestContext"@,
                    json::object(event::context_members(e.request_context)),
                ),
            )
            &&& m.contains(
                json::member(
                    "isBase64Encoded"@,
                    if e.is_base64_encoded {
                        "true"@
                    } else {
                        "false"@
                    },
                ),
            )
            &&& e.cookies matches Some(c) ==> m.contains(
                json::member("cookies"@, json::array(json::strings(c))),
            )
            &&& e.query_string_parameters.len() > 0 ==> m.contains(
                json::member(
                    "queryStringParameters"@,
                    json::object(json::text_members(e.query_string_parameters)),
                ),
            )
            &&& e.path_parameters.len() > 0 ==> m.contains(
                json::member(
                    "pathParameters"@,
                    json::object(json::text_members(e.path_parameters)),
                ),
            )
            &&& e.stage_variables.len() > 0 ==> m.contains(
                json::member(
                    "stageVariables"@,
                    json::object(json::text_members(e.stage_variables)),
                ),
            )
            &&& e.body matches Some(b) ==> m.contains(
                json::member("body"@, json::json_string(b)),
            )
            &&& m.len() == 7 + count(e.cookies is Some) + count(
                e.query_string_parameters.len() > 0,
            ) + count(e.path_parameters.len() > 0) + count(e.stage_variables.len() > 0) + count(
                e.body is Some,
            )
        }),
{
    let a = seq![
        json::member("version"@, json::json_string(e.version)),
        json::member("routeKey"@, json::json_string(e.route_key)),
        json::member("rawPath"@, json::json_string(e.raw_path)),
        json::member("rawQueryString"@, json::json_string(e.raw_query_string)),
    ];
    let b = event::list_member("cookies"@, e.cookies);
    let c = seq![json::member("headers"@, json::object(json::text_members(e.headers)))];
    let d = event::map_member("queryStringParameters"@, e.query_string_parameters);
    let f = event::map_member("pathParameters"@, e.path_parameters);
    let g = seq![
        json::member("requestContext"@, json::object(event::context_members(e.request_context))),
    ];
    let h = event::map_member("stageVariables"@, e.stage_variables);
    let i = json::opt_member("body"@, e.body);
    let j = seq![json::member("isBase64Encoded"@, json::boolean(e.is_base64_encoded))];
    let m = event::item_members(e);
    assert(m == a + b + c + d + f + g + h + i + j);
    assert forall|x: Seq<char>|
        a.contains(x) || b.contains(x) || c.contains(x) || d.contains(x) || f.contains(x)
            || g.contains(x) || h.contains(x) || i.contains(x) || j.contains(
            x,
        ) implies #[trigger] m.contains(x) by {
        lemma_in_either(a, b, x);
        lemma_in_either(a + b, c, x);
        lemma_in_either(a + b + c, d, x);
        lemma_in_either(a + b + c + d, f, x);
        lemma_in_either(a + b + c + d + f, g, x);
        lemma_in_either(a + b + c + d + f + g, h, x);
        lemma_in_either(a + b + c + d + f + g + h, i, x);
        lemma_in_either(a + b + c + d + f + g + h + i, j, x);
    }
    assert(a.contains(a[0]) && a.contains(a[1]) && a.contains(a[2]) && a.contains(a[3]));
    assert(c.contains(c[0]) && g.contains(g[0]) && j.contains(j[0]));
    if e.cookies is Some {
        assert(b.contains(b[0]));
    }
    if e.query_string_parameters.len() > 0 {
        assert(d.contains(d[0]));
    }
    if e.path_parameters.len() > 0 {
        assert(f.contains(f[0]));
    }
    if e.stage_variables.len() > 0 {
        assert(h.contains(h[0]));
    }
    if e.body is Some {
        assert(i.contains(i[0]));
    }
}

/// The JSON object of a request context has a member for each thing that it says, and no others.
pub proof fn lemma_context_objects(c: event::ContextView)
    ensures
        ({
            let m = event::context_members(c);
            &&& m.contains(json::member("routeKey"@, json::json_string(c.route_key)))
            &&& m.contains(json::member("stage"@, json::json_string(c.stage)))
            &&& m.contains(json::member("requestId"@, json::json_string(c.request_id)))
            &&& m.contains(json::member("timeEpoch"@, json::integer(c.time_epoch as int)))
            &&& m.contains(json::member("http"@, json::object(event::http_members(c.http))))
            &&& c.account_id matches Some(v) ==> m.contains(
                json::member("accountId"@, json::json_string(v)),
            )
            &&& c.api_id matches Some(v) ==> m.contains(
                json::member("apiId"@, json::json_string(v)),
            )
            &&& c.domain_name matches Some(v) ==> m.contains(
                json::member("domainName"@, json::json_string(v)),
            )
            &&& c.domain_prefix matches Some(v) ==> m.contains(
                json::member("domainPrefix"@, json::json_string(v)),
            )
            &&& c.time matches Some(v) ==> m.contains(json::member("time"@, json::json_string(v)))
            &&& m.len() == 5 + count(c.account_id is Some) + count(c.api_id is Some) + count(
                c.domain_name is Some,
            ) + count(c.domain_prefix is Some) + count(c.time is Some)
        }),
{
    let a = json::opt_member("accountId"@, c.account_id);
    let b = json::opt_member("apiId"@, c.api_id);
    let d = json::opt_member("domainName"@, c.domain_name);
    let e = json::opt_member("domainPrefix"@, c.domain_prefix);
    let f = seq![
        json::member("routeKey"@, json::json_string(c.route_key)),
        json::member("stage"@, json::json_string(c.stage)),
        json::member("requestId"@, json::json_string(c.request_id)),
    ];
    let g = json::opt_member("time"@, c.time);
    let h = seq![
        json::member("timeEpoch"@, json::integer(c.time_epoch as int)),
        json::member("http"@, json::object(event::http_members(c.http))),
    ];
    let m = event::context_members(c);
    assert(m == a + b + d + e + f + g + h);
    assert forall|x: Seq<char>|
        a.contains(x) || b.contains(x) || d.contains(x) || e.contains(x) || f.contains(x)
            || g.contains(x) || h.contains(x) implies #[trigger] m.contains(x) by {
        lemma_in_either(a, b, x);
        lemma_in_either(a + b, d, x);
        lemma_in_either(a + b + d, e, x);
        lemma_in_either(a + b + d + e, f, x);
        lemma_in_either(a + b + d + e + f, g, x);
        lemma_in_either(a + b + d + e + f + g, h, x);
    }
    assert(f.contains(f[0]) && f.contains(f[1]) && f.contains(f[2]));
    assert(h.contains(h[0]) && h.contains(h[1]));
    if c.account_id is Some {
        assert(a.contains(a[0]));
    }
    if c.api_id is Some {
        assert(b.contains(b[0]));
    }
    if c.domain_name is Some {
        assert(d.contains(d[0]));
    }
    if c.domain_prefix is Some {
        assert(e.contains(e[0]));
    }
    if c.time is Some {
        assert(g.contains(g[0]));
    }
}

/// The JSON object of an HTTP description has a member for each thing that it says, and no others.
pub proof fn lemma_http_objects(h: event::HttpView)
    ensures
        ({
            let m = event::http_members(h);
            &&& m.contains(json::member("method"@, json::json_string(h.method)))
            &&& m.contains(json::member("path"@, json::json_string(h.path)))
            &&& m.contains(json::member("protocol"@, json::json_string(h.protocol)))
            &&& h.source_ip matches Some(v) ==> m.contains(
                json::member("sourceIp"@, json::json_string(v)),
            )
            &&& h.user_agent matches Some(v) ==> m.contains(
                json::member("userAgent"@, json::json_string(v)),
            )
            &&& m.len() == 3 + count(h.source_ip is Some) + count(h.user_agent is Some)
        }),
{
    let a = seq![
        json::member("method"@, json::json_string(h.method)),
        json::member("path"@, json::json_string(h.path)),
        json::member("protocol"@, json::json_string(h.protocol)),
    ];
    let b = json::opt_member("sourceIp"@, h.source_ip);
    let c = json::opt_member("userAgent"@, h.user_agent);
    let m = event::http_members(h);
    assert(m == a + b + c);
    assert forall|x: Seq<char>|
        a.contains(x) || b.contains(x) || c.contains(x) implies #[trigger] m.contains(x) by {
        lemma_in_either(a, b, x);
        lemma_in_either(a + b, c, x);
    }
    assert(a.contains(a[0]) && a.contains(a[1]) && a.contains(a[2]));
    if h.source_ip is Some {
        assert(b.contains(b[0]));
    }
    if h.user_agent is Some {
        assert(c.contains(c[0]));
    }
}

/// How JSON texts are put together.
pub proof fn lemma_json_texts(
    key: Seq<char>,
    value: Seq<char>,
    texts: Seq<Seq<char>>,
    entries: Seq<(Seq<char>, Seq<char>)>,
    i: int,
)
    ensures
        json::member(key, value) == json::json_string(key) + seq![':'] + value,
        json::object(texts) == seq!['{'] + text::join_text(texts, seq![',']) + seq!['}'],
        json::array(texts) == seq!['['] + text::join_text(texts, seq![',']) + seq![']'],
        json::text_members(entries).len() == entries.len(),
        0 <= i < entries.len() ==> json::text_members(entries)[i] == json::json_string(
            entries[i].0,
        ) + seq![':'] + json::json_string(entries[i].1),
        json::strings(texts).len() == texts.len(),
        0 <= i < texts.len() ==> json::strings(texts)[i] == json::json_string(texts[i]),
        i >= 0 ==> json::integer(i) == text::decimal_text(i as nat),
        i < 0 ==> json::integer(i) == seq!['-'] + text::decimal_text((-i) as nat),
        text::join_text(Seq::empty(), value) == Seq::<char>::empty(),
        text::join_text(seq![key], value) == key,
        texts.len() > 0 ==> text::join_text(texts.push(key), value) == text::join_text(texts, value)
            + value + key,
{
    assert(texts.push(key).drop_last() =~= texts);
}

/// A batch event says its version, which router made it for which route and when, and then the
/// requests in order.
pub proof fn lemma_batch_events(route: Seq<char>, t: u64, batch: Seq<event::ItemView>, i: int)
    ensures
        event::payload_text(route, t, batch) == json::object(
            seq![
                json::member("v"@, "1"@),
                json::member(
                    "meta"@,
                    json::object(
                        seq![
                            json::member("router"@, json::json_string("lambda-parallel-router"@)),
                            json::member("route"@, json::json_string(route)),
                            json::member("receivedAtMs"@, text::decimal_text(t as nat)),
                        ],
                    ),
                ),
                json::member("batch"@, json::array(event::item_texts(batch))),
            ],
        ),
        event::item_texts(batch).len() == batch.len(),
        0 <= i < batch.len() ==> event::item_texts(batch)[i] == json::object(
            event::item_members(batch[i]),
        ),
        event::payload(route, t, batch) == vstd::utf8::encode_utf8(
            event::payload_text(route, t, batch),
        ),
{
    reveal(event::payload_text);
}

/// Splitting takes the first piece off.
proof fn lemma_split_first(first: Seq<char>, rest: Seq<char>, sep: char)
    requires
        !first.contains(sep),
    ensures
        text::split_text(first, sep) == seq![first],
        text::split_text(first + seq![sep] + rest, sep) == seq![first] + text::split_text(rest, sep),
{
    let s = first + seq![sep] + rest;
    let n = first.len() as int;
    text::lemma_piece_len(s, sep);
    text::lemma_piece_len(first, sep);
    let k = text::piece_len(s, sep) as int;
    if k < n {
        assert(first[k] == s[k]);
        assert(first.contains(s[k]));
    }
    if k > n {
        assert(s[n] == sep);
    }
    assert(k == n);
    assert(s.take(n) =~= first);
    assert(s.skip(n + 1) =~= rest);
    let j = text::piece_len(first, sep) as int;
    if j < n {
        assert(first.contains(first[j]));
    }
}

/// Splitting undoes joining, where no part holds the separator.
pub proof fn lemma_split_of_join(parts: Seq<Seq<char>>, sep: char)
    requires
        parts.len() > 0,
        forall|i: int| 0 <= i < parts.len() ==> !(#[trigger] parts[i]).contains(sep),
    ensures
        text::split_text(text::join_text(parts, seq![sep]), sep) == parts,
    decreases parts.len(),
{
    if parts.len() == 1 {
        assert(text::join_text(parts, seq![sep]) == parts[0]);
        lemma_split_first(parts[0], Seq::empty(), sep);
        assert(parts =~= seq![parts[0]]);
    } else {
        let rest = parts.drop_first();
        assert forall|i: int| 0 <= i < rest.len() implies !(#[trigger] rest[i]).contains(sep) by {
            assert(rest[i] == parts[i + 1]);
        }
        lemma_split_of_join(rest, sep);
        texts::lemma_join_front(parts[0], rest, seq![sep]);
        assert(parts =~= seq![parts[0]] + rest);
        lemma_split_first(parts[0], text::join_text(rest, seq![sep]), sep);
    }
}

/// The cookies of a request are the parts between the semicolons of its `cookie` header, without
/// the white space round them and without those that are blank. Without that header there are
/// none.
pub proof fn lemma_cookies_are_told_apart(
    headers: Seq<(Seq<char>, Seq<char>)>,
    parts: Seq<Seq<char>>,
)
    requires
        parts.len() > 0,
        forall|i: int| 0 <= i < parts.len() ==> !(#[trigger] parts[i]).contains(';'),
    ensures
        str_map::lookup(headers, "cookie"@) is None ==> event::request_cookies(headers) is None,
        str_map::lookup(headers, "cookie"@) == Some(text::join_text(parts, seq![';']))
            ==> event::request_cookies(headers) == (if text::trimmed_pieces(parts).len() == 0 {
            None
        } else {
            Some(text::trimmed_pieces(parts))
        }),
{
    lemma_split_of_join(parts, ';');
}

/// The address of a client is what stands before the first comma of the `x-forwarded-for` header,
/// without the white space round it, where that is not blank.
pub proof fn lemma_the_first_address_counts(
    headers: Seq<(Seq<char>, Seq<char>)>,
    first: Seq<char>,
    rest: Seq<char>,
)
    requires
        !first.contains(','),
    ensures
        str_map::lookup(headers, "x-forwarded-for"@) is None ==> event::request_source_ip(
            headers,
        ) is None,
        str_map::lookup(headers, "x-forwarded-for"@) == Some(first) || str_map::lookup(
            headers,
            "x-forwarded-for"@,
        ) == Some(first + seq![','] + rest) ==> event::request_source_ip(headers) == (if text::trimmed(
            first,
        ).len() == 0 {
            None
        } else {
            Some(text::trimmed(first))
        }),
{
    lemma_split_first(first, rest, ',');
}

} // verus!
