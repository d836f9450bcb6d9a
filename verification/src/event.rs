//! The batch event that an invocation is sent: one HTTP API v2 event per request.
use vstd::prelude::*;
use vstd::slice::*;
use vstd::string::*;

use crate::body;
use crate::json;
use crate::request;
use crate::request::BatchKey;
use crate::request::PendingRequest;
use crate::request::ResponseSink;
use crate::str_map;
use crate::str_map::StrMap;
use crate::text;

verus! {

/// One request of a batch event.
#[derive(Debug)]
pub struct BatchItem {
    /// Router-generated request identifier (used for correlating batch responses).
    ///
    /// It is written into the event as `requestContext.requestId`.
    pub id: String,
    pub version: &'static str,
    pub route_key: String,
    pub raw_path: String,
    pub raw_query_string: String,
    pub cookies: Option<Vec<String>>,
    pub headers: StrMap<String>,
    pub query_string_parameters: StrMap<String>,
    pub path_parameters: StrMap<String>,
    pub request_context: ApiGatewayV2RequestContext,
    pub stage_variables: StrMap<String>,
    pub body: Option<String>,
    pub is_base64_encoded: bool,
}

#[derive(Debug)]
pub struct ApiGatewayV2RequestContext {
    pub account_id: Option<String>,
    pub api_id: Option<String>,
    pub domain_name: Option<String>,
    pub domain_prefix: Option<String>,
    pub route_key: String,
    pub stage: &'static str,
    pub request_id: String,
    pub time: Option<String>,
    pub time_epoch: i64,
    pub http: ApiGatewayV2HttpDescription,
}

#[derive(Debug)]
pub struct ApiGatewayV2HttpDescription {
    pub method: String,
    pub path: String,
    pub protocol: &'static str,
    pub source_ip: Option<String>,
    pub user_agent: Option<String>,
}

/// What an item of a batch event says.
#[verifier::ext_equal]
pub struct ItemView {
    pub id: Seq<char>,
    pub version: Seq<char>,
    pub route_key: Seq<char>,
    pub raw_path: Seq<char>,
    pub raw_query_string: Seq<char>,
    pub cookies: Option<Seq<Seq<char>>>,
    pub headers: Seq<(Seq<char>, Seq<char>)>,
    pub query_string_parameters: Seq<(Seq<char>, Seq<char>)>,
    pub path_parameters: Seq<(Seq<char>, Seq<char>)>,
    pub request_context: ContextView,
    pub stage_variables: Seq<(Seq<char>, Seq<char>)>,
    pub body: Option<Seq<char>>,
    pub is_base64_encoded: bool,
}

/// What a request context says.
#[verifier::ext_equal]
pub struct ContextView {
    pub account_id: Option<Seq<char>>,
    pub api_id: Option<Seq<char>>,
    pub domain_name: Option<Seq<char>>,
    pub domain_prefix: Option<Seq<char>>,
    pub route_key: Seq<char>,
    pub stage: Seq<char>,
    pub request_id: Seq<char>,
    pub time: Option<Seq<char>>,
    pub time_epoch: i64,
    pub http: HttpView,
}

/// What an HTTP description says.
#[verifier::ext_equal]
pub struct HttpView {
    pub method: Seq<char>,
    pub path: Seq<char>,
    pub protocol: Seq<char>,
    pub source_ip: Option<Seq<char>>,
    pub user_agent: Option<Seq<char>>,
}

/// The view of an optional list of strings.
pub open spec fn opt_list(list: Option<Vec<String>>) -> Option<Seq<Seq<char>>> {
    match list {
        Some(l) => Some(text::texts(l@)),
        None => None,
    }
}

impl View for ApiGatewayV2HttpDescription {
    type V = HttpView;

    open spec fn view(&self) -> HttpView {
        HttpView {
            method: self.method@,
            path: self.path@,
            protocol: self.protocol@,
            source_ip: text::opt_text(self.source_ip),
            user_agent: text::opt_text(self.user_agent),
        }
    }
}

impl View for ApiGatewayV2RequestContext {
    type V = ContextView;

    open spec fn view(&self) -> ContextView {
        ContextView {
            account_id: text::opt_text(self.account_id),
            api_id: text::opt_text(self.api_id),
            domain_name: text::opt_text(self.domain_name),
            domain_prefix: text::opt_text(self.domain_prefix),
            route_key: self.route_key@,
            stage: self.stage@,
            request_id: self.request_id@,
            time: text::opt_text(self.time),
            time_epoch: self.time_epoch,
            http: self.http@,
        }
    }
}

impl View for BatchItem {
    type V = ItemView;

    open spec fn view(&self) -> ItemView {
        ItemView {
            id: self.id@,
            version: self.version@,
            route_key: self.route_key@,
            raw_path: self.raw_path@,
            raw_query_string: self.raw_query_string@,
            cookies: opt_list(self.cookies),
            headers: str_map::text_entries(self.headers@),
            query_string_parameters: str_map::text_entries(self.query_string_parameters@),
            path_parameters: str_map::text_entries(self.path_parameters@),
            request_context: self.request_context@,
            stage_variables: str_map::text_entries(self.stage_variables@),
            body: text::opt_text(self.body),
            is_base64_encoded: self.is_base64_encoded,
        }
    }
}

/// The views of a sequence of items.
pub open spec fn items(batch: Seq<BatchItem>) -> Seq<ItemView> {
    Seq::new(batch.len(), |i: int| batch[i]@)
}

/// The members of the JSON object of an HTTP description.
pub open spec fn http_members(h: HttpView) -> Seq<Seq<char>> {
    seq![
        json::member("method"@, json::json_string(h.method)),
        json::member("path"@, json::json_string(h.path)),
        json::member("protocol"@, json::json_string(h.protocol)),
    ] + json::opt_member("sourceIp"@, h.source_ip) + json::opt_member("userAgent"@, h.user_agent)
}

/// The members of the JSON object of a request context.
pub open spec fn context_members(c: ContextView) -> Seq<Seq<char>> {
    json::opt_member("accountId"@, c.account_id) + json::opt_member("apiId"@, c.api_id)
        + json::opt_member("domainName"@, c.domain_name) + json::opt_member(
        "domainPrefix"@,
        c.domain_prefix,
    ) + seq![
        json::member("routeKey"@, json::json_string(c.route_key)),
        json::member("stage"@, json::json_string(c.stage)),
        json::member("requestId"@, json::json_string(c.request_id)),
    ] + json::opt_member("time"@, c.time) + seq![
        json::member("timeEpoch"@, json::integer(c.time_epoch as int)),
        json::member("http"@, json::object(http_members(c.http))),
    ]
}

/// The member of a map of texts, where it has an entry.
pub open spec fn map_member(key: Seq<char>, entries: Seq<(Seq<char>, Seq<char>)>) -> Seq<Seq<char>> {
    if entries.len() == 0 {
        Seq::empty()
    } else {
        seq![json::member(key, json::object(json::text_members(entries)))]
    }
}

/// The member of a list of texts, where there is one.
pub open spec fn list_member(key: Seq<char>, list: Option<Seq<Seq<char>>>) -> Seq<Seq<char>> {
    match list {
        Some(l) => seq![json::member(key, json::array(json::strings(l)))],
        None => Seq::empty(),
    }
}

/// The members of the JSON object of an item.
pub open spec fn item_members(e: ItemView) -> Seq<Seq<char>> {
    seq![
        json::member("version"@, json::json_string(e.version)),
        json::member("routeKey"@, json::json_string(e.route_key)),
        json::member("rawPath"@, json::json_string(e.raw_path)),
        json::member("rawQueryString"@, json::json_string(e.raw_query_string)),
    ] + list_member("cookies"@, e.cookies) + seq![
        json::member("headers"@, json::object(json::text_members(e.headers))),
    ] + map_member("queryStringParameters"@, e.query_string_parameters) + map_member(
        "pathParameters"@,
        e.path_parameters,
    ) + seq![
        json::member("requestContext"@, json::object(context_members(e.request_context))),
    ] + map_member("stageVariables"@, e.stage_variables) + json::opt_member("body"@, e.body) + seq![
        json::member("isBase64Encoded"@, json::boolean(e.is_base64_encoded)),
    ]
}

/// The JSON objects of some items.
pub open spec fn item_texts(batch: Seq<ItemView>) -> Seq<Seq<char>> {
    Seq::new(batch.len(), |i: int| json::object(item_members(batch[i])))
}

/// The JSON text of a batch event.
#[verifier::opaque]
pub open spec fn payload_text(route: Seq<char>, received_at_ms: u64, batch: Seq<ItemView>) -> Seq<
    char,
> {
    json::object(
        seq![
            json::member("v"@, "1"@),
            json::member(
                "meta"@,
                json::object(
                    seq![
                        json::member("router"@, json::json_string("lambda-parallel-router"@)),
                        json::member("route"@, json::json_string(route)),
                        json::member(
                            "receivedAtMs"@,
                            text::decimal_text(received_at_ms as nat),
                        ),
                    ],
                ),
            ),
            json::member("batch"@, json::array(item_texts(batch))),
        ],
    )
}

/// The bytes of a batch event.
pub open spec fn payload(route: Seq<char>, received_at_ms: u64, batch: Seq<ItemView>) -> Seq<u8> {
    vstd::utf8::encode_utf8(payload_text(route, received_at_ms, batch))
}

fn write_http(h: &ApiGatewayV2HttpDescription) -> (r: String)
    ensures
        r@ == json::object(http_members(h@)),
{
    let mut m: Vec<String> = Vec::new();
    json::push_text(&mut m, "method", h.method.as_str());
    json::push_text(&mut m, "path", h.path.as_str());
    json::push_text(&mut m, "protocol", h.protocol);
    json::push_opt_text(&mut m, "sourceIp", &h.source_ip);
    json::push_opt_text(&mut m, "userAgent", &h.user_agent);
    assert(text::texts(m@) =~= http_members(h@));
    json::write_object(&m)
}

fn write_context(c: &ApiGatewayV2RequestContext) -> (r: String)
    ensures
        r@ == json::object(context_members(c@)),
{
    let mut m: Vec<String> = Vec::new();
    json::push_opt_text(&mut m, "accountId", &c.account_id);
    json::push_opt_text(&mut m, "apiId", &c.api_id);
    json::push_opt_text(&mut m, "domainName", &c.domain_name);
    json::push_opt_text(&mut m, "domainPrefix", &c.domain_prefix);
    json::push_text(&mut m, "routeKey", c.route_key.as_str());
    json::push_text(&mut m, "stage", c.stage);
    json::push_text(&mut m, "requestId", c.request_id.as_str());
    json::push_opt_text(&mut m, "time", &c.time);
    let time_epoch = json::write_integer(c.time_epoch);
    json::push_member(&mut m, "timeEpoch", time_epoch.as_str());
    let http = write_http(&c.http);
    json::push_member(&mut m, "http", http.as_str());
    assert(text::texts(m@) =~= context_members(c@));
    json::write_object(&m)
}

fn push_map(members: &mut Vec<String>, key: &str, entries: &StrMap<String>)
    ensures
        text::texts(final(members)@) == text::texts(old(members)@) + map_member(
            key@,
            str_map::text_entries(entries@),
        ),
{
    let ghost before = text::texts(members@);
    if entries.is_empty() {
        assert(text::texts(members@) =~= before + Seq::<Seq<char>>::empty());
    } else {
        let value = json::write_text_map(entries);
        json::push_member(members, key, value.as_str());
        assert(text::texts(members@) =~= before + map_member(
            key@,
            str_map::text_entries(entries@),
        ));
    }
}

fn push_list(members: &mut Vec<String>, key: &str, list: &Option<Vec<String>>)
    ensures
        text::texts(final(members)@) == text::texts(old(members)@) + list_member(
            key@,
            opt_list(*list),
        ),
{
    let ghost before = text::texts(members@);
    match list {
        Some(l) => {
            let value = json::write_text_array(l);
            json::push_member(members, key, value.as_str());
            assert(text::texts(members@) =~= before + list_member(key@, opt_list(*list)));
        },
        None => {
            assert(text::texts(members@) =~= before + Seq::<Seq<char>>::empty());
        },
    }
}

fn write_item(e: &BatchItem) -> (r: String)
    ensures
        r@ == json::object(item_members(e@)),
{
    let mut m: Vec<String> = Vec::new();
    json::push_text(&mut m, "version", e.version);
    json::push_text(&mut m, "routeKey", e.route_key.as_str());
    json::push_text(&mut m, "rawPath", e.raw_path.as_str());
    json::push_text(&mut m, "rawQueryString", e.raw_query_string.as_str());
    push_list(&mut m, "cookies", &e.cookies);
    let headers = json::write_text_map(&e.headers);
    json::push_member(&mut m, "headers", headers.as_str());
    push_map(&mut m, "queryStringParameters", &e.query_string_parameters);
    push_map(&mut m, "pathParameters", &e.path_parameters);
    let context = write_context(&e.request_context);
    json::push_member(&mut m, "requestContext", context.as_str());
    push_map(&mut m, "stageVariables", &e.stage_variables);
    json::push_opt_text(&mut m, "body", &e.body);
    let encoded = if e.is_base64_encoded {
        "true"
    } else {
        "false"
    };
    json::push_member(&mut m, "isBase64Encoded", encoded);
    assert(text::texts(m@) =~= item_members(e@));
    json::write_object(&m)
}

/// Writes the batch event of some items.
pub fn build_payload_bytes(key: &BatchKey, received_at_ms: u64, batch_items: &Vec<BatchItem>) -> (r:
    Vec<u8>)
    ensures
        r@ == payload(key.route@, received_at_ms, items(batch_items@)),
{
    let ghost all = item_texts(items(batch_items@));
    let mut texts: Vec<String> = Vec::new();
    let mut i: usize = 0;
    assert(text::texts(texts@) =~= all.take(0));
    while i < batch_items.len()
        invariant
            i <= batch_items@.len(),
            all == item_texts(items(batch_items@)),
            text::texts(texts@) == all.take(i as int),
        decreases batch_items@.len() - i,
    {
        let ghost before = text::texts(texts@);
        texts.push(write_item(&batch_items[i]));
        assert(text::texts(texts@) =~= before.push(all[i as int]));
        assert(all.take(i as int).push(all[i as int]) =~= all.take(i + 1));
        i = i + 1;
    }
    assert(all.take(all.len() as int) =~= all);

    let mut meta: Vec<String> = Vec::new();
    json::push_text(&mut meta, "router", "lambda-parallel-router");
    json::push_text(&mut meta, "route", key.route.as_str());
    let received = text::decimal(received_at_ms);
    json::push_member(&mut meta, "receivedAtMs", received.as_str());
    let ghost meta_members = text::texts(meta@);
    let meta_text = json::write_object(&meta);
    let batch = json::write_array(&texts);

    let mut event: Vec<String> = Vec::new();
    json::push_member(&mut event, "v", "1");
    json::push_member(&mut event, "meta", meta_text.as_str());
    json::push_member(&mut event, "batch", batch.as_str());
    proof {
        reveal(payload_text);
        assert(meta_members =~= seq![
            json::member("router"@, json::json_string("lambda-parallel-router"@)),
            json::member("route"@, json::json_string(key.route@)),
            json::member("receivedAtMs"@, text::decimal_text(received_at_ms as nat)),
        ]);
        assert(text::texts(event@) =~= seq![
            json::member("v"@, "1"@),
            json::member("meta"@, json::object(meta_members)),
            json::member("batch"@, json::array(all)),
        ]);
    }
    let out = json::write_object(&event);
    slice_to_vec(out.as_str().as_bytes())
}

/// The cookies of a request, in order, where it has any.
pub open spec fn request_cookies(headers: Seq<(Seq<char>, Seq<char>)>) -> Option<Seq<Seq<char>>> {
    match str_map::lookup(headers, "cookie"@) {
        Some(v) => {
            let cookies = text::trimmed_pieces(text::split_text(v, ';'));
            if cookies.len() == 0 {
                None
            } else {
                Some(cookies)
            }
        },
        None => None,
    }
}

/// The cookies of a request: the parts of its `cookie` header.
pub fn parse_cookie_header(headers: &StrMap<String>) -> (r: Option<Vec<String>>)
    ensures
        opt_list(r) == request_cookies(str_map::text_entries(headers@)),
{
    let header_value = match request::get_text(headers, "cookie") {
        Some(v) => v,
        None => {
            return None;
        },
    };
    let cookies = text::split_trimmed(header_value.as_str(), ';');
    assert(text::texts(cookies@).len() == cookies@.len());
    if cookies.len() == 0 {
        None
    } else {
        Some(cookies)
    }
}

/// The address of the client: the first entry of the `x-forwarded-for` header, where it has
/// one.
pub open spec fn request_source_ip(headers: Seq<(Seq<char>, Seq<char>)>) -> Option<Seq<char>> {
    match str_map::lookup(headers, "x-forwarded-for"@) {
        Some(v) => {
            let ip = text::trimmed(text::split_text(v, ',')[0]);
            if ip.len() == 0 {
                None
            } else {
                Some(ip)
            }
        },
        None => None,
    }
}

/// The address of the client.
pub fn extract_source_ip(headers: &StrMap<String>) -> (r: Option<String>)
    ensures
        text::opt_text(r) == request_source_ip(str_map::text_entries(headers@)),
{
    let forwarded = match request::get_text(headers, "x-forwarded-for") {
        Some(v) => v,
        None => {
            return None;
        },
    };
    let ip = text::first_trimmed(forwarded.as_str(), ',');
    if text::is_empty(ip.as_str()) {
        None
    } else {
        Some(ip)
    }
}

/// A number of milliseconds as a signed number; one that is too large wraps around.
pub open spec fn signed_ms(ms: u64) -> i64 {
    if ms <= i64::MAX {
        ms as i64
    } else {
        (ms - u64::MAX - 1) as i64
    }
}

fn to_signed_ms(ms: u64) -> (r: i64)
    ensures
        r == signed_ms(ms),
{
    if ms <= i64::MAX as u64 {
        ms as i64
    } else {
        -1 - (u64::MAX - ms) as i64
    }
}

/// The item of a batch event that stands for a request.
pub open spec fn request_item<B, I, D>(req: PendingRequest<B, I, D>, received_at_ms: u64) -> ItemView {
    let headers = str_map::text_entries(req.headers@);
    let route_key = req.method@ + " "@ + req.route@;
    let (body, is_base64_encoded) = body::encoded_body(req.body@);
    ItemView {
        id: req.id@,
        version: "2.0"@,
        route_key,
        raw_path: req.path@,
        raw_query_string: req.raw_query_string@,
        cookies: request_cookies(headers),
        headers,
        query_string_parameters: str_map::text_entries(req.query@),
        path_parameters: str_map::text_entries(req.path_params@),
        request_context: ContextView {
            account_id: None,
            api_id: None,
            domain_name: None,
            domain_prefix: None,
            route_key,
            stage: "$default"@,
            request_id: req.id@,
            time: None,
            time_epoch: signed_ms(received_at_ms),
            http: HttpView {
                method: req.method@,
                path: req.path@,
                protocol: "HTTP/1.1"@,
                source_ip: request_source_ip(headers),
                user_agent: str_map::lookup(headers, "user-agent"@),
            },
        },
        stage_variables: Seq::empty(),
        body,
        is_base64_encoded,
    }
}

/// The items of a batch event that stand for some requests, in order.
pub open spec fn request_items<B, I, D>(
    batch: Seq<PendingRequest<B, I, D>>,
    received_at_ms: u64,
) -> Seq<ItemView> {
    Seq::new(batch.len(), |i: int| request_item(batch[i], received_at_ms))
}

/// The item of a batch event that stands for a request, and where its response goes.
pub fn batch_item<B, I, D>(req: PendingRequest<B, I, D>, received_at_ms: u64) -> (r: (
    BatchItem,
    ResponseSink<B, I, D>,
))
    ensures
        r.0@ == request_item(req, received_at_ms),
        r.0.body is None ==> req.body@.len() == 0,
        r.0.body matches Some(s) ==> body::decoded_body(s@, r.0.is_base64_encoded)
            == body::readable(req.body@),
        r.1 == req.respond_to,
        r.0.id@ == req.id@,
        r.0.request_context.request_id@ == req.id@,
        r.0.raw_path@ == req.path@,
        r.0.request_context.http.path@ == req.path@,
        r.0.request_context.http.method@ == req.method@,
        r.0.raw_query_string@ == req.raw_query_string@,
        r.0.route_key@ == req.method@ + " "@ + req.route@,
        r.0.request_context.route_key@ == req.method@ + " "@ + req.route@,
        r.0.headers@ == req.headers@,
        r.0.query_string_parameters@ == req.query@,
        r.0.path_parameters@ == req.path_params@,
{
    let mut route_key = req.method.clone();
    route_key.append(" ");
    route_key.append(req.route.as_str());
    let source_ip = extract_source_ip(&req.headers);
    let user_agent = request::get_text(&req.headers, "user-agent");
    let cookies = parse_cookie_header(&req.headers);
    let (body, is_base64_encoded) = body::encode_body(req.body.as_slice());
    let stage_variables: StrMap<String> = StrMap::new();
    assert(str_map::text_entries(stage_variables@) =~= Seq::<(Seq<char>, Seq<char>)>::empty());
    let item = BatchItem {
        id: req.id.clone(),
        version: "2.0",
        route_key: route_key.clone(),
        raw_path: req.path.clone(),
        raw_query_string: req.raw_query_string,
        cookies,
        headers: req.headers,
        query_string_parameters: req.query,
        path_parameters: req.path_params,
        request_context: ApiGatewayV2RequestContext {
            account_id: None,
            api_id: None,
            domain_name: None,
            domain_prefix: None,
            route_key,
            stage: "$default",
            request_id: req.id,
            time: None,
            time_epoch: to_signed_ms(received_at_ms),
            http: ApiGatewayV2HttpDescription {
                method: req.method,
                path: req.path,
                protocol: "HTTP/1.1",
                source_ip,
                user_agent,
            },
        },
        stage_variables,
        body,
        is_base64_encoded,
    };
    assert(item@ =~= request_item(req, received_at_ms));
    (item, req.respond_to)
}

} // verus!
