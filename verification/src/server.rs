//! What the HTTP handler decides about a request.
use vstd::prelude::*;
use vstd::string::*;

use crate::batcher::EnqueueError;
use crate::config::ForwardHeadersConfig;
use crate::http_types;
use crate::request::PendingRequest;
use crate::request::ResponseSink;
use crate::response;
use crate::response::RouterResponse;
use crate::route_table;
use crate::spec;
use crate::spec::OperationConfig;
use crate::spec::RouteMatch;
use crate::str_map;
use crate::str_map::StrMap;
use crate::text;

verus! {

/// The headers of one connection, which are never forwarded.
pub open spec fn is_hop_by_hop(name: Seq<char>) -> bool {
    ||| name == "connection"@
    ||| name == "keep-alive"@
    ||| name == "proxy-authenticate"@
    ||| name == "proxy-authorization"@
    ||| name == "te"@
    ||| name == "trailer"@
    ||| name == "transfer-encoding"@
    ||| name == "upgrade"@
}

/// Whether a header, by its name in lower case, is one of one connection.
pub fn is_hop_by_hop_header(name: &str) -> (r: bool)
    ensures
        r == is_hop_by_hop(name@),
{
    text::same_text(name, "connection") || text::same_text(name, "keep-alive") || text::same_text(
        name,
        "proxy-authenticate",
    ) || text::same_text(name, "proxy-authorization") || text::same_text(name, "te")
        || text::same_text(name, "trailer") || text::same_text(name, "transfer-encoding")
        || text::same_text(name, "upgrade")
}

/// Whether requests for a path are traced.
pub fn trace_filter(path: &str) -> (r: bool)
    ensures
        r == (path@ != "/healthz"@),
{
    !text::same_text(path, "/healthz")
}

/// Which headers are forwarded; all names are in lower case.
#[derive(Debug)]
pub struct HeaderForwardPolicy {
    /// If there is one, only these headers are forwarded.
    pub allow: Option<Vec<String>>,
    /// These headers are never forwarded.
    pub deny: Vec<String>,
}

/// Header names in lower case, or an error where one is not a header name.
pub open spec fn lower_names(names: Seq<Seq<char>>) -> Result<Seq<Seq<char>>, Seq<char>> {
    if forall|i: int| 0 <= i < names.len() ==> http_types::valid_header_name(#[trigger] names[i]) {
        Ok(Seq::new(names.len(), |i: int| text::lower_text(names[i])))
    } else {
        Err("invalid HTTP header name"@)
    }
}

fn read_names(names: &Vec<String>) -> (r: Result<Vec<String>, String>)
    ensures
        match lower_names(text::texts(names@)) {
            Ok(l) => r matches Ok(v) && text::texts(v@) == l,
            Err(e) => r matches Err(m) && m@ == e,
        },
{
    let ghost all = text::texts(names@);
    let mut out: Vec<String> = Vec::new();
    let mut i: usize = 0;
    while i < names.len()
        invariant
            i <= names@.len(),
            all == text::texts(names@),
            out@.len() == i,
            forall|j: int| 0 <= j < i ==> http_types::valid_header_name(#[trigger] all[j]),
            forall|j: int| 0 <= j < i ==> (#[trigger] out@[j])@ == text::lower_text(all[j]),
        decreases names@.len() - i,
    {
        assert(all[i as int] == names@[i as int]@);
        match http_types::header_name(names[i].as_str()) {
            Ok(n) => {
                out.push(n);
            },
            Err(e) => {
                return Err(e);
            },
        }
        i = i + 1;
    }
    assert(text::texts(out@) =~= Seq::new(all.len(), |j: int| text::lower_text(all[j])));
    Ok(out)
}

/// Whether a policy forwards the header with a name.
pub open spec fn forwards(
    allow: Option<Seq<Seq<char>>>,
    deny: Seq<Seq<char>>,
    name: Seq<char>,
) -> bool {
    let n = text::lower_text(name);
    &&& !is_hop_by_hop(n)
    &&& !deny.contains(n)
    &&& allow matches Some(a) ==> a.contains(n)
}

/// The names of an optional list.
pub open spec fn opt_names(names: Option<Vec<String>>) -> Option<Seq<Seq<char>>> {
    match names {
        Some(n) => Some(text::texts(n@)),
        None => None,
    }
}

fn contains_name(names: &Vec<String>, name: &str) -> (r: bool)
    ensures
        r == text::texts(names@).contains(name@),
{
    let mut i: usize = 0;
    while i < names.len()
        invariant
            i <= names@.len(),
            forall|j: int| 0 <= j < i ==> text::texts(names@)[j] != name@,
        decreases names@.len() - i,
    {
        if text::same_text(names[i].as_str(), name) {
            assert(text::texts(names@)[i as int] == name@);
            return true;
        }
        i = i + 1;
    }
    false
}

/// Whether a policy is that of a configuration: the names in lower case, and no allow list where
/// it is empty.
pub open spec fn is_policy_of(cfg: ForwardHeadersConfig, p: HeaderForwardPolicy) -> bool {
    match (lower_names(text::texts(cfg.allow@)), lower_names(text::texts(cfg.deny@))) {
        (Ok(allow), Ok(deny)) => {
            &&& opt_names(p.allow) == if allow.len() == 0 {
                None
            } else {
                Some(allow)
            }
            &&& text::texts(p.deny@) == deny
        },
        _ => false,
    }
}

impl HeaderForwardPolicy {
    /// The policy of a configuration.
    pub fn try_from_cfg(cfg: &ForwardHeadersConfig) -> (r: Result<Self, String>)
        ensures
            match (lower_names(text::texts(cfg.allow@)), lower_names(text::texts(cfg.deny@))) {
                (Ok(allow), Ok(deny)) => {
                    &&& r matches Ok(p)
                    &&& opt_names(p.allow) == if allow.len() == 0 {
                        None
                    } else {
                        Some(allow)
                    }
                    &&& text::texts(p.deny@) == deny
                },
                _ => r matches Err(e) && e@ == "invalid HTTP header name"@,
            },
            r matches Ok(p) ==> is_policy_of(*cfg, p),
    {
        let allow = match read_names(&cfg.allow) {
            Ok(names) => names,
            Err(e) => {
                return Err(e);
            },
        };
        let deny = match read_names(&cfg.deny) {
            Ok(names) => names,
            Err(e) => {
                return Err(e);
            },
        };
        assert(text::texts(allow@).len() == allow@.len());
        let allow = if allow.len() == 0 {
            None
        } else {
            Some(allow)
        };
        Ok(HeaderForwardPolicy { allow, deny })
    }

    /// Whether the header with a name is forwarded.
    pub fn should_forward(&self, name: &str) -> (r: bool)
        ensures
            r == forwards(opt_names(self.allow), text::texts(self.deny@), name@),
            text::texts(self.deny@).contains(text::lower_text(name@)) ==> !r,
            self.allow is None ==> (r <==> !is_hop_by_hop(text::lower_text(name@))
                && !text::texts(self.deny@).contains(text::lower_text(name@))),
    {
        let n = text::to_ascii_lower(name);
        if is_hop_by_hop_header(n.as_str()) {
            return false;
        }
        if contains_name(&self.deny, n.as_str()) {
            return false;
        }
        match &self.allow {
            Some(allow) => contains_name(allow, n.as_str()),
            None => true,
        }
    }

    /// The headers of a request that are forwarded, by their names in lower case: those that
    /// the policy forwards and whose values are UTF-8.
    pub fn forward_headers(&self, headers: Vec<(String, Vec<u8>)>) -> (r: StrMap<String>)
        ensures
            str_map::text_entries(r@) == forwarded_headers(
                opt_names(self.allow),
                text::texts(self.deny@),
                raw_headers(headers@),
                Seq::empty(),
            ),
            r.wf(),
    {
        let ghost all = raw_headers(headers@);
        let ghost allow = opt_names(self.allow);
        let ghost deny = text::texts(self.deny@);
        let mut out: StrMap<String> = StrMap::new();
        proof {
            assert(str_map::text_entries(out@) =~= Seq::<(Seq<char>, Seq<char>)>::empty());
            assert(all.skip(0) =~= all);
        }
        for h in it: headers
            invariant
                all == raw_headers(it.seq()),
                allow == opt_names(self.allow),
                deny == text::texts(self.deny@),
                out.wf(),
                forwarded_headers(allow, deny, all, Seq::empty()) == forwarded_headers(
                    allow,
                    deny,
                    all.skip(it.index() as int),
                    str_map::text_entries(out@),
                ),
        {
            let ghost n = it.index() as int;
            proof {
                assert(all.skip(n)[0] == (h.0@, h.1@));
                assert(all.skip(n).drop_first() =~= all.skip(n + 1));
            }
            if self.should_forward(h.0.as_str()) {
                if let Some(value) = text::read_utf8(h.1.as_slice()) {
                    let name = text::to_ascii_lower(h.0.as_str());
                    proof {
                        str_map::lemma_text_entries_with(out@, name@, value);
                    }
                    out.insert(name, value);
                }
            }
        }
        out
    }
}

/// Headers with names and values taken by their views.
pub open spec fn raw_headers(headers: Seq<(String, Vec<u8>)>) -> Seq<(Seq<char>, Seq<u8>)> {
    Seq::new(headers.len(), |i: int| (headers[i].0@, headers[i].1@))
}

/// The headers that are forwarded, put one after another among those so far.
pub open spec fn forwarded_headers(
    allow: Option<Seq<Seq<char>>>,
    deny: Seq<Seq<char>>,
    headers: Seq<(Seq<char>, Seq<u8>)>,
    acc: Seq<(Seq<char>, Seq<char>)>,
) -> Seq<(Seq<char>, Seq<char>)>
    decreases headers.len(),
{
    if headers.len() == 0 {
        acc
    } else {
        let (name, value) = headers[0];
        let next = if forwards(allow, deny, name) && vstd::utf8::valid_utf8(value) {
            str_map::with(acc, text::lower_text(name), vstd::utf8::decode_utf8(value))
        } else {
            acc
        };
        forwarded_headers(allow, deny, headers.drop_first(), next)
    }
}

/// No header that a policy does not forward is among the forwarded ones.
pub proof fn lemma_only_forwarded_headers(
    allow: Option<Seq<Seq<char>>>,
    deny: Seq<Seq<char>>,
    headers: Seq<(Seq<char>, Seq<u8>)>,
    acc: Seq<(Seq<char>, Seq<char>)>,
    name: Seq<char>,
)
    requires
        str_map::distinct_keys(acc),
        !forwards(allow, deny, name),
        text::lower_text(name) == name,
        !str_map::has_key(acc, name),
    ensures
        !str_map::has_key(forwarded_headers(allow, deny, headers, acc), name),
    decreases headers.len(),
{
    if headers.len() > 0 {
        let (n, value) = headers[0];
        let next = if forwards(allow, deny, n) && vstd::utf8::valid_utf8(value) {
            str_map::with(acc, text::lower_text(n), vstd::utf8::decode_utf8(value))
        } else {
            acc
        };
        if forwards(allow, deny, n) && vstd::utf8::valid_utf8(value) {
            str_map::lemma_with(acc, text::lower_text(n), vstd::utf8::decode_utf8(value));
            if text::lower_text(n) == name {
                assert(forwards(allow, deny, n) == forwards(allow, deny, name));
            }
            assert(str_map::lookup(next, name) == str_map::lookup(acc, name));
        }
        lemma_only_forwarded_headers(allow, deny, headers.drop_first(), next, name);
    }
}

/// Entries stay where headers are put among them.
proof fn lemma_forwarding_keeps_entries(
    allow: Option<Seq<Seq<char>>>,
    deny: Seq<Seq<char>>,
    headers: Seq<(Seq<char>, Seq<u8>)>,
    acc: Seq<(Seq<char>, Seq<char>)>,
    name: Seq<char>,
)
    requires
        str_map::distinct_keys(acc),
        str_map::has_key(acc, name),
    ensures
        str_map::has_key(forwarded_headers(allow, deny, headers, acc), name),
    decreases headers.len(),
{
    if headers.len() > 0 {
        let (n, value) = headers[0];
        let k = text::lower_text(n);
        if forwards(allow, deny, n) && vstd::utf8::valid_utf8(value) {
            let next = str_map::with(acc, k, vstd::utf8::decode_utf8(value));
            str_map::lemma_with(acc, k, vstd::utf8::decode_utf8(value));
            assert(k != name ==> str_map::lookup(next, name) == str_map::lookup(acc, name));
            assert(k == name ==> str_map::lookup(next, k) is Some);
            lemma_forwarding_keeps_entries(allow, deny, headers.drop_first(), next, name);
        } else {
            lemma_forwarding_keeps_entries(allow, deny, headers.drop_first(), acc, name);
        }
    }
}

/// Every header that a policy forwards and whose value is UTF-8 is among the forwarded ones.
pub proof fn lemma_headers_are_forwarded(
    allow: Option<Seq<Seq<char>>>,
    deny: Seq<Seq<char>>,
    headers: Seq<(Seq<char>, Seq<u8>)>,
    acc: Seq<(Seq<char>, Seq<char>)>,
    i: int,
)
    requires
        str_map::distinct_keys(acc),
        0 <= i < headers.len(),
        forwards(allow, deny, headers[i].0),
        vstd::utf8::valid_utf8(headers[i].1),
    ensures
        str_map::has_key(
            forwarded_headers(allow, deny, headers, acc),
            text::lower_text(headers[i].0),
        ),
    decreases headers.len(),
{
    let (n, value) = headers[0];
    let next = if forwards(allow, deny, n) && vstd::utf8::valid_utf8(value) {
        str_map::with(acc, text::lower_text(n), vstd::utf8::decode_utf8(value))
    } else {
        acc
    };
    str_map::lemma_with(acc, text::lower_text(n), vstd::utf8::decode_utf8(value));
    if i == 0 {
        assert(str_map::lookup(next, text::lower_text(n)) is Some);
        lemma_forwarding_keeps_entries(
            allow,
            deny,
            headers.drop_first(),
            next,
            text::lower_text(n),
        );
    } else {
        assert(headers.drop_first()[i - 1] == headers[i]);
        lemma_headers_are_forwarded(allow, deny, headers.drop_first(), next, i - 1);
    }
}

/// Without names to allow or to deny, every header is forwarded but those of one connection.
pub proof fn lemma_default_policy(name: Seq<char>)
    ensures
        forwards(None, Seq::empty(), name) <==> !is_hop_by_hop(text::lower_text(name)),
{
}

/// The headers of a request with those of its trace context: each is set under its name in
/// lower case.
pub open spec fn with_trace_context(
    headers: Seq<(Seq<char>, Seq<char>)>,
    context: Seq<(Seq<char>, Seq<char>)>,
) -> Seq<(Seq<char>, Seq<char>)>
    decreases context.len(),
{
    if context.len() == 0 {
        headers
    } else {
        with_trace_context(
            str_map::with(headers, text::lower_text(context[0].0), context[0].1),
            context.drop_first(),
        )
    }
}

/// Sets the headers of a trace context.
pub fn inject_trace_context(headers: &mut StrMap<String>, context: Vec<(String, String)>)
    ensures
        str_map::text_entries(final(headers)@) == with_trace_context(
            str_map::text_entries(old(headers)@),
            route_table::pair_texts(context@),
        ),
        old(headers).wf() ==> final(headers).wf(),
{
    let ghost start = str_map::text_entries(headers@);
    let ghost sound = headers.wf();
    let ghost all = route_table::pair_texts(context@);
    assert(all.skip(0) =~= all);
    for p in it: context
        invariant
            all == route_table::pair_texts(it.seq()),
            sound ==> headers.wf(),
            with_trace_context(start, all) == with_trace_context(
                str_map::text_entries(headers@),
                all.skip(it.index() as int),
            ),
    {
        let ghost n = it.index() as int;
        let name = text::to_ascii_lower(p.0.as_str());
        proof {
            assert(all.skip(n)[0] == (p.0@, p.1@));
            assert(all.skip(n).drop_first() =~= all.skip(n + 1));
            str_map::lemma_text_entries_with(headers@, name@, p.1);
        }
        headers.insert(name, p.1);
    }
}

/// The names and values of a query, percent-decoded, as the `url` crate reads it.
pub uninterp spec fn form_pairs(query: Seq<char>) -> Seq<(Seq<char>, Seq<char>)>;

/// `url::form_urlencoded::parse`.
#[verifier::external_body]
fn parse_form(query: &str) -> (r: Vec<(String, String)>)
    ensures
        route_table::pair_texts(r@) == form_pairs(query@),
{
    url::form_urlencoded::parse(query.as_bytes()).into_owned().collect()
}

/// The query parameters of a query: of those with the same name, the last one counts.
pub open spec fn query_entries(query: Seq<char>) -> Seq<(Seq<char>, Seq<char>)> {
    if query.len() == 0 {
        Seq::empty()
    } else {
        spec::inserted(form_pairs(query), Seq::empty())
    }
}

/// The query parameters of a query.
pub fn query_map(raw_query_string: &str) -> (r: StrMap<String>)
    ensures
        str_map::text_entries(r@) == query_entries(raw_query_string@),
        r.wf(),
{
    if text::is_empty(raw_query_string) {
        let r: StrMap<String> = StrMap::new();
        assert(str_map::text_entries(r@) =~= Seq::<(Seq<char>, Seq<char>)>::empty());
        return r;
    }
    spec::insert_all(parse_form(raw_query_string))
}

/// The identifier of a request with a unique text.
pub fn request_id(unique: &str) -> (r: String)
    ensures
        r@ == "r-"@ + unique@,
{
    text::concat("r-", unique)
}

/// Why a request gets no response from an invocation.
#[derive(Debug)]
pub enum RequestFailure {
    /// No route matches.
    NotFound,
    /// The route has no operation with the method.
    MethodNotAllowed { allowed: Vec<String> },
    /// Too many requests are in flight.
    TooManyRequests,
    /// The body is larger than the limit.
    BodyTooLarge,
    /// The request could not be enqueued.
    Enqueue(EnqueueError),
    /// The response was dropped.
    Dropped,
    /// The response did not come in time.
    Timeout,
}

/// The status and the text of the response to a request that failed.
pub open spec fn failure_text(failure: RequestFailure) -> (u16, Seq<char>) {
    match failure {
        RequestFailure::NotFound => (404, "not found"@),
        RequestFailure::MethodNotAllowed { .. } => (405, "method not allowed"@),
        RequestFailure::TooManyRequests => (429, "too many requests"@),
        RequestFailure::BodyTooLarge => (413, "body too large"@),
        RequestFailure::Enqueue(EnqueueError::QueueFull) => (429, "queue full"@),
        RequestFailure::Enqueue(EnqueueError::BatcherClosed) => (429, "batcher closed"@),
        RequestFailure::Dropped => (502, "dropped response"@),
        RequestFailure::Timeout => (504, "timeout"@),
    }
}

/// The headers of the response to a request that failed: where its method is not allowed,
/// those that are, as far as they can stand in a header.
pub open spec fn failure_headers(failure: RequestFailure) -> Map<Seq<char>, Seq<Seq<u8>>> {
    match failure {
        RequestFailure::MethodNotAllowed { allowed } => {
            let list = text::join_text(text::texts(allowed@), ", "@);
            if http_types::valid_header_value(list) {
                http_types::no_headers().insert("allow"@, seq![vstd::utf8::encode_utf8(list)])
            } else {
                http_types::no_headers()
            }
        },
        _ => http_types::no_headers(),
    }
}

/// The response to a request that failed.
pub open spec fn failure_response(failure: RequestFailure) -> response::ResponseView {
    let (status, msg) = failure_text(failure);
    response::ResponseView {
        status,
        headers: failure_headers(failure),
        body: vstd::utf8::encode_utf8(msg),
    }
}

impl RequestFailure {
    /// The response to a request that failed.
    pub fn response(&self) -> (r: RouterResponse)
        ensures
            r@ == failure_response(*self),
    {
        match self {
            RequestFailure::NotFound => RouterResponse::text(404, "not found"),
            RequestFailure::MethodNotAllowed { allowed } => {
                let mut resp = RouterResponse::text(405, "method not allowed");
                let list = text::join(allowed, ", ");
                proof {
                    reveal_strlit("allow");
                    assert(text::lower_text("allow"@) =~= "allow"@);
                }
                if http_types::check_header_value(list.as_str()).is_ok() {
                    http_types::header_map_insert(&mut resp.headers, "allow", list.as_str());
                }
                assert(resp@ =~= failure_response(*self));
                resp
            },
            RequestFailure::TooManyRequests => RouterResponse::text(429, "too many requests"),
            RequestFailure::BodyTooLarge => RouterResponse::text(413, "body too large"),
            RequestFailure::Enqueue(EnqueueError::QueueFull) => RouterResponse::text(
                429,
                "queue full",
            ),
            RequestFailure::Enqueue(EnqueueError::BatcherClosed) => RouterResponse::text(
                429,
                "batcher closed",
            ),
            RequestFailure::Dropped => RouterResponse::text(502, "dropped response"),
            RequestFailure::Timeout => RouterResponse::text(504, "timeout"),
        }
    }
}

/// The operation for a request and the values of its path parameters, or why there is none.
pub fn route<'a>(m: RouteMatch<'a>) -> (r: Result<
    (&'a OperationConfig, StrMap<String>),
    RequestFailure,
>)
    ensures
        match m {
            RouteMatch::NotFound => r matches Err(RequestFailure::NotFound),
            RouteMatch::MethodNotAllowed { allowed } => r
                == Err::<(&'a OperationConfig, StrMap<String>), RequestFailure>(
                RequestFailure::MethodNotAllowed { allowed },
            ),
            RouteMatch::Matched { op, path_params } => r matches Ok(x) && x.0 == op && x.1
                == path_params,
        },
{
    match m {
        RouteMatch::NotFound => Err(RequestFailure::NotFound),
        RouteMatch::MethodNotAllowed { allowed } => Err(
            RequestFailure::MethodNotAllowed { allowed },
        ),
        RouteMatch::Matched { op, path_params } => Ok((op, path_params)),
    }
}

/// What came of waiting for a response.
#[derive(Debug)]
pub enum AwaitOutcome<T> {
    Answered(T),
    /// Nobody is left who could answer.
    Dropped,
    TimedOut,
}

/// The response that was waited for, or why there is none.
pub fn awaited<T>(outcome: AwaitOutcome<T>) -> (r: Result<T, RequestFailure>)
    ensures
        match outcome {
            AwaitOutcome::Answered(x) => r == Ok::<T, RequestFailure>(x),
            AwaitOutcome::Dropped => r matches Err(RequestFailure::Dropped),
            AwaitOutcome::TimedOut => r matches Err(RequestFailure::Timeout),
        },
{
    match outcome {
        AwaitOutcome::Answered(x) => Ok(x),
        AwaitOutcome::Dropped => Err(RequestFailure::Dropped),
        AwaitOutcome::TimedOut => Err(RequestFailure::Timeout),
    }
}

/// What a request came with.
#[derive(Debug)]
pub struct IncomingRequest {
    /// A text that no other request has.
    pub unique: String,
    pub method: String,
    pub path: String,
    /// Raw query string (without the leading `?`).
    pub raw_query_string: String,
    /// The headers in order, with their values as bytes.
    pub headers: Vec<(String, Vec<u8>)>,
    /// The headers of the trace context.
    pub trace_context: Vec<(String, String)>,
    pub body: Vec<u8>,
}

/// Whether a pending request is the one that an incoming request becomes.
pub open spec fn is_pending<B, I, D>(
    incoming: IncomingRequest,
    policy: HeaderForwardPolicy,
    op: OperationConfig,
    path_params: StrMap<String>,
    sink: ResponseSink<B, I, D>,
    pending: PendingRequest<B, I, D>,
) -> bool {
    &&& pending.id@ == "r-"@ + incoming.unique@
    &&& pending.method == incoming.method
    &&& pending.path == incoming.path
    &&& pending.route@ == op.route_template@
    &&& pending.path_params == path_params
    &&& str_map::text_entries(pending.headers@) == with_trace_context(
        forwarded_headers(
            opt_names(policy.allow),
            text::texts(policy.deny@),
            raw_headers(incoming.headers@),
            Seq::empty(),
        ),
        route_table::pair_texts(incoming.trace_context@),
    )
    &&& str_map::text_entries(pending.query@) == query_entries(incoming.raw_query_string@)
    &&& pending.raw_query_string == incoming.raw_query_string
    &&& pending.body == incoming.body
    &&& pending.respond_to == sink
}

/// The pending request that an incoming request becomes.
pub fn build_pending<B, I, D>(
    incoming: IncomingRequest,
    policy: &HeaderForwardPolicy,
    op: &OperationConfig,
    path_params: StrMap<String>,
    sink: ResponseSink<B, I, D>,
) -> (r: PendingRequest<B, I, D>)
    ensures
        is_pending(incoming, *policy, *op, path_params, sink, r),
        r.headers.wf(),
        r.query.wf(),
{
    let mut headers = policy.forward_headers(incoming.headers);
    inject_trace_context(&mut headers, incoming.trace_context);
    let query = query_map(incoming.raw_query_string.as_str());
    PendingRequest {
        id: request_id(incoming.unique.as_str()),
        method: incoming.method,
        path: incoming.path,
        route: op.route_template.clone(),
        path_params,
        headers,
        query,
        raw_query_string: incoming.raw_query_string,
        body: incoming.body,
        respond_to: sink,
    }
}

} // verus!
