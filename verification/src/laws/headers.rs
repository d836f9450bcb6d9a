//! Which headers a function is sent, and what else a request becomes.
use vstd::prelude::*;

use crate::batcher::EnqueueError;
use crate::config::ForwardHeadersConfig;
use crate::request::PendingRequest;
use crate::request::ResponseSink;
use crate::server;
use crate::server::HeaderForwardPolicy;
use crate::server::IncomingRequest;
use crate::server::RequestFailure;
use crate::spec;
use crate::spec::OperationConfig;
use crate::str_map;
use crate::str_map::StrMap;
use crate::text;

verus! {

/// A header on the deny list is never forwarded, in whatever letter case, and whether or not there
/// is an allow list.
pub proof fn lemma_denied_headers_are_dropped(
    allow: Option<Seq<Seq<char>>>,
    deny: Seq<Seq<char>>,
    name: Seq<char>,
)
    requires
        deny.contains(text::lower_text(name)),
    ensures
        !server::forwards(allow, deny, name),
{
}

/// With an allow list, no header is forwarded that is not on it.
pub proof fn lemma_only_allowed_headers_are_forwarded(
    allow: Seq<Seq<char>>,
    deny: Seq<Seq<char>>,
    name: Seq<char>,
)
    requires
        !allow.contains(text::lower_text(name)),
    ensures
        !server::forwards(Some(allow), deny, name),
{
}

/// A header that is neither denied nor one of one connection is forwarded where it is allowed, or
/// where there is no allow list.
pub proof fn lemma_other_headers_are_forwarded(
    allow: Option<Seq<Seq<char>>>,
    deny: Seq<Seq<char>>,
    name: Seq<char>,
)
    requires
        !deny.contains(text::lower_text(name)),
        !server::is_hop_by_hop(text::lower_text(name)),
        allow matches Some(a) ==> a.contains(text::lower_text(name)),
    ensures
        server::forwards(allow, deny, name),
{
}

/// The headers of one connection are these eight, in any letter case, and they are never
/// forwarded.
pub proof fn lemma_headers_of_one_connection_are_dropped(
    allow: Option<Seq<Seq<char>>>,
    deny: Seq<Seq<char>>,
    name: Seq<char>,
)
    ensures
        server::is_hop_by_hop(name) <==> seq![
            "connection"@,
            "keep-alive"@,
            "proxy-authenticate"@,
            "proxy-authorization"@,
            "te"@,
            "trailer"@,
            "transfer-encoding"@,
            "upgrade"@,
        ].contains(name),
        server::is_hop_by_hop(text::lower_text(name)) ==> !server::forwards(allow, deny, name),
{
    let all = seq![
        "connection"@,
        "keep-alive"@,
        "proxy-authenticate"@,
        "proxy-authorization"@,
        "te"@,
        "trailer"@,
        "transfer-encoding"@,
        "upgrade"@,
    ];
    assert(all[0] == "connection"@ && all[1] == "keep-alive"@ && all[2] == "proxy-authenticate"@
        && all[3] == "proxy-authorization"@ && all[4] == "te"@ && all[5] == "trailer"@ && all[6]
        == "transfer-encoding"@ && all[7] == "upgrade"@);
}

/// Without an allow list, a header is forwarded exactly where it is neither one of one connection
/// nor on the deny list. With one, it has to be on it too.
pub proof fn lemma_what_is_forwarded(
    allow: Seq<Seq<char>>,
    deny: Seq<Seq<char>>,
    name: Seq<char>,
)
    ensures
        ({
            let n = text::lower_text(name);
            let of_one_connection = seq![
                "connection"@,
                "keep-alive"@,
                "proxy-authenticate"@,
                "proxy-authorization"@,
                "te"@,
                "trailer"@,
                "transfer-encoding"@,
                "upgrade"@,
            ].contains(n);
            &&& server::forwards(None, deny, name) <==> !of_one_connection && !deny.contains(n)
            &&& server::forwards(Some(allow), deny, name) <==> !of_one_connection && !deny.contains(
                n,
            ) && allow.contains(n)
        }),
{
    lemma_headers_of_one_connection_are_dropped(None, deny, text::lower_text(name));
}

/// The names of a policy are those of its configuration in lower case, and one that is not a
/// header name is an error.
pub proof fn lemma_names_are_read(names: Seq<Seq<char>>, i: int)
    requires
        0 <= i < names.len(),
    ensures
        server::lower_names(names) matches Ok(l) ==> l.len() == names.len() && l[i]
            == text::lower_text(names[i]) && l.contains(text::lower_text(names[i]))
            && crate::http_types::valid_header_name(names[i]),
        server::lower_names(names) is Err ==> exists|j: int|
            0 <= j < names.len() && !crate::http_types::valid_header_name(#[trigger] names[j]),
{
    if let Ok(l) = server::lower_names(names) {
        assert(l[i] == text::lower_text(names[i]));
    }
}

/// A policy does what its configuration says, in whatever letter case: a header is forwarded
/// where no entry denies it, where an entry allows it or there is none that allows anything, and
/// where it is not one of one connection.
pub proof fn lemma_policies_follow_their_configuration(
    cfg: ForwardHeadersConfig,
    p: HeaderForwardPolicy,
    name: Seq<char>,
)
    requires
        server::is_policy_of(cfg, p),
    ensures
        server::forwards(server::opt_names(p.allow), text::texts(p.deny@), name) <==> {
            &&& !server::is_hop_by_hop(text::lower_text(name))
            &&& forall|i: int|
                0 <= i < cfg.deny@.len() ==> text::lower_text((#[trigger] cfg.deny@[i])@)
                    != text::lower_text(name)
            &&& cfg.allow@.len() == 0 || exists|i: int|
                0 <= i < cfg.allow@.len() && text::lower_text((#[trigger] cfg.allow@[i])@)
                    == text::lower_text(name)
        },
{
    let n = text::lower_text(name);
    let allow = server::lower_names(text::texts(cfg.allow@))->Ok_0;
    let deny = server::lower_names(text::texts(cfg.deny@))->Ok_0;
    assert forall|i: int| 0 <= i < cfg.deny@.len() implies text::lower_text(
        (#[trigger] cfg.deny@[i])@,
    ) == deny[i] by {
        assert(text::texts(cfg.deny@)[i] == cfg.deny@[i]@);
    }
    assert forall|i: int| 0 <= i < cfg.allow@.len() implies text::lower_text(
        (#[trigger] cfg.allow@[i])@,
    ) == allow[i] by {
        assert(text::texts(cfg.allow@)[i] == cfg.allow@[i]@);
    }
    if deny.contains(n) {
        let i = deny.index_of(n);
        assert(text::lower_text(cfg.deny@[i]@) == n);
    }
    if exists|i: int|
        0 <= i < cfg.deny@.len() && text::lower_text((#[trigger] cfg.deny@[i])@) == n {
        let i = choose|i: int|
            0 <= i < cfg.deny@.len() && text::lower_text((#[trigger] cfg.deny@[i])@) == n;
        assert(deny[i] == n);
    }
    if allow.contains(n) {
        let i = allow.index_of(n);
        assert(text::lower_text(cfg.allow@[i]@) == n);
    }
    if exists|i: int|
        0 <= i < cfg.allow@.len() && text::lower_text((#[trigger] cfg.allow@[i])@) == n {
        let i = choose|i: int|
            0 <= i < cfg.allow@.len() && text::lower_text((#[trigger] cfg.allow@[i])@) == n;
        assert(allow[i] == n);
    }
}

/// The value of a key after putting entries in is what it was, where none of them has the key.
proof fn lemma_forwarded_elsewhere(
    allow: Option<Seq<Seq<char>>>,
    deny: Seq<Seq<char>>,
    headers: Seq<(Seq<char>, Seq<u8>)>,
    acc: Seq<(Seq<char>, Seq<char>)>,
    key: Seq<char>,
)
    requires
        str_map::distinct_keys(acc),
        forall|j: int| 0 <= j < headers.len() ==> text::lower_text((#[trigger] headers[j]).0) != key,
    ensures
        str_map::lookup(server::forwarded_headers(allow, deny, headers, acc), key)
            == str_map::lookup(acc, key),
    decreases headers.len(),
{
    if headers.len() > 0 {
        let (n, value) = headers[0];
        let k = text::lower_text(n);
        let v = vstd::utf8::decode_utf8(value);
        let rest = headers.drop_first();
        str_map::lemma_with(acc, k, v);
        assert(text::lower_text(headers[0].0) != key);
        assert(str_map::lookup(str_map::with(acc, k, v), key) == str_map::lookup(acc, key));
        assert forall|j: int| 0 <= j < rest.len() implies text::lower_text((#[trigger] rest[j]).0)
            != key by {
            assert(rest[j] == headers[j + 1]);
        }
        lemma_forwarded_elsewhere(allow, deny, rest, acc, key);
        lemma_forwarded_elsewhere(allow, deny, rest, str_map::with(acc, k, v), key);
    }
}

/// A forwarded header has the value that the request came with, and the last one where it came
/// more than once.
pub proof fn lemma_forwarded_headers_keep_their_values(
    allow: Option<Seq<Seq<char>>>,
    deny: Seq<Seq<char>>,
    headers: Seq<(Seq<char>, Seq<u8>)>,
    acc: Seq<(Seq<char>, Seq<char>)>,
    i: int,
)
    requires
        str_map::distinct_keys(acc),
        0 <= i < headers.len(),
        server::forwards(allow, deny, headers[i].0),
        vstd::utf8::valid_utf8(headers[i].1),
        forall|j: int|
            i < j < headers.len() ==> text::lower_text((#[trigger] headers[j]).0) != text::lower_text(
                headers[i].0,
            ),
    ensures
        str_map::lookup(
            server::forwarded_headers(allow, deny, headers, acc),
            text::lower_text(headers[i].0),
        ) == Some(vstd::utf8::decode_utf8(headers[i].1)),
    decreases headers.len(),
{
    let (n, value) = headers[0];
    let k = text::lower_text(n);
    let v = vstd::utf8::decode_utf8(value);
    let rest = headers.drop_first();
    str_map::lemma_with(acc, k, v);
    assert forall|j: int| i - 1 < j < rest.len() && j >= 0 implies text::lower_text(
        (#[trigger] rest[j]).0,
    ) != text::lower_text(headers[i].0) by {
        assert(rest[j] == headers[j + 1]);
    }
    if i == 0 {
        lemma_forwarded_elsewhere(allow, deny, rest, str_map::with(acc, k, v), k);
    } else {
        assert(rest[i - 1] == headers[i]);
        lemma_forwarded_headers_keep_their_values(allow, deny, rest, acc, i - 1);
        lemma_forwarded_headers_keep_their_values(
            allow,
            deny,
            rest,
            str_map::with(acc, k, v),
            i - 1,
        );
    }
}

/// A header that a policy denies is not among those that a function is sent, whatever the request
/// came with.
pub proof fn lemma_denied_headers_do_not_arrive(
    allow: Option<Seq<Seq<char>>>,
    deny: Seq<Seq<char>>,
    headers: Seq<(Seq<char>, Seq<u8>)>,
    name: Seq<char>,
)
    requires
        deny.contains(name) || server::is_hop_by_hop(name) || (allow matches Some(a)
            && !a.contains(name)),
        text::lower_text(name) == name,
    ensures
        !str_map::has_key(server::forwarded_headers(allow, deny, headers, Seq::empty()), name),
{
    server::lemma_only_forwarded_headers(allow, deny, headers, Seq::empty(), name);
}

/// Each header of a trace context is set under its name in lower case, the last one where a name
/// occurs more than once, and every other header stays as it is.
pub proof fn lemma_trace_context_is_set(
    headers: Seq<(Seq<char>, Seq<char>)>,
    context: Seq<(Seq<char>, Seq<char>)>,
    key: Seq<char>,
)
    requires
        str_map::distinct_keys(headers),
    ensures
        (forall|j: int| 0 <= j < context.len() ==> text::lower_text((#[trigger] context[j]).0) != key)
            ==> str_map::lookup(server::with_trace_context(headers, context), key)
            == str_map::lookup(headers, key),
        forall|i: int|
            0 <= i < context.len() && text::lower_text((#[trigger] context[i]).0) == key && (forall|
                j: int,
            |
                i < j < context.len() ==> text::lower_text((#[trigger] context[j]).0) != key)
                ==> str_map::lookup(server::with_trace_context(headers, context), key) == Some(
                context[i].1,
            ),
    decreases context.len(),
{
    if context.len() > 0 {
        let k = text::lower_text(context[0].0);
        let next = str_map::with(headers, k, context[0].1);
        let rest = context.drop_first();
        str_map::lemma_with(headers, k, context[0].1);
        lemma_trace_context_is_set(next, rest, key);
        let out = server::with_trace_context(headers, context);
        if forall|j: int|
            0 <= j < context.len() ==> text::lower_text((#[trigger] context[j]).0) != key {
            assert(text::lower_text(context[0].0) != key);
            assert forall|j: int| 0 <= j < rest.len() implies text::lower_text(
                (#[trigger] rest[j]).0,
            ) != key by {
                assert(rest[j] == context[j + 1]);
            }
            assert(str_map::lookup(next, key) == str_map::lookup(headers, key));
        }
        assert forall|i: int|
            0 <= i < context.len() && text::lower_text((#[trigger] context[i]).0) == key && (forall|
                j: int,
            |
                i < j < context.len() ==> text::lower_text((#[trigger] context[j]).0)
                    != key) implies str_map::lookup(out, key) == Some(context[i].1) by {
            assert forall|j: int| i - 1 < j < rest.len() && 0 <= j implies text::lower_text(
                (#[trigger] rest[j]).0,
            ) != key by {
                assert(rest[j] == context[j + 1]);
            }
            if i > 0 {
                assert(rest[i - 1] == context[i]);
            }
        }
    }
}

/// Of pairs with the same name the last one counts, and no other name is there.
pub proof fn lemma_the_last_of_a_name_counts(
    pairs: Seq<(Seq<char>, Seq<char>)>,
    acc: Seq<(Seq<char>, Seq<char>)>,
    key: Seq<char>,
)
    requires
        str_map::distinct_keys(acc),
    ensures
        (forall|j: int| 0 <= j < pairs.len() ==> (#[trigger] pairs[j]).0 != key) ==> str_map::lookup(
            spec::inserted(pairs, acc),
            key,
        ) == str_map::lookup(acc, key),
        forall|i: int|
            0 <= i < pairs.len() && (#[trigger] pairs[i]).0 == key && (forall|j: int|
                i < j < pairs.len() ==> (#[trigger] pairs[j]).0 != key) ==> str_map::lookup(
                spec::inserted(pairs, acc),
                key,
            ) == Some(pairs[i].1),
    decreases pairs.len(),
{
    if pairs.len() > 0 {
        let next = str_map::with(acc, pairs[0].0, pairs[0].1);
        let rest = pairs.drop_first();
        str_map::lemma_with(acc, pairs[0].0, pairs[0].1);
        lemma_the_last_of_a_name_counts(rest, next, key);
        let out = spec::inserted(pairs, acc);
        if forall|j: int| 0 <= j < pairs.len() ==> (#[trigger] pairs[j]).0 != key {
            assert(pairs[0].0 != key);
            assert forall|j: int| 0 <= j < rest.len() implies (#[trigger] rest[j]).0 != key by {
                assert(rest[j] == pairs[j + 1]);
            }
            assert(str_map::lookup(next, key) == str_map::lookup(acc, key));
        }
        assert forall|i: int|
            0 <= i < pairs.len() && (#[trigger] pairs[i]).0 == key && (forall|j: int|
                i < j < pairs.len() ==> (#[trigger] pairs[j]).0 != key) implies str_map::lookup(
            out,
            key,
        ) == Some(pairs[i].1) by {
            assert forall|j: int| i - 1 < j < rest.len() && 0 <= j implies (
            #[trigger] rest[j]).0 != key by {
                assert(rest[j] == pairs[j + 1]);
            }
            if i > 0 {
                assert(rest[i - 1] == pairs[i]);
            }
        }
    }
}

/// The query parameters of a request are the decoded pairs of its query, of which the last one of
/// a name counts. Without a query there are none.
pub proof fn lemma_query_parameters(query: Seq<char>, i: int)
    ensures
        query.len() == 0 ==> server::query_entries(query).len() == 0,
        query.len() > 0 && 0 <= i < server::form_pairs(query).len() && (forall|j: int|
            i < j < server::form_pairs(query).len() ==> (#[trigger] server::form_pairs(query)[j]).0
                != server::form_pairs(query)[i].0) ==> str_map::lookup(
            server::query_entries(query),
            server::form_pairs(query)[i].0,
        ) == Some(server::form_pairs(query)[i].1),
{
    if query.len() > 0 && 0 <= i < server::form_pairs(query).len() {
        lemma_the_last_of_a_name_counts(
            server::form_pairs(query),
            Seq::empty(),
            server::form_pairs(query)[i].0,
        );
    }
}

/// A pending request is what the client asked for: its method, its path, its query and its body,
/// under the template of its operation, with the parameters of its path, and answered through its
/// own sink.
pub proof fn lemma_pending_requests_are_what_came_in<B, I, D>(
    incoming: IncomingRequest,
    policy: HeaderForwardPolicy,
    op: OperationConfig,
    path_params: StrMap<String>,
    sink: ResponseSink<B, I, D>,
    pending: PendingRequest<B, I, D>,
)
    requires
        server::is_pending(incoming, policy, op, path_params, sink, pending),
    ensures
        pending.method@ == incoming.method@,
        pending.path@ == incoming.path@,
        pending.raw_query_string@ == incoming.raw_query_string@,
        pending.body@ == incoming.body@,
        pending.route@ == op.route_template@,
        pending.path_params@ == path_params@,
        pending.respond_to == sink,
        pending.id@ == "r-"@ + incoming.unique@,
        incoming.raw_query_string@.len() == 0 ==> pending.query@.len() == 0,
        forall|i: int|
            0 <= i < incoming.headers@.len() && incoming.trace_context@.len() == 0
                && server::forwards(
                server::opt_names(policy.allow),
                text::texts(policy.deny@),
                (#[trigger] incoming.headers@[i]).0@,
            ) && vstd::utf8::valid_utf8(incoming.headers@[i].1@) && (forall|j: int|
                i < j < incoming.headers@.len() ==> text::lower_text(
                    (#[trigger] incoming.headers@[j]).0@,
                ) != text::lower_text(incoming.headers@[i].0@)) ==> str_map::lookup(
                str_map::text_entries(pending.headers@),
                text::lower_text(incoming.headers@[i].0@),
            ) == Some(vstd::utf8::decode_utf8(incoming.headers@[i].1@)),
{
    let raw = server::raw_headers(incoming.headers@);
    assert(str_map::text_entries(pending.query@).len() == pending.query@.len());
    assert forall|i: int|
        0 <= i < incoming.headers@.len() && incoming.trace_context@.len() == 0
            && server::forwards(
            server::opt_names(policy.allow),
            text::texts(policy.deny@),
            (#[trigger] incoming.headers@[i]).0@,
        ) && vstd::utf8::valid_utf8(incoming.headers@[i].1@) && (forall|j: int|
            i < j < incoming.headers@.len() ==> text::lower_text(
                (#[trigger] incoming.headers@[j]).0@,
            ) != text::lower_text(incoming.headers@[i].0@)) implies str_map::lookup(
        str_map::text_entries(pending.headers@),
        text::lower_text(incoming.headers@[i].0@),
    ) == Some(vstd::utf8::decode_utf8(incoming.headers@[i].1@)) by {
        assert(raw[i] == (incoming.headers@[i].0@, incoming.headers@[i].1@));
        assert forall|j: int| i < j < raw.len() implies text::lower_text((#[trigger] raw[j]).0)
            != text::lower_text(raw[i].0) by {
            assert(raw[j].0 == incoming.headers@[j].0@);
        }
        lemma_forwarded_headers_keep_their_values(
            server::opt_names(policy.allow),
            text::texts(policy.deny@),
            raw,
            Seq::empty(),
            i,
        );
    }
}

/// What a request that failed is answered: the status says whose fault it is, and a method that
/// is not allowed comes with those that are.
pub proof fn lemma_failures_are_told_apart(failure: RequestFailure)
    ensures
        server::failure_response(failure).status == match failure {
            RequestFailure::NotFound => 404u16,
            RequestFailure::MethodNotAllowed { .. } => 405,
            RequestFailure::BodyTooLarge => 413,
            RequestFailure::TooManyRequests => 429,
            RequestFailure::Enqueue(_) => 429,
            RequestFailure::Dropped => 502,
            RequestFailure::Timeout => 504,
        },
        server::failure_response(failure).body == vstd::utf8::encode_utf8(
            match failure {
                RequestFailure::NotFound => "not found"@,
                RequestFailure::MethodNotAllowed { .. } => "method not allowed"@,
                RequestFailure::BodyTooLarge => "body too large"@,
                RequestFailure::TooManyRequests => "too many requests"@,
                RequestFailure::Enqueue(EnqueueError::QueueFull) => "queue full"@,
                RequestFailure::Enqueue(EnqueueError::BatcherClosed) => "batcher closed"@,
                RequestFailure::Dropped => "dropped response"@,
                RequestFailure::Timeout => "timeout"@,
            },
        ),
        !(failure is MethodNotAllowed) ==> server::failure_response(failure).headers == Map::<
            Seq<char>,
            Seq<Seq<u8>>,
        >::empty(),
        failure matches RequestFailure::MethodNotAllowed { allowed } ==> {
            let list = text::join_text(text::texts(allowed@), ", "@);
            crate::http_types::valid_header_value(list) ==> server::failure_response(
                failure,
            ).headers.dom().contains("allow"@) && server::failure_response(failure).headers["allow"@]
                == seq![vstd::utf8::encode_utf8(list)]
        },
{
}

} // verus!
