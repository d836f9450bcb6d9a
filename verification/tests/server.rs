//! What the HTTP handler and the invoker decide.
use lpr_router::batcher::EnqueueError;
use lpr_router::body::{decode_body_bytes, encode_body};
use lpr_router::config::ForwardHeadersConfig;
use lpr_router::event::{batch_item, build_payload_bytes};
use lpr_router::lambda::{
    buffered_payload, stream_started, EventPump, PumpStep, StreamEvent,
};
use lpr_router::request::{BatchKey, PendingRequest, ResponseSink};
use lpr_router::response::RouterResponse;
use lpr_router::server::{
    awaited, build_pending, inject_trace_context, is_hop_by_hop_header, query_map, request_id,
    route, trace_filter, AwaitOutcome, HeaderForwardPolicy, IncomingRequest, RequestFailure,
};
use lpr_router::spec::{
    CompiledSpec, InvokeMode, LprOperationConfig, OpenApiLikeSpec, Operation, PathItem,
};
use lpr_router::str_map::StrMap;

fn op() -> Option<Operation> {
    Some(Operation {
        operation_id: None,
        target_lambda: "arn:aws:lambda:us-east-1:123456789012:function:fn".to_string(),
        lpr: LprOperationConfig {
            max_wait_ms: 0,
            max_batch_size: 1,
            timeout_ms: Some(1000),
            invoke_mode: InvokeMode::Buffered,
            key: vec![],
            dynamic_wait: None,
        },
    })
}

fn compiled(item: PathItem) -> CompiledSpec {
    let doc = OpenApiLikeSpec { paths: vec![("/hello".to_string(), item)] };
    CompiledSpec::compile(doc, 1000).unwrap()
}

fn policy(allow: &[&str], deny: &[&str]) -> HeaderForwardPolicy {
    let names = |l: &[&str]| l.iter().map(|s| s.to_string()).collect();
    HeaderForwardPolicy::try_from_cfg(&ForwardHeadersConfig {
        allow: names(allow),
        deny: names(deny),
    })
    .unwrap()
}

fn header(name: &str, value: &[u8]) -> (String, Vec<u8>) {
    (name.to_string(), value.to_vec())
}

fn incoming(method: &str, query: &str, headers: Vec<(String, Vec<u8>)>) -> IncomingRequest {
    IncomingRequest {
        unique: "1".to_string(),
        method: method.to_string(),
        path: "/hello".to_string(),
        raw_query_string: query.to_string(),
        headers,
        trace_context: vec![],
        body: b"hi".to_vec(),
    }
}

fn event_of(req: IncomingRequest, policy: &HeaderForwardPolicy) -> serde_json::Value {
    let spec = compiled(PathItem { post: op(), get: op(), ..PathItem::default() });
    let (op, params) = route(spec.match_request(&req.method, &req.path)).unwrap();
    let pending: PendingRequest<u8, u8, u8> =
        build_pending(req, policy, op, params, ResponseSink::Buffered(1));
    let key = BatchKey::from_operation_and_request(op, &pending);
    let (item, _) = batch_item(pending, 5);
    serde_json::from_slice(&build_payload_bytes(&key, 5, &vec![item])).unwrap()
}

fn text(resp: &RouterResponse) -> (u16, &str) {
    (resp.status, std::str::from_utf8(&resp.body).unwrap())
}

#[test]
fn not_found_when_no_route_matches() {
    let spec = compiled(PathItem { get: op(), ..PathItem::default() });
    let failure = route(spec.match_request("GET", "/nope")).unwrap_err();
    assert_eq!(text(&failure.response()), (404, "not found"));
}

#[test]
fn method_not_allowed_sets_allow_header() {
    let spec = compiled(PathItem { get: op(), ..PathItem::default() });
    let failure = route(spec.match_request("POST", "/hello")).unwrap_err();
    let resp = failure.response();
    assert_eq!(text(&resp), (405, "method not allowed"));
    assert_eq!(resp.headers.get("allow").unwrap(), "GET");
    let both = RequestFailure::MethodNotAllowed {
        allowed: vec!["GET".to_string(), "POST".to_string()],
    };
    assert_eq!(both.response().headers.get("allow").unwrap(), "GET, POST");
    let bad = RequestFailure::MethodNotAllowed { allowed: vec!["\n".to_string()] };
    assert_eq!(bad.response().headers.len(), 0);
}

#[test]
fn failures_have_responses() {
    let resp = |f: RequestFailure| {
        let r = f.response();
        assert_eq!(r.headers.len(), 0);
        (r.status, String::from_utf8(r.body).unwrap())
    };
    assert_eq!(resp(RequestFailure::TooManyRequests), (429, "too many requests".to_string()));
    assert_eq!(resp(RequestFailure::BodyTooLarge), (413, "body too large".to_string()));
    assert_eq!(
        resp(RequestFailure::Enqueue(EnqueueError::QueueFull)),
        (429, "queue full".to_string())
    );
    assert_eq!(
        resp(RequestFailure::Enqueue(EnqueueError::BatcherClosed)),
        (429, "batcher closed".to_string())
    );
    assert_eq!(resp(RequestFailure::Dropped), (502, "dropped response".to_string()));
    assert_eq!(resp(RequestFailure::Timeout), (504, "timeout".to_string()));
}

#[test]
fn waiting_ends_with_a_response_or_a_failure() {
    assert_eq!(awaited(AwaitOutcome::Answered(7)).unwrap(), 7);
    assert!(matches!(awaited::<u8>(AwaitOutcome::Dropped), Err(RequestFailure::Dropped)));
    assert!(matches!(awaited::<u8>(AwaitOutcome::TimedOut), Err(RequestFailure::Timeout)));
}

#[test]
fn request_fields_are_forwarded_in_batch_event() {
    let req = incoming(
        "POST",
        "x=1&y=2",
        vec![header("x-foo", b"bar"), header("connection", b"close")],
    );
    let v = event_of(req, &policy(&[], &[]));

    assert_eq!(v["v"], 1);
    assert_eq!(v["meta"]["route"], "/hello");
    assert!(v["meta"]["receivedAtMs"].as_u64().is_some());

    let batch = v["batch"].as_array().unwrap();
    assert_eq!(batch.len(), 1);
    let item = &batch[0];
    assert_eq!(item["version"], "2.0");
    assert_eq!(item["routeKey"], "POST /hello");
    assert_eq!(item["rawPath"], "/hello");
    assert_eq!(item["rawQueryString"], "x=1&y=2");
    assert_eq!(item["queryStringParameters"]["x"], "1");
    assert_eq!(item["queryStringParameters"]["y"], "2");
    assert_eq!(item["headers"]["x-foo"], "bar");
    assert!(item["headers"]["connection"].is_null());
    assert_eq!(item["isBase64Encoded"], false);
    assert_eq!(item["body"], "hi");

    assert_eq!(item["requestContext"]["http"]["method"], "POST");
    assert_eq!(item["requestContext"]["http"]["path"], "/hello");
    assert_eq!(item["requestContext"]["routeKey"], "POST /hello");
    assert_eq!(item["requestContext"]["requestId"], "r-1");
}

#[test]
fn header_allowlist_is_applied() {
    let req = incoming("GET", "", vec![header("x-allow", b"1"), header("x-other", b"2")]);
    let v = event_of(req, &policy(&["x-allow"], &[]));
    let item = &v["batch"][0];
    assert_eq!(item["headers"]["x-allow"], "1");
    assert!(item["headers"]["x-other"].is_null());
    assert!(item["queryStringParameters"].is_null());
}

#[test]
fn header_policies_ignore_case() {
    let p = policy(&["X-Allow", "x-both", "TE"], &["X-BOTH"]);
    assert!(p.should_forward("x-allow"));
    assert!(p.should_forward("X-ALLOW"));
    assert!(!p.should_forward("x-both"));
    assert!(!p.should_forward("te"));
    assert!(!p.should_forward("x-other"));
    let all = policy(&[], &[]);
    assert!(all.should_forward("x-other"));
    for name in [
        "connection",
        "keep-alive",
        "proxy-authenticate",
        "proxy-authorization",
        "te",
        "trailer",
        "transfer-encoding",
        "Upgrade",
    ] {
        assert!(!all.should_forward(name));
    }
    assert!(is_hop_by_hop_header("te"));
    assert!(!is_hop_by_hop_header("host"));
}

#[test]
fn header_policies_need_header_names() {
    for (allow, deny) in [("a b", "x"), ("x", "a b"), ("", "x")] {
        let cfg = ForwardHeadersConfig {
            allow: vec![allow.to_string()],
            deny: vec![deny.to_string()],
        };
        assert_eq!(
            HeaderForwardPolicy::try_from_cfg(&cfg).unwrap_err(),
            "invalid HTTP header name"
        );
    }
}

#[test]
fn headers_that_are_utf8_are_forwarded() {
    let h = policy(&[], &[]).forward_headers(vec![
        header("A", "é".as_bytes()),
        header("b", b"\xff"),
        header("c", b"1"),
        header("c", b"2"),
    ]);
    assert_eq!(h.len(), 2);
    assert_eq!(h.get("a").map(|s| s.as_str()), Some("é"));
    assert_eq!(h.get("c").map(|s| s.as_str()), Some("2"));
}

#[test]
fn trace_context_is_set_in_lower_case() {
    let mut h = StrMap::new();
    h.insert("traceparent".to_string(), "old".to_string());
    inject_trace_context(
        &mut h,
        vec![
            ("Traceparent".to_string(), "new".to_string()),
            ("X-Amzn-Trace-Id".to_string(), "id".to_string()),
        ],
    );
    assert_eq!(h.len(), 2);
    assert_eq!(h.get("traceparent").map(|s| s.as_str()), Some("new"));
    assert_eq!(h.get("x-amzn-trace-id").map(|s| s.as_str()), Some("id"));
}

#[test]
fn queries_are_decoded() {
    let q = query_map("a=1&b=%20x+y&a=2&c&&d=%C3%A9");
    assert_eq!(q.len(), 4);
    assert_eq!(q.get("a").map(|s| s.as_str()), Some("2"));
    assert_eq!(q.get("b").map(|s| s.as_str()), Some(" x y"));
    assert_eq!(q.get("c").map(|s| s.as_str()), Some(""));
    assert_eq!(q.get("d").map(|s| s.as_str()), Some("é"));
    assert!(query_map("").is_empty());
}

#[test]
fn health_checks_are_not_traced() {
    assert!(!trace_filter("/healthz"));
    assert!(trace_filter("/readyz"));
    assert_eq!(request_id("x"), "r-x");
}

#[test]
fn bodies_are_read_back() {
    for body in [&b""[..], b"hi", b"a\0b", b"\xff\xfe", "é漢".as_bytes()] {
        let (text, base64) = encode_body(body);
        match text {
            None => assert!(body.is_empty()),
            Some(t) => assert_eq!(decode_body_bytes(&t, base64).unwrap(), body),
        }
    }
    assert_eq!(encode_body(b"a\0b"), (Some("YQBi".to_string()), true));
    assert_eq!(encode_body(b"\xff"), (Some("/w==".to_string()), true));
    assert_eq!(encode_body(b"hi"), (Some("hi".to_string()), false));
    assert!(decode_body_bytes("!!!", true).is_err());
}

#[test]
fn buffered_invocations_have_a_payload() {
    assert_eq!(buffered_payload(None, Some(b"x".to_vec()), "fn"), Ok(b"x".to_vec()));
    assert_eq!(buffered_payload(None, None, "fn"), Ok(vec![]));
    assert_eq!(
        buffered_payload(Some("Unhandled".to_string()), None, "fn"),
        Err("lambda function error (Unhandled) for fn".to_string())
    );
}

#[test]
fn streamed_invocations_start_with_success() {
    assert_eq!(stream_started(200, "fn"), Ok(()));
    assert_eq!(
        stream_started(500, "fn"),
        Err("InvokeWithResponseStream failed for fn (status 500)".to_string())
    );
    assert_eq!(
        stream_started(-1, "fn"),
        Err("InvokeWithResponseStream failed for fn (status -1)".to_string())
    );
}

fn finish(step: PumpStep) -> (Option<String>, bool) {
    match step {
        PumpStep::Finish { error, drain } => (error, drain),
        _ => panic!("expected the end"),
    }
}

#[test]
fn events_are_handed_on() {
    let mut pump = EventPump::new(true);
    assert!(matches!(pump.event(StreamEvent::Other), PumpStep::Receive));
    assert!(matches!(pump.event(StreamEvent::Chunk(None)), PumpStep::Receive));
    let chunk = || StreamEvent::Chunk(Some(b"x".to_vec()));
    assert!(matches!(pump.event(chunk()), PumpStep::Forward(b) if b == b"x"));
    assert!(matches!(pump.forwarded(true), PumpStep::Receive));
    let failed = || StreamEvent::Failed("boom".to_string());
    let complete = |code: Option<&str>, details: Option<&str>| StreamEvent::Complete {
        error_code: code.map(|s| s.to_string()),
        error_details: details.map(|s| s.to_string()),
    };
    assert_eq!(
        finish(pump.event(failed())),
        (Some("event stream recv: boom".to_string()), false)
    );
    assert_eq!(
        finish(pump.event(complete(Some("Oops"), Some("why")))),
        (Some("lambda stream error (Oops): why".to_string()), true)
    );
    assert_eq!(
        finish(pump.event(complete(Some("Oops"), None))),
        (Some("lambda stream error (Oops): ".to_string()), true)
    );
    assert_eq!(finish(pump.event(complete(None, Some("why")))), (None, true));
    assert_eq!(finish(pump.event(StreamEvent::Ended)), (None, false));

    // A receiver that is gone gets nothing more.
    assert!(matches!(pump.forwarded(false), PumpStep::Receive));
    assert!(matches!(pump.event(chunk()), PumpStep::Receive));
    assert_eq!(finish(pump.event(failed())), (None, false));
    assert_eq!(finish(pump.event(complete(Some("Oops"), None))), (None, true));

    let mut pump = EventPump::new(false);
    assert_eq!(finish(pump.forwarded(false)), (None, false));
}

#[test]
fn chunks_are_handed_on_in_order() {
    let run = |drains: bool, takes: usize| {
        let chunk = |s: &str| StreamEvent::Chunk(Some(s.as_bytes().to_vec()));
        let events = vec![
            chunk("a"),
            StreamEvent::Other,
            chunk("b"),
            StreamEvent::Chunk(None),
            chunk("c"),
            StreamEvent::Failed("boom".to_string()),
            chunk("d"),
        ];
        let mut pump = EventPump::new(drains);
        let mut taken: Vec<Vec<u8>> = vec![];
        let mut seen = 0;
        for event in events {
            seen += 1;
            let mut step = pump.event(event);
            if let PumpStep::Forward(bytes) = step {
                let takes_more = taken.len() < takes;
                if takes_more {
                    taken.push(bytes);
                }
                step = pump.forwarded(takes_more);
            }
            if let PumpStep::Finish { error, .. } = step {
                return (taken.concat(), error, seen);
            }
        }
        panic!("expected the end");
    };
    let boom = Some("event stream recv: boom".to_string());
    assert_eq!(run(false, 9), (b"abc".to_vec(), boom.clone(), 6));
    assert_eq!(run(false, 3), (b"abc".to_vec(), boom.clone(), 6));
    assert_eq!(run(true, 3), (b"abc".to_vec(), boom, 6));
    assert_eq!(run(false, 1), (b"a".to_vec(), None, 3));
    assert_eq!(run(true, 1), (b"a".to_vec(), None, 6));
}
