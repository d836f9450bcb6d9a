//! Batch keys, batch events, planning, flushing and buffered responses.
use aws_lambda_events::event::apigw::ApiGatewayV2httpRequest;
use lpr_router::batcher::{
    bounded_wait_ms, Batcher, BatcherStep, DynamicRateEstimator, Enqueue, EnqueueError,
    EnqueueStep, SendOutcome,
};
use lpr_router::buffered::{dispatch_buffered, BatchResponse, BatchResponseItem};
use lpr_router::event::{
    batch_item, build_payload_bytes, extract_source_ip, parse_cookie_header,
    ApiGatewayV2HttpDescription, ApiGatewayV2RequestContext, BatchItem,
};
use lpr_router::flush::{flush_batch, FlushConfig, FlushStep};
use lpr_router::job::{run_invocation_job, InvocationJob, JobStep, LambdaInvokeResult, Replies};
use lpr_router::plan::{plan_invocations, split_pending, InvocationPlan};
use lpr_router::request::{
    BatchKey, BatcherConfig, PendingRequest, ResponseSink, StreamSender,
};
use lpr_router::response::RouterResponse;
use lpr_router::spec::{BatchKeyDimension, InvokeMode, OperationConfig};
use lpr_router::str_map::StrMap;

type Request = PendingRequest<u32, u32, u32>;
type Job = InvocationJob<u32, u32, u32>;

const RECEIVED_AT_MS: u64 = 1_700_000_000_000;

fn map(entries: &[(&str, &str)]) -> StrMap<String> {
    let mut m = StrMap::new();
    for (k, v) in entries {
        m.insert(k.to_string(), v.to_string());
    }
    m
}

fn pending_with_body(id: &str, sink: u32, body: Vec<u8>) -> Request {
    PendingRequest {
        id: id.to_string(),
        method: "GET".to_string(),
        path: "/hello".to_string(),
        route: "/hello".to_string(),
        path_params: StrMap::new(),
        headers: StrMap::new(),
        query: StrMap::new(),
        raw_query_string: String::new(),
        body,
        respond_to: ResponseSink::Buffered(sink),
    }
}

fn pending(id: &str, sink: u32) -> Request {
    pending_with_body(id, sink, vec![])
}

fn stream_pending(id: &str, sink: u32) -> Request {
    let mut req = pending(id, 0);
    req.respond_to = ResponseSink::Stream(StreamSender { init: sink, body: sink + 100 });
    req
}

fn key(invoke_mode: InvokeMode) -> BatchKey {
    BatchKey {
        target_lambda: "fn".to_string(),
        method: "GET".to_string(),
        route: "/hello".to_string(),
        invoke_mode,
        key_values: vec![],
    }
}

fn op_cfg(max_wait_ms: u64, max_batch_size: usize) -> OperationConfig {
    OperationConfig {
        route_template: "/hello".to_string(),
        method: "GET".to_string(),
        operation_id: None,
        target_lambda: "fn".to_string(),
        max_wait_ms,
        max_batch_size,
        key: vec![],
        timeout_ms: 1000,
        invoke_mode: InvokeMode::Buffered,
        dynamic_wait: None,
    }
}

fn item(id: &str, body: Option<String>, is_base64_encoded: bool) -> BatchItem {
    BatchItem {
        id: id.to_string(),
        version: "2.0",
        route_key: "GET /hello".to_string(),
        raw_path: "/hello".to_string(),
        raw_query_string: String::new(),
        cookies: None,
        headers: StrMap::new(),
        query_string_parameters: StrMap::new(),
        path_parameters: StrMap::new(),
        request_context: ApiGatewayV2RequestContext {
            account_id: None,
            api_id: None,
            domain_name: None,
            domain_prefix: None,
            route_key: "GET /hello".to_string(),
            stage: "$default",
            request_id: id.to_string(),
            time: None,
            time_epoch: 1_700_000_000_000,
            http: ApiGatewayV2HttpDescription {
                method: "GET".to_string(),
                path: "/hello".to_string(),
                protocol: "HTTP/1.1",
                source_ip: None,
                user_agent: None,
            },
        },
        stage_variables: StrMap::new(),
        body,
        is_base64_encoded,
    }
}

fn flush_cfg(max_invoke_payload_bytes: usize) -> FlushConfig {
    FlushConfig {
        wait_ms: 0,
        estimated_rps_bits: None,
        received_at_ms: RECEIVED_AT_MS,
        max_invoke_payload_bytes,
        report_batch_size: false,
    }
}

fn body_text(resp: &RouterResponse) -> &str {
    std::str::from_utf8(&resp.body).unwrap()
}

fn ids_in(payload: &[u8]) -> Vec<String> {
    let v: serde_json::Value = serde_json::from_slice(payload).unwrap();
    v["batch"]
        .as_array()
        .unwrap()
        .iter()
        .map(|i| i["requestContext"]["requestId"].as_str().unwrap().to_string())
        .collect()
}

fn decode(body: &[u8]) -> Result<BatchResponse, String> {
    let v: serde_json::Value = serde_json::from_slice(body).map_err(|e| e.to_string())?;
    let responses = v["responses"]
        .as_array()
        .ok_or("missing field `responses`")?
        .iter()
        .map(|r| BatchResponseItem {
            id: r["id"].as_str().unwrap().to_string(),
            status_code: r["statusCode"].as_u64().unwrap() as u16,
            headers: StrMap::new(),
            cookies: vec![],
            body: r["body"].as_str().unwrap_or_default().to_string(),
            is_base64_encoded: r["isBase64Encoded"].as_bool().unwrap_or_default(),
        })
        .collect();
    Ok(BatchResponse { v: v["v"].as_u64().unwrap() as u8, responses })
}

fn two_waiting() -> StrMap<u32> {
    let mut m = StrMap::new();
    m.insert("a".to_string(), 1);
    m.insert("b".to_string(), 2);
    m
}

fn answer_to(replies: &[(u32, RouterResponse)], sink: u32) -> &RouterResponse {
    let found: Vec<&RouterResponse> =
        replies.iter().filter(|r| r.0 == sink).map(|r| &r.1).collect();
    assert_eq!(found.len(), 1);
    found[0]
}

#[test]
fn batch_items_deserialize_as_apigw_v2_events() {
    let mut it = item("r-1", Some("hi".to_string()), false);
    it.raw_query_string = "x=1".to_string();
    it.headers = map(&[("x-foo", "bar")]);
    it.query_string_parameters = map(&[("x", "1")]);

    let payload = build_payload_bytes(&key(InvokeMode::Buffered), RECEIVED_AT_MS, &vec![it]);
    let raw: serde_json::Value = serde_json::from_slice(&payload).unwrap();
    assert!(raw["batch"][0]["httpMethod"].is_null());
    assert_eq!(raw["v"], 1);
    assert_eq!(raw["meta"]["route"], "/hello");
    let batch: Vec<ApiGatewayV2httpRequest> =
        serde_json::from_value(raw["batch"].clone()).unwrap();
    assert_eq!(batch.len(), 1);
    let evt = &batch[0];

    assert_eq!(evt.version.as_deref(), Some("2.0"));
    assert_eq!(evt.route_key.as_deref(), Some("GET /hello"));
    assert_eq!(evt.raw_path.as_deref(), Some("/hello"));
    assert_eq!(evt.raw_query_string.as_deref(), Some("x=1"));
    assert_eq!(evt.request_context.request_id.as_deref(), Some("r-1"));
    assert_eq!(evt.request_context.http.method, http::Method::GET);
    assert_eq!(evt.body.as_deref(), Some("hi"));
}

#[test]
fn payload_text_is_exact() {
    let mut it = item("a\"\\\u{1}\u{1f}\n\t\r\u{8}\u{c}é", Some("x".to_string()), true);
    it.cookies = Some(vec!["c=1".to_string(), "d=2".to_string()]);
    it.path_parameters = map(&[("id", "7")]);
    it.request_context.time_epoch = -5;
    it.request_context.http.source_ip = Some("1.2.3.4".to_string());
    let payload = build_payload_bytes(&key(InvokeMode::Buffered), 42, &vec![it]);
    let expected = concat(&[
        r#"{"v":1,"meta":{"router":"lambda-parallel-router","route":"/hello","receivedAtMs":42},"#,
        r#""batch":[{"version":"2.0","routeKey":"GET /hello","rawPath":"/hello","#,
        r#""rawQueryString":"","cookies":["c=1","d=2"],"headers":{},"pathParameters":{"id":"7"},"#,
        r#""requestContext":{"routeKey":"GET /hello","stage":"$default","requestId":"#,
        r#""a\"\\\u0001\u001f\n\t\r\b\fé","timeEpoch":-5,"http":{"method":"GET","path":"/hello","#,
        r#""protocol":"HTTP/1.1","sourceIp":"1.2.3.4"}},"body":"x","isBase64Encoded":true}]}"#,
    ]);
    assert_eq!(std::str::from_utf8(&payload).unwrap(), expected);
}

fn concat(parts: &[&str]) -> String {
    parts.concat()
}

#[test]
fn requests_become_items() {
    let mut req = pending_with_body("r-1", 1, b"hi".to_vec());
    req.headers = map(&[
        ("cookie", " a=1; ;b=2 ;"),
        ("x-forwarded-for", " 10.0.0.1 , 10.0.0.2"),
        ("user-agent", "ua"),
    ]);
    let (it, sink) = batch_item(req, u64::MAX);
    assert_eq!(it.route_key, "GET /hello");
    assert_eq!(it.request_context.request_id, "r-1");
    assert_eq!(it.cookies, Some(vec!["a=1".to_string(), "b=2".to_string()]));
    assert_eq!(it.request_context.http.source_ip.as_deref(), Some("10.0.0.1"));
    assert_eq!(it.request_context.http.user_agent.as_deref(), Some("ua"));
    assert_eq!(it.request_context.time_epoch, -1);
    assert_eq!(it.body.as_deref(), Some("hi"));
    assert!(!it.is_base64_encoded);
    assert!(matches!(sink, ResponseSink::Buffered(1)));
}

#[test]
fn cookies_and_addresses_may_be_missing() {
    assert_eq!(parse_cookie_header(&map(&[])), None);
    assert_eq!(parse_cookie_header(&map(&[("cookie", " ; ;")])), None);
    assert_eq!(extract_source_ip(&map(&[])), None);
    assert_eq!(extract_source_ip(&map(&[("x-forwarded-for", " , 1.1.1.1")])), None);
    assert_eq!(
        extract_source_ip(&map(&[("x-forwarded-for", "\u{a0}1.1.1.1\u{3000}")])).as_deref(),
        Some("1.1.1.1")
    );
}

#[test]
fn header_key_dimension_batches_same_value_together() {
    let mut op = op_cfg(10_000, 2);
    op.key = vec![BatchKeyDimension::Header("x-tenant-id".to_string())];
    let mut a = pending("a", 1);
    a.headers.insert("x-tenant-id".to_string(), "t1".to_string());
    let mut b = pending("b", 2);
    b.headers.insert("x-tenant-id".to_string(), "t1".to_string());
    let ka = BatchKey::from_operation_and_request(&op, &a);
    assert_eq!(ka, BatchKey::from_operation_and_request(&op, &b));
    assert_eq!(ka, ka.copy());
    assert_eq!(ka.key_values, vec![Some("t1".to_string())]);
}

#[test]
fn header_key_dimension_separates_different_values() {
    let mut op = op_cfg(10, 2);
    op.key = vec![BatchKeyDimension::Header("x-tenant-id".to_string())];
    let mut a = pending("a", 1);
    a.headers.insert("x-tenant-id".to_string(), "t1".to_string());
    let mut b = pending("b", 2);
    b.headers.insert("x-tenant-id".to_string(), "t2".to_string());
    let c = pending("c", 3);
    let k = |r: &Request| BatchKey::from_operation_and_request(&op, r);
    assert_ne!(k(&a), k(&b));
    assert_ne!(k(&a), k(&c));
    assert_eq!(k(&c).key_values, vec![None]);
}

#[test]
fn query_key_dimension_batches_same_value_together() {
    let mut op = op_cfg(10_000, 2);
    op.key = vec![BatchKeyDimension::Query("version".to_string())];
    let mut a = pending("a", 1);
    a.query.insert("version".to_string(), "v1".to_string());
    let mut b = pending("b", 2);
    b.query.insert("version".to_string(), "v1".to_string());
    let k = |r: &Request| BatchKey::from_operation_and_request(&op, r);
    assert_eq!(k(&a), k(&b));
}

#[test]
fn query_key_dimension_separates_different_values() {
    let mut op = op_cfg(10, 2);
    op.key = vec![BatchKeyDimension::Query("version".to_string())];
    let mut a = pending("a", 1);
    a.query.insert("version".to_string(), "v1".to_string());
    let mut b = pending("b", 2);
    b.query.insert("version".to_string(), "v2".to_string());
    let k = |r: &Request| BatchKey::from_operation_and_request(&op, r);
    assert_ne!(k(&a), k(&b));
}

#[test]
fn operations_are_batched_apart() {
    let base = BatchKey::from_operation_and_request(&op_cfg(1, 1), &pending("a", 1));
    let mut other = op_cfg(1, 1);
    other.invoke_mode = InvokeMode::ResponseStream;
    assert_ne!(base, BatchKey::from_operation_and_request(&other, &pending("a", 1)));
    let mut other = op_cfg(1, 1);
    other.route_template = "/other".to_string();
    assert_ne!(base, BatchKey::from_operation_and_request(&other, &pending("a", 1)));
    let cfg = BatcherConfig::from_operation(&op_cfg(7, 3));
    assert_eq!((cfg.max_wait_ms, cfg.max_batch_size), (7, 3));
    assert!(cfg.dynamic_wait.is_none());
}

#[test]
fn flushes_by_batch_size() {
    let mut b: Batcher<&str> = Batcher::new(2);
    assert!(matches!(b.poll(0), BatcherStep::AwaitFirst));
    let BatcherStep::AwaitMore { remaining_ns } = b.request("a", 5, 10_000) else {
        panic!("expected the batch to stay open");
    };
    assert_eq!(remaining_ns, 10_000_000_000);
    let BatcherStep::Flush { batch, wait_ms } = b.request("b", 6, 10_000) else {
        panic!("expected a flush");
    };
    assert_eq!(batch, vec!["a", "b"]);
    assert_eq!(wait_ms, 10_000);
    assert!(b.batch.is_empty());
}

#[test]
fn flushes_by_timer() {
    let mut b: Batcher<&str> = Batcher::new(16);
    assert!(matches!(
        b.request("a", 0, 10),
        BatcherStep::AwaitMore { remaining_ns: 10_000_000 }
    ));
    assert!(matches!(b.poll(9_999_999), BatcherStep::AwaitMore { remaining_ns: 1 }));
    let BatcherStep::Flush { batch, wait_ms } = b.poll(10_000_000) else {
        panic!("expected a flush");
    };
    assert_eq!((batch, wait_ms), (vec!["a"], 10));

    assert!(matches!(b.request("b", 0, 10), BatcherStep::AwaitMore { .. }));
    // The timer runs from the first request of the batch.
    assert!(matches!(b.request("c", 4_000_000, 99), BatcherStep::AwaitMore { remaining_ns: 6_000_000 }));
    let BatcherStep::Flush { batch, .. } = b.timed_out() else {
        panic!("expected a flush");
    };
    assert_eq!(batch, vec!["b", "c"]);
}

#[test]
fn batches_without_a_wait_are_flushed_at_once() {
    let mut b: Batcher<u8> = Batcher::new(16);
    assert!(matches!(b.request(1, 3, 0), BatcherStep::Flush { batch, .. } if batch == vec![1]));
    let mut b: Batcher<u8> = Batcher::new(0);
    assert!(matches!(b.request(1, 3, 10), BatcherStep::Flush { batch, .. } if batch == vec![1]));
}

#[test]
fn idle_batcher_is_evicted() {
    let mut b: Batcher<u8> = Batcher::new(1);
    assert!(matches!(b.timed_out(), BatcherStep::Stop));
    assert!(matches!(b.closed(), BatcherStep::Stop));
}

#[test]
fn a_closed_queue_flushes_the_open_batch() {
    let mut b: Batcher<u8> = Batcher::new(9);
    assert!(matches!(b.request(1, 0, 10), BatcherStep::AwaitMore { .. }));
    assert!(matches!(b.closed(), BatcherStep::Flush { batch, .. } if batch == vec![1]));
    assert!(matches!(b.closed(), BatcherStep::Stop));
}

#[test]
fn enqueue_returns_queue_full_without_yielding() {
    let mut e = Enqueue::new();
    assert_eq!(
        e.attempted(SendOutcome::Full),
        EnqueueStep::Rejected(EnqueueError::QueueFull)
    );
}

#[test]
fn enqueue_tries_twice() {
    let mut e = Enqueue::new();
    assert_eq!(e.attempted(SendOutcome::Closed), EnqueueStep::Retry);
    assert_eq!(e.attempted(SendOutcome::Sent), EnqueueStep::Accepted);
    let mut e = Enqueue::new();
    assert_eq!(e.attempted(SendOutcome::Closed), EnqueueStep::Retry);
    assert_eq!(
        e.attempted(SendOutcome::Closed),
        EnqueueStep::GiveUp(EnqueueError::BatcherClosed)
    );
}

#[test]
fn dynamic_rate_estimator_smooths_samples() {
    let rate = |est: &DynamicRateEstimator| {
        let (n, d) = est.smoothed_rps();
        n as f64 / d as f64
    };
    let mut est = DynamicRateEstimator::new(100, 3);
    assert_eq!(rate(&est), 0.0);
    est.record_request();
    est.record_request();
    est.tick();
    assert_eq!(rate(&est), 20.0);

    // Second interval with no requests should decay the average.
    est.tick();
    assert_eq!(rate(&est), 10.0);

    est.tick();
    est.tick();
    assert_eq!(est.samples.iter().copied().collect::<Vec<u64>>(), vec![0, 0, 0]);
    assert_eq!(rate(&est), 0.0);
}

#[test]
fn waits_stay_within_their_bounds() {
    assert_eq!(bounded_wait_ms(0, 1, 100), 1);
    assert_eq!(bounded_wait_ms(50, 1, 100), 50);
    assert_eq!(bounded_wait_ms(101, 1, 100), 100);
    assert_eq!(bounded_wait_ms(7, 100, 100), 100);
}

#[test]
fn buffered_missing_record_returns_bad_gateway_for_missing() {
    let parsed = decode(br#"{"v":1,"responses":[{"id":"a","statusCode":200,"headers":{},"body":"ok","isBase64Encoded":false}]}"#);
    let replies = dispatch_buffered(parsed, two_waiting(), false);
    assert_eq!(replies.len(), 2);
    assert_eq!(answer_to(&replies, 1).status, 200);
    assert_eq!(body_text(answer_to(&replies, 1)), "ok");
    assert_eq!(answer_to(&replies, 2).status, 502);
    assert_eq!(body_text(answer_to(&replies, 2)), "missing response record");
}

#[test]
fn buffered_invalid_json_fails_all() {
    let replies = dispatch_buffered(decode(b"not-json"), two_waiting(), false);
    assert_eq!(answer_to(&replies, 1).status, 502);
    assert_eq!(answer_to(&replies, 2).status, 502);
    assert!(body_text(answer_to(&replies, 1)).contains("decode response"));
    let replies = dispatch_buffered(Err("boom".to_string()), two_waiting(), false);
    assert_eq!(body_text(answer_to(&replies, 2)), "decode response: boom");
}

#[test]
fn buffered_unsupported_version_fails_all() {
    let replies = dispatch_buffered(decode(br#"{"v":2,"responses":[]}"#), two_waiting(), false);
    assert_eq!(answer_to(&replies, 1).status, 502);
    assert_eq!(answer_to(&replies, 2).status, 502);
    assert!(body_text(answer_to(&replies, 1)).contains("unsupported response version"));
    assert_eq!(body_text(answer_to(&replies, 2)), "unsupported response version: 2");
}

#[test]
fn buffered_bad_base64_only_fails_that_item() {
    let parsed = decode(br#"{"v":1,"responses":[{"id":"a","statusCode":200,"headers":{},"body":"ok","isBase64Encoded":false},{"id":"b","statusCode":200,"headers":{},"body":"!!!","isBase64Encoded":true}]}"#);
    let replies = dispatch_buffered(parsed, two_waiting(), false);
    assert_eq!(answer_to(&replies, 1).status, 200);
    assert_eq!(answer_to(&replies, 2).status, 502);
    assert!(body_text(answer_to(&replies, 2)).contains("bad response"));
}

#[test]
fn buffered_extra_records_are_ignored() {
    let parsed = decode(br#"{"v":1,"responses":[{"id":"a","statusCode":200,"headers":{},"body":"ok","isBase64Encoded":false},{"id":"b","statusCode":200,"headers":{},"body":"ok","isBase64Encoded":false},{"id":"extra","statusCode":200,"headers":{},"body":"ok","isBase64Encoded":false}]}"#);
    let replies = dispatch_buffered(parsed, two_waiting(), false);
    assert_eq!(replies.len(), 2);
    assert_eq!(answer_to(&replies, 1).status, 200);
    assert_eq!(answer_to(&replies, 2).status, 200);
}

#[test]
fn the_first_record_of_a_request_counts() {
    let parsed = decode(br#"{"v":1,"responses":[{"id":"b","statusCode":201,"body":"x"},{"id":"b","statusCode":202,"body":"y"},{"id":"a","statusCode":203,"body":"eg==","isBase64Encoded":true}]}"#);
    let replies = dispatch_buffered(parsed, two_waiting(), true);
    assert_eq!(answer_to(&replies, 2).status, 201);
    assert_eq!(answer_to(&replies, 1).status, 203);
    assert_eq!(body_text(answer_to(&replies, 1)), "z");
    assert_eq!(answer_to(&replies, 1).headers.get("x-lpr-batch-size").unwrap(), "2");
}

#[test]
fn bad_records_say_what_is_wrong() {
    let bad = |f: &dyn Fn(&mut BatchResponseItem)| {
        let mut it = BatchResponseItem {
            id: "a".to_string(),
            status_code: 200,
            headers: StrMap::new(),
            cookies: vec![],
            body: String::new(),
            is_base64_encoded: false,
        };
        f(&mut it);
        let mut waiting = StrMap::new();
        waiting.insert("a".to_string(), 1);
        let parsed = Ok(BatchResponse { v: 1, responses: vec![it] });
        let replies: Vec<(u32, RouterResponse)> = dispatch_buffered(parsed, waiting, false);
        assert_eq!(replies[0].1.status, 502);
        body_text(&replies[0].1).to_string()
    };
    assert_eq!(bad(&|i| i.status_code = 99), "bad response: invalid status code");
    assert_eq!(bad(&|i| i.status_code = 1000), "bad response: invalid status code");
    assert_eq!(
        bad(&|i| i.headers = map(&[("a b", "x")])),
        "bad response: invalid HTTP header name"
    );
    assert_eq!(
        bad(&|i| i.headers = map(&[("a", "x\ny")])),
        "bad response: failed to parse header value"
    );
    assert_eq!(
        bad(&|i| i.cookies = vec!["x\ny".to_string()]),
        "bad response: failed to parse header value"
    );
}

#[test]
fn cookies_become_set_cookie_headers() {
    let it = BatchResponseItem {
        id: "a".to_string(),
        status_code: 200,
        headers: map(&[("Content-Type", "text/plain"), ("set-cookie", "z=0")]),
        cookies: vec!["a=b".to_string(), "c=d".to_string()],
        body: "é".to_string(),
        is_base64_encoded: false,
    };
    let mut waiting = StrMap::new();
    waiting.insert("a".to_string(), 1);
    let parsed = Ok(BatchResponse { v: 1, responses: vec![it] });
    let replies: Vec<(u32, RouterResponse)> = dispatch_buffered(parsed, waiting, false);
    let resp = &replies[0].1;
    let cookies: Vec<&str> =
        resp.headers.get_all("set-cookie").iter().map(|v| v.to_str().unwrap()).collect();
    assert_eq!(cookies, vec!["z=0", "a=b", "c=d"]);
    assert_eq!(resp.headers.get("content-type").unwrap(), "text/plain");
    assert_eq!(resp.headers.get("x-lpr-batch-size"), None);
    assert_eq!(resp.body, "é".as_bytes());
}

#[test]
fn oversized_invoke_payload_splits_batch() {
    let body = vec![0u8; 256];
    let one = batch_item(pending_with_body("a", 1, body.clone()), RECEIVED_AT_MS).0;
    assert!(one.is_base64_encoded);
    let b64 = one.body.clone();
    let k = key(InvokeMode::Buffered);
    let one_len = build_payload_bytes(&k, RECEIVED_AT_MS, &vec![item("a", b64.clone(), true)]).len();
    let two = vec![item("a", b64.clone(), true), item("b", b64, true)];
    let two_len = build_payload_bytes(&k, RECEIVED_AT_MS, &two).len();
    assert!(one_len < two_len);
    assert_eq!(one_len, build_payload_bytes(&k, RECEIVED_AT_MS, &vec![one]).len());

    let batch =
        vec![pending_with_body("a", 1, body.clone()), pending_with_body("b", 2, body.clone())];
    let steps = flush_batch(&k, &flush_cfg((one_len + two_len) / 2), batch);
    assert_eq!(steps.len(), 2);
    let mut seen = vec![];
    for step in steps {
        let FlushStep::Submit(InvocationJob::Buffered { payload, pending, .. }) = step else {
            panic!("expected an invocation");
        };
        assert!(payload.len() <= (one_len + two_len) / 2);
        assert_eq!(pending.len(), 1);
        let (id, sink) = pending.entry_at(0);
        assert_eq!(ids_in(&payload), vec![id.clone()]);
        seen.push((id.clone(), *sink));
    }
    assert_eq!(seen, vec![("a".to_string(), 1), ("b".to_string(), 2)]);
}

#[test]
fn oversized_single_request_fails_without_invoking() {
    let body = vec![0u8; 256];
    let k = key(InvokeMode::Buffered);
    let one = batch_item(pending_with_body("a", 1, body.clone()), RECEIVED_AT_MS).0;
    let one_len = build_payload_bytes(&k, RECEIVED_AT_MS, &vec![one]).len();
    let steps = flush_batch(&k, &flush_cfg(one_len - 1), vec![pending_with_body("a", 1, body)]);
    assert_eq!(steps.len(), 1);
    let FlushStep::Answer(Replies::Buffered(replies)) = &steps[0] else {
        panic!("expected an answer");
    };
    assert_eq!(answer_to(replies, 1).status, 502);
    assert_eq!(body_text(answer_to(replies, 1)), "invoke payload too large");
}

#[test]
fn a_batch_within_the_limit_is_one_invocation() {
    let k = key(InvokeMode::ResponseStream);
    let batch = vec![stream_pending("a", 1), stream_pending("b", 2), stream_pending("c", 3)];
    let steps = flush_batch(&k, &flush_cfg(1_000_000), batch);
    assert_eq!(steps.len(), 1);
    let FlushStep::Submit(InvocationJob::Stream { payload, pending, key: job_key, .. }) = &steps[0]
    else {
        panic!("expected an invocation");
    };
    assert_eq!(ids_in(payload), vec!["a", "b", "c"]);
    assert_eq!(pending.len(), 3);
    assert_eq!(*job_key, k);
    let first = pending.get("a").unwrap();
    assert_eq!((first.init, first.body), (Some(1), 101));
}

#[test]
fn mismatched_sinks_are_answered() {
    let batch = vec![pending("a", 1), stream_pending("b", 2)];
    let steps = flush_batch(&key(InvokeMode::Buffered), &flush_cfg(1_000_000), batch);
    assert_eq!(steps.len(), 2);
    let FlushStep::Answer(Replies::Stream(replies)) = &steps[0] else {
        panic!("expected an answer");
    };
    assert_eq!(answer_to(replies, 2).status, 502);
    assert_eq!(body_text(answer_to(replies, 2)), "unexpected streaming response sink");
    assert!(matches!(&steps[1], FlushStep::Submit(InvocationJob::Buffered { .. })));

    let batch = vec![pending("a", 1), stream_pending("b", 2)];
    let steps = flush_batch(&key(InvokeMode::ResponseStream), &flush_cfg(1_000_000), batch);
    let FlushStep::Answer(Replies::Buffered(replies)) = &steps[0] else {
        panic!("expected an answer");
    };
    assert_eq!(body_text(answer_to(replies, 1)), "unexpected buffered response sink");
    assert!(matches!(&steps[1], FlushStep::Submit(InvocationJob::Stream { .. })));
}

#[test]
fn pending_requests_are_split_by_items() {
    let mut waiting = two_waiting();
    waiting.insert("c".to_string(), 3);
    let (left, right) = split_pending(waiting, &vec![item("c", None, false), item("x", None, false)]);
    assert_eq!(left.len(), 1);
    assert_eq!(left.get("c"), Some(&3));
    assert_eq!(right.len(), 2);
    assert_eq!(right.get("a"), Some(&1));
    assert!(!right.contains_key("c"));
}

#[test]
fn plans_halve_a_batch_until_it_fits() {
    let k = key(InvokeMode::Buffered);
    let ids = ["a", "b", "c", "d", "e"];
    let items = || ids.iter().map(|i| item(i, None, false)).collect::<Vec<_>>();
    let waiting = || {
        let mut m = StrMap::new();
        for (n, id) in ids.iter().enumerate() {
            m.insert(id.to_string(), n);
        }
        m
    };
    let one = build_payload_bytes(&k, 0, &vec![item("a", None, false)]).len();
    let two =
        build_payload_bytes(&k, 0, &vec![item("a", None, false), item("b", None, false)]).len();
    let plans = plan_invocations(&k, 0, two, waiting(), items());
    let cut: Vec<Vec<String>> = plans
        .iter()
        .map(|p| match p {
            InvocationPlan::Invoke { payload, .. } => ids_in(payload),
            InvocationPlan::Fail { .. } => panic!("nothing is too large"),
        })
        .collect();
    assert_eq!(cut, vec![vec!["a", "b"], vec!["c"], vec!["d", "e"]]);
    let plans = plan_invocations(&k, 0, one - 1, waiting(), items());
    assert_eq!(plans.len(), 5);
    for p in plans {
        let InvocationPlan::Fail { pending, status, msg } = p else {
            panic!("everything is too large");
        };
        assert_eq!((pending.len(), status, msg.as_str()), (1, 502, "invoke payload too large"));
    }
}

fn buffered_job() -> Job {
    let steps =
        flush_batch(&key(InvokeMode::Buffered), &flush_cfg(1_000_000), vec![pending("a", 1), pending("b", 2)]);
    match steps.into_iter().next() {
        Some(FlushStep::Submit(job)) => job,
        _ => panic!("expected an invocation"),
    }
}

fn stream_job() -> Job {
    let steps = flush_batch(
        &key(InvokeMode::ResponseStream),
        &flush_cfg(1_000_000),
        vec![stream_pending("a", 1)],
    );
    match steps.into_iter().next() {
        Some(FlushStep::Submit(job)) => job,
        _ => panic!("expected an invocation"),
    }
}

#[test]
fn invocation_queue_full_rejects_with_too_many_requests() {
    let Replies::Buffered(replies) = buffered_job().overloaded(true) else {
        panic!("expected buffered replies");
    };
    assert_eq!(answer_to(&replies, 2).status, 429);
    assert_eq!(body_text(answer_to(&replies, 2)), "router overloaded");
    assert_eq!(answer_to(&replies, 2).headers.get("x-lpr-batch-size").unwrap(), "2");
    let Replies::Stream(replies) = stream_job().shutting_down(false) else {
        panic!("expected streamed replies");
    };
    assert_eq!(answer_to(&replies, 1).status, 502);
    assert_eq!(body_text(answer_to(&replies, 1)), "router shutting down");
    assert_eq!(answer_to(&replies, 1).headers.len(), 0);
}

#[test]
fn what_an_invocation_came_back_with_decides() {
    type Outcome = Result<LambdaInvokeResult<u8>, String>;
    let run = |job: Job, outcome: Outcome| run_invocation_job(job, outcome, false);

    let JobStep::Decode { bytes, pending } =
        run(buffered_job(), Ok(LambdaInvokeResult::Buffered(b"x".to_vec())))
    else {
        panic!("expected a decode");
    };
    assert_eq!((bytes, pending.len()), (b"x".to_vec(), 2));

    let JobStep::Answer(Replies::Buffered(replies)) =
        run(buffered_job(), Ok(LambdaInvokeResult::ResponseStream(7)))
    else {
        panic!("expected an answer");
    };
    assert_eq!(body_text(answer_to(&replies, 1)), "unexpected response stream");

    let JobStep::Answer(Replies::Buffered(replies)) = run(buffered_job(), Err("boom".to_string()))
    else {
        panic!("expected an answer");
    };
    assert_eq!(answer_to(&replies, 1).status, 502);
    assert_eq!(body_text(answer_to(&replies, 1)), "invoke: boom");

    let JobStep::Demultiplex { stream, demux } =
        run(stream_job(), Ok(LambdaInvokeResult::ResponseStream(7)))
    else {
        panic!("expected a stream");
    };
    assert_eq!((stream, demux.pending.len()), (7, 1));

    let JobStep::Answer(Replies::Stream(replies)) =
        run(stream_job(), Ok(LambdaInvokeResult::Buffered(vec![])))
    else {
        panic!("expected an answer");
    };
    assert_eq!(body_text(answer_to(&replies, 1)), "unexpected buffered response");

    let JobStep::Answer(Replies::Stream(replies)) = run(stream_job(), Err("boom".to_string()))
    else {
        panic!("expected an answer");
    };
    assert_eq!(body_text(answer_to(&replies, 1)), "invoke: boom");
}

#[test]
fn batches_keep_the_order() {
    let mut b: Batcher<u8> = Batcher::new(3);
    let mut batches = vec![];
    for n in 1..=7 {
        let now = if n == 5 { 10_000_000 } else { 0 };
        if let BatcherStep::Flush { batch, .. } = b.request(n, now, 10) {
            batches.push(batch);
        }
    }
    assert_eq!(batches, vec![vec![1, 2, 3], vec![4, 5]]);
    if let BatcherStep::Flush { batch, .. } = b.timed_out() {
        batches.push(batch);
    }
    assert_eq!(batches, vec![vec![1, 2, 3], vec![4, 5], vec![6, 7]]);
    assert!(matches!(b.timed_out(), BatcherStep::Stop));
}

#[test]
fn json_strings_are_escaped() {
    let texts = vec!["a\"b\\c".to_string(), "\u{8}\t\n\u{c}\r\u{1}\u{1f}\u{7f}\u{e9}/".to_string()];
    let json = lpr_router::json::write_text_array(&texts);
    assert_eq!(
        json,
        "[\"a\\\"b\\\\c\",\"\\b\\t\\n\\f\\r\\u0001\\u001f\u{7f}\u{e9}/\"]"
    );
    let back: Vec<String> = serde_json::from_str(&json).unwrap();
    assert_eq!(back, texts);
}
