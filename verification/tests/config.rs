//! Router configuration.
use lpr_router::config::{
    default_default_timeout_ms, default_idle_ttl_ms, default_max_body_bytes,
    default_max_inflight_invocations, default_max_inflight_requests,
    default_max_invoke_payload_bytes, default_max_pending_invocations,
    default_max_queue_depth_per_key, ForwardHeadersConfig, RouterConfig, RouterManifest, Setting,
};
use lpr_router::spec::OpenApiLikeSpec;

fn manifest() -> RouterManifest {
    RouterManifest {
        listen_addr: "127.0.0.1:3000".to_string(),
        spec: Some(OpenApiLikeSpec { paths: vec![] }),
        aws_region: None,
        max_inflight_invocations: None,
        max_inflight_requests: None,
        max_pending_invocations: None,
        max_queue_depth_per_key: None,
        idle_ttl_ms: None,
        default_timeout_ms: None,
        max_body_bytes: None,
        max_invoke_payload_bytes: None,
        forward_headers: ForwardHeadersConfig::default(),
    }
}

fn text(s: &str) -> Option<Setting> {
    Some(Setting::Text(s.to_string()))
}

#[test]
fn defaults_apply_for_optional_fields() {
    let cfg = RouterConfig::from_manifest(manifest()).unwrap();
    assert_eq!(cfg.max_inflight_invocations, 64);
    assert_eq!(cfg.max_inflight_requests, 4096);
    assert_eq!(cfg.max_pending_invocations, 256);
    assert_eq!(cfg.max_queue_depth_per_key, 1000);
    assert_eq!(cfg.idle_ttl_ms, 30_000);
    assert_eq!(cfg.default_timeout_ms, 2_000);
    assert_eq!(cfg.max_body_bytes, 1024 * 1024);
    assert_eq!(cfg.max_invoke_payload_bytes, 6 * 1024 * 1024);
    assert!(cfg.forward_headers.allow.is_empty());
    assert!(cfg.forward_headers.deny.is_empty());
    assert!(cfg.aws_region.is_none());
    assert!(cfg.spec.is_some());
}

#[test]
fn accepts_numeric_fields_as_strings() {
    let mut m = manifest();
    m.max_inflight_invocations = text("12");
    m.max_inflight_requests = text("56");
    m.max_pending_invocations = text("78");
    m.max_queue_depth_per_key = text("34");
    m.idle_ttl_ms = text("56000");
    m.default_timeout_ms = text("789");
    m.max_body_bytes = text("1024");
    m.max_invoke_payload_bytes = text("2048");
    let cfg = RouterConfig::from_manifest(m).unwrap();
    assert_eq!(cfg.max_inflight_invocations, 12);
    assert_eq!(cfg.max_inflight_requests, 56);
    assert_eq!(cfg.max_pending_invocations, 78);
    assert_eq!(cfg.max_queue_depth_per_key, 34);
    assert_eq!(cfg.idle_ttl_ms, 56_000);
    assert_eq!(cfg.default_timeout_ms, 789);
    assert_eq!(cfg.max_body_bytes, 1024);
    assert_eq!(cfg.max_invoke_payload_bytes, 2048);
}

#[test]
fn the_default_functions_give_the_defaults() {
    assert_eq!(default_max_inflight_invocations(), 64);
    assert_eq!(default_max_inflight_requests(), 4096);
    assert_eq!(default_max_pending_invocations(), 256);
    assert_eq!(default_max_queue_depth_per_key(), 1000);
    assert_eq!(default_idle_ttl_ms(), 30_000);
    assert_eq!(default_default_timeout_ms(), 2_000);
    assert_eq!(default_max_body_bytes(), 1_048_576);
    assert_eq!(default_max_invoke_payload_bytes(), 6_291_456);
}

#[test]
fn settings_that_are_no_numbers_are_errors() {
    for bad in ["", "+", "-1", "1.5", " 1", "18446744073709551616", "1e3"] {
        let mut m = manifest();
        m.idle_ttl_ms = text(bad);
        m.max_body_bytes = text("x");
        assert_eq!(
            RouterConfig::from_manifest(m).unwrap_err(),
            "IdleTtlMs must be a whole number in range"
        );
    }
    for good in ["18446744073709551615", "+18446744073709551615", "0018446744073709551615"] {
        let mut m = manifest();
        m.idle_ttl_ms = text(good);
        assert_eq!(RouterConfig::from_manifest(m).unwrap().idle_ttl_ms, u64::MAX);
    }
}

#[test]
fn batching_limits_come_from_the_configuration() {
    let mut m = manifest();
    m.max_pending_invocations = Some(Setting::Number(7));
    let b = RouterConfig::from_manifest(m).unwrap().batching(true);
    assert_eq!(b.max_inflight_invocations, 64);
    assert_eq!(b.max_pending_invocations, 7);
    assert_eq!(b.max_queue_depth_per_key, 1000);
    assert_eq!(b.idle_ttl_ms, 30_000);
    assert_eq!(b.max_invoke_payload_bytes, 6_291_456);
    assert!(b.report_batch_size);
}
