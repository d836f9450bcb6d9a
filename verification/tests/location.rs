//! Document locations and startup decisions.
use lpr_router::location::{DocumentLocation, UrlParts};
use lpr_router::startup::{
    configure_otel_env_defaults, host_port_of, includes_batch_size_header,
    otlp_traces_endpoint_env, resolve_config_location, resolve_host_port, OtelEnv,
};

fn some(s: &str) -> Option<String> {
    Some(s.to_string())
}

#[test]
fn parse_s3_uri() {
    assert_eq!(
        DocumentLocation::parse("s3://my-bucket/a/b/c.yaml").unwrap(),
        DocumentLocation::S3 { bucket: "my-bucket".to_string(), key: "a/b/c.yaml".to_string() }
    );
}

#[test]
fn parse_file_path() {
    assert_eq!(
        DocumentLocation::parse("examples/router.yaml").unwrap(),
        DocumentLocation::File("examples/router.yaml".to_string())
    );
}

#[test]
fn parse_file_uri() {
    assert_eq!(
        DocumentLocation::parse("file:///etc/my%20router.yaml").unwrap(),
        DocumentLocation::File("/etc/my router.yaml".to_string())
    );
    assert_eq!(
        DocumentLocation::parse("file://localhost/a%C3%A9%2").unwrap(),
        DocumentLocation::File("/aé%2".to_string())
    );
    assert_eq!(
        DocumentLocation::parse("file://elsewhere/a").unwrap_err(),
        "file uri must name a local file"
    );
    assert_eq!(
        DocumentLocation::parse("file:///%FF").unwrap_err(),
        "file uri must name a local file"
    );
}

#[test]
fn s3_uris_need_a_bucket_and_a_key() {
    let parts = |host: Option<&str>, path: &str| {
        Some(UrlParts {
            scheme: "s3".to_string(),
            host: host.map(|h| h.to_string()),
            port: None,
            path: path.to_string(),
        })
    };
    assert_eq!(
        DocumentLocation::from_parts("s3:/k", parts(None, "/k")).unwrap_err(),
        "s3 uri must include a bucket name"
    );
    assert_eq!(
        DocumentLocation::from_parts("s3://b//", parts(Some("b"), "//")).unwrap_err(),
        "s3 uri must include a key (path)"
    );
    assert_eq!(
        DocumentLocation::from_parts("s3://b//k/", parts(Some("b"), "//k/")).unwrap(),
        DocumentLocation::S3 { bucket: "b".to_string(), key: "k/".to_string() }
    );
    assert_eq!(
        DocumentLocation::parse("s3://bucket").unwrap_err(),
        "s3 uri must include a key (path)"
    );
}

#[test]
fn other_urls_are_paths() {
    assert_eq!(
        DocumentLocation::parse("https://example.com/x").unwrap(),
        DocumentLocation::File("https://example.com/x".to_string())
    );
}

#[test]
fn config_location_is_the_argument_or_the_variable() {
    assert_eq!(resolve_config_location(some("a"), some("b")), Ok("a".to_string()));
    assert_eq!(resolve_config_location(some(" \t"), some(" b ")), Ok(" b ".to_string()));
    assert_eq!(resolve_config_location(None, some("b")), Ok("b".to_string()));
    assert_eq!(
        resolve_config_location(None, some("")),
        Err("missing config location: provide --config or set LPR_CONFIG_URI".to_string())
    );
}

#[test]
fn otel_variables_have_defaults() {
    let none = OtelEnv {
        traces_endpoint: None,
        endpoint: some(" "),
        propagators: None,
        metrics_exporter: None,
    };
    assert_eq!(
        configure_otel_env_defaults(&none),
        vec![
            ("OTEL_EXPORTER_OTLP_ENDPOINT", "http://localhost:4317"),
            ("OTEL_PROPAGATORS", "xray,tracecontext,baggage"),
            ("OTEL_METRICS_EXPORTER", "none"),
        ]
    );
    let all = OtelEnv {
        traces_endpoint: some("x"),
        endpoint: None,
        propagators: some("b3"),
        metrics_exporter: some("otlp"),
    };
    assert!(configure_otel_env_defaults(&all).is_empty());
}

#[test]
fn traces_endpoint_is_the_first_that_is_set() {
    assert_eq!(otlp_traces_endpoint_env(some(" a "), some("b")), some("a"));
    assert_eq!(otlp_traces_endpoint_env(None, some("b")), some("b"));
    assert_eq!(otlp_traces_endpoint_env(some(" "), some("b")), None);
    assert_eq!(otlp_traces_endpoint_env(None, None), None);
}

#[test]
fn endpoints_have_addresses() {
    assert_eq!(resolve_host_port("http://localhost:4317"), some("localhost:4317"));
    assert_eq!(resolve_host_port("https://collector/v1/traces"), some("collector:443"));
    assert_eq!(resolve_host_port("localhost:4317"), some("localhost:4317"));
    assert_eq!(resolve_host_port(" 10.0.0.1:4317// "), some("10.0.0.1:4317"));
    assert_eq!(resolve_host_port("collector"), None);
    assert_eq!(resolve_host_port("custom://collector"), None);
    assert_eq!(resolve_host_port("collector.local:4317/"), some("collector.local:4317"));
    assert_eq!(resolve_host_port("unix:/tmp/otel.sock"), None);
    assert_eq!(resolve_host_port("unix:otel.sock"), None);
    assert_eq!(resolve_host_port("file:///tmp/4317"), None);
    let parts = UrlParts {
        scheme: "x".to_string(),
        host: some("h"),
        port: Some(9),
        path: String::new(),
    };
    assert_eq!(host_port_of("x://h:9", Some(parts)), some("h:9"));
    assert_eq!(host_port_of("h:9", None), some("h:9"));
}

#[test]
fn the_batch_size_is_told_on_request() {
    assert!(includes_batch_size_header(&some("1")));
    assert!(!includes_batch_size_header(&some("0")));
    assert!(!includes_batch_size_header(&None));
}
