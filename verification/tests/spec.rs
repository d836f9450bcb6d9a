//! Path templates, compiled documents and route matching.
use lpr_router::path::openapi_path_to_matchit;
use lpr_router::spec::{
    BatchKeyDimension, CompiledSpec, DynamicWaitConfig, InvokeMode, LprOperationConfig,
    OpenApiLikeSpec, Operation, PathItem, RouteMatch,
};

fn lpr(max_wait_ms: u64, max_batch_size: usize) -> LprOperationConfig {
    LprOperationConfig {
        max_wait_ms,
        max_batch_size,
        timeout_ms: None,
        invoke_mode: InvokeMode::default(),
        key: vec![],
        dynamic_wait: None,
    }
}

fn operation(target: &str, lpr: LprOperationConfig) -> Operation {
    Operation { operation_id: None, target_lambda: target.to_string(), lpr }
}

fn document(path: &str, item: PathItem) -> OpenApiLikeSpec {
    OpenApiLikeSpec { paths: vec![(path.to_string(), item)] }
}

fn get_with_key(key: Vec<&str>) -> Result<CompiledSpec, String> {
    let mut cfg = lpr(1, 1);
    cfg.key = key.into_iter().map(|k| k.to_string()).collect();
    let item = PathItem { get: Some(operation("fn", cfg)), ..PathItem::default() };
    CompiledSpec::compile(document("/x", item), 1000)
}

fn get_with_dynamic_wait(d: DynamicWaitConfig) -> Result<CompiledSpec, String> {
    let mut cfg = lpr(100, 1);
    cfg.dynamic_wait = Some(d);
    let item = PathItem { get: Some(operation("fn", cfg)), ..PathItem::default() };
    CompiledSpec::compile(document("/x", item), 1000)
}

fn dynamic_wait() -> DynamicWaitConfig {
    DynamicWaitConfig {
        min_wait_ms: 1,
        target_rps_bits: 50.0f64.to_bits(),
        steepness_bits: 0.01f64.to_bits(),
        sampling_interval_ms: 100,
        smoothing_samples: 10,
    }
}

#[test]
fn converts_openapi_paths_to_matchit() {
    assert_eq!(openapi_path_to_matchit("/v1/items/{id}").unwrap(), "/v1/items/{id}");
}

#[test]
fn rejects_invalid_path_templates() {
    assert!(openapi_path_to_matchit("v1/items").is_err());
    assert!(openapi_path_to_matchit("/v1/{").is_err());
    assert!(openapi_path_to_matchit("/v1/}").is_err());
    assert!(openapi_path_to_matchit("/v1/{}").is_err());
    assert!(openapi_path_to_matchit("/v1/{{id}}").is_err());
}

#[test]
fn template_faults_are_named() {
    let fault = |p: &str| openapi_path_to_matchit(p).unwrap_err();
    assert_eq!(fault("v1/items"), "path templates must start with '/': v1/items");
    assert_eq!(fault(""), "path templates must start with '/': ");
    assert_eq!(fault("/v1/{"), "unclosed '{' in path template: /v1/{");
    assert_eq!(fault("/v1/}"), "unmatched '}' in path template: /v1/}");
    assert_eq!(fault("/v1/{}"), "empty '{}' param in path template: /v1/{}");
    assert_eq!(fault("/v1/{{id}}"), "nested '{' in path template: /v1/{{id}}");
    assert_eq!(fault("/{a}/{b"), "unclosed '{' in path template: /{a}/{b");
}

#[test]
fn matches_compiled_route_by_method() {
    let mut cfg = lpr(10, 16);
    cfg.timeout_ms = Some(2000);
    let mut op = operation("my-fn", cfg);
    op.operation_id = Some("getItem".to_string());
    let item = PathItem { get: Some(op), ..PathItem::default() };
    let spec = CompiledSpec::compile(document("/v1/items/{id}", item), 2500).unwrap();
    let RouteMatch::Matched { op, path_params } = spec.match_request("GET", "/v1/items/123")
    else {
        panic!("expected route match");
    };

    assert_eq!(op.route_template, "/v1/items/{id}");
    assert_eq!(op.target_lambda, "my-fn");
    assert_eq!(op.max_wait_ms, 10);
    assert_eq!(op.max_batch_size, 16);
    assert_eq!(op.timeout_ms, 2000);
    assert_eq!(op.operation_id.as_deref(), Some("getItem"));
    assert_eq!(path_params.len(), 1);
    assert_eq!(path_params.get("id").map(|s| s.as_str()), Some("123"));

    assert!(matches!(
        spec.match_request("POST", "/v1/items/123"),
        RouteMatch::MethodNotAllowed { .. }
    ));
}

#[test]
fn method_not_allowed_returns_sorted_allow_list() {
    let item = PathItem {
        post: Some(operation("fn", lpr(1, 1))),
        get: Some(operation("fn", lpr(1, 1))),
        ..PathItem::default()
    };
    let spec = CompiledSpec::compile(document("/x", item), 1000).unwrap();
    let RouteMatch::MethodNotAllowed { allowed } = spec.match_request("PUT", "/x") else {
        panic!("expected method not allowed");
    };
    assert_eq!(allowed, vec!["GET", "POST"]);
}

#[test]
fn all_methods_are_listed_in_order() {
    let op = || Some(operation("fn", lpr(1, 1)));
    let item = PathItem {
        get: op(),
        post: op(),
        put: op(),
        delete: op(),
        patch: op(),
        head: op(),
        options: op(),
    };
    let spec = CompiledSpec::compile(document("/x", item), 1000).unwrap();
    let RouteMatch::MethodNotAllowed { allowed } = spec.match_request("TRACE", "/x") else {
        panic!("expected method not allowed");
    };
    assert_eq!(allowed, vec!["DELETE", "GET", "HEAD", "OPTIONS", "PATCH", "POST", "PUT"]);
}

#[test]
fn ignores_paths_with_no_operations() {
    let spec = CompiledSpec::compile(document("/empty", PathItem::default()), 1000).unwrap();
    assert!(matches!(spec.match_request("GET", "/empty"), RouteMatch::NotFound));
}

#[test]
fn max_batch_size_must_be_positive() {
    let item = PathItem { get: Some(operation("fn", lpr(1, 0))), ..PathItem::default() };
    let err = CompiledSpec::compile(document("/x", item), 1000).unwrap_err();
    assert_eq!(err, "x-lpr.max_batch_size must be > 0 for GET /x");
}

#[test]
fn invoke_mode_defaults_to_buffered() {
    let item = PathItem { get: Some(operation("fn", lpr(1, 1))), ..PathItem::default() };
    let spec = CompiledSpec::compile(document("/x", item), 1000).unwrap();
    let RouteMatch::Matched { op, .. } = spec.match_request("GET", "/x") else {
        panic!("expected match");
    };
    assert_eq!(op.invoke_mode, InvokeMode::Buffered);
    assert_eq!(op.timeout_ms, 1000);
}

#[test]
fn static_segments_win_over_parameters() {
    let op = |name: &str| PathItem { get: Some(operation(name, lpr(1, 1))), ..PathItem::default() };
    let doc = OpenApiLikeSpec {
        paths: vec![
            ("/a/{x}".to_string(), op("param")),
            ("/a/b".to_string(), op("static")),
            ("/c/{x}/{y}".to_string(), op("two")),
        ],
    };
    let spec = CompiledSpec::compile(doc, 1000).unwrap();
    let target = |p: &str| match spec.match_request("GET", p) {
        RouteMatch::Matched { op, .. } => op.target_lambda.clone(),
        _ => "none".to_string(),
    };
    assert_eq!(target("/a/b"), "static");
    assert_eq!(target("/a/z"), "param");
    assert_eq!(target("/a"), "none");
    assert_eq!(target("/c/1/2"), "two");
    let RouteMatch::Matched { path_params, .. } = spec.match_request("GET", "/c/1/2") else {
        panic!("expected match");
    };
    assert_eq!(path_params.get("x").map(|s| s.as_str()), Some("1"));
    assert_eq!(path_params.get("y").map(|s| s.as_str()), Some("2"));
}

#[test]
fn conflicting_routes_are_an_error() {
    let op = || PathItem { get: Some(operation("fn", lpr(1, 1))), ..PathItem::default() };
    let doc = OpenApiLikeSpec {
        paths: vec![("/a/{x}".to_string(), op()), ("/a/{y}".to_string(), op())],
    };
    let err = CompiledSpec::compile(doc, 1000).unwrap_err();
    assert_eq!(
        err,
        "Insertion failed due to conflict with previously registered route: /a/{x}"
    );
}

#[test]
fn key_dimensions_are_read() {
    let spec = get_with_key(vec!["method", "header:X-Tenant-Id", "query:Version", "lambda"]);
    let spec = spec.unwrap();
    let RouteMatch::Matched { op, .. } = spec.match_request("GET", "/x") else {
        panic!("expected match");
    };
    assert_eq!(op.key.len(), 2);
    assert!(matches!(&op.key[0], BatchKeyDimension::Header(n) if n == "x-tenant-id"));
    assert!(matches!(&op.key[1], BatchKeyDimension::Query(n) if n == "Version"));
}

#[test]
fn wrong_key_dimensions_are_errors() {
    assert_eq!(
        get_with_key(vec!["header:a", "header:A"]).unwrap_err(),
        "x-lpr.key has a duplicate entry: header:A for GET /x"
    );
    assert_eq!(
        get_with_key(vec!["cookie:a"]).unwrap_err(),
        "x-lpr.key has an unsupported entry: cookie:a for GET /x"
    );
    assert_eq!(
        get_with_key(vec!["header:a b"]).unwrap_err(),
        "x-lpr.key has an invalid header name: header:a b for GET /x"
    );
    assert!(get_with_key(vec!["query:a", "query:A"]).is_ok());
}

#[test]
fn dynamic_wait_is_checked() {
    assert!(get_with_dynamic_wait(dynamic_wait()).is_ok());
    let err = |f: &dyn Fn(&mut DynamicWaitConfig)| {
        let mut d = dynamic_wait();
        f(&mut d);
        get_with_dynamic_wait(d).unwrap_err()
    };
    assert_eq!(
        err(&|d| d.min_wait_ms = 101),
        "x-lpr.dynamic_wait.min_wait_ms must be <= max_wait_ms for GET /x"
    );
    for bad in [f64::NAN, f64::INFINITY, -1.0] {
        assert_eq!(
            err(&|d| d.target_rps_bits = bad.to_bits()),
            "x-lpr.dynamic_wait.target_rps must be finite and >= 0 for GET /x"
        );
    }
    for bad in [f64::NAN, f64::INFINITY, -1.0, 0.0] {
        assert_eq!(
            err(&|d| d.steepness_bits = bad.to_bits()),
            "x-lpr.dynamic_wait.steepness must be finite and > 0 for GET /x"
        );
    }
    assert_eq!(
        err(&|d| d.sampling_interval_ms = 0),
        "x-lpr.dynamic_wait.sampling_interval_ms must be > 0 for GET /x"
    );
    assert_eq!(
        err(&|d| d.smoothing_samples = 0),
        "x-lpr.dynamic_wait.smoothing_samples must be > 0 for GET /x"
    );
    let mut zero = dynamic_wait();
    zero.target_rps_bits = (-0.0f64).to_bits();
    assert!(get_with_dynamic_wait(zero).is_ok());
}

#[test]
fn methods_of_a_path_agree() {
    let item = PathItem {
        get: Some(operation("read", lpr(1, 1))),
        delete: Some(operation("drop", lpr(1, 1))),
        ..PathItem::default()
    };
    let spec = CompiledSpec::compile(document("/v1/{id}", item), 1000).unwrap();
    for method in ["GET", "POST", "PUT", "DELETE", "PATCH", "HEAD", "OPTIONS", "TRACE", ""] {
        assert!(matches!(spec.match_request(method, "/v2/7"), RouteMatch::NotFound));
        match spec.match_request(method, "/v1/7") {
            RouteMatch::NotFound => panic!("expected a route"),
            RouteMatch::Matched { op, .. } => assert_eq!(op.method, method),
            RouteMatch::MethodNotAllowed { allowed } => {
                assert_eq!(allowed, vec!["DELETE", "GET"]);
                for other in &allowed {
                    assert!(matches!(
                        spec.match_request(other, "/v1/7"),
                        RouteMatch::Matched { .. }
                    ));
                }
            }
        }
    }
}
