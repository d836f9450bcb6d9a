//! OpenAPI-like routing: templates, operations and the matcher.
//!
//! The router uses a small subset of OpenAPI (`paths` and HTTP methods) and vendor extensions
//! that name the Lambda target and set the batching behaviour of an operation.
use vstd::prelude::*;

use crate::http_types;
use crate::path;
use crate::route_table;
use crate::str_map;
use crate::str_map::StrMap;
use crate::text;

verus! {

/// How the router invokes Lambda for an operation.
#[derive(Debug, Clone, Copy, PartialEq, Eq, Hash, Structural)]
pub enum InvokeMode {
    /// Synchronous `Invoke` returning a single buffered payload.
    Buffered,
    /// `InvokeWithResponseStream` returning a byte stream (used with NDJSON records).
    ResponseStream,
}

impl Default for InvokeMode {
    fn default() -> (r: Self)
        ensures
            r == InvokeMode::Buffered,
    {
        InvokeMode::Buffered
    }
}

/// How the wait of a batch follows the request rate of its batch key.
///
/// The two rates are the bits of double precision numbers.
#[derive(Debug, Clone, Copy, PartialEq, Eq, Structural)]
pub struct DynamicWaitConfig {
    /// Lower bound of the wait (milliseconds).
    pub min_wait_ms: u64,
    /// Request rate (requests per second) on which the sigmoid is centered.
    pub target_rps_bits: u64,
    /// Steepness of the sigmoid around the target rate.
    pub steepness_bits: u64,
    /// Sampling period (milliseconds).
    pub sampling_interval_ms: u64,
    /// Number of samples in the moving average.
    pub smoothing_samples: usize,
}

/// `x-lpr` vendor extension (per operation).
#[derive(Debug)]
pub struct LprOperationConfig {
    /// Maximum time (in milliseconds) to wait before flushing a batch.
    pub max_wait_ms: u64,
    /// Maximum number of requests per batch.
    pub max_batch_size: usize,
    /// Optional per-request timeout override (milliseconds).
    pub timeout_ms: Option<u64>,
    /// Invocation mode.
    pub invoke_mode: InvokeMode,
    /// Additional dimensions of the batch key.
    pub key: Vec<String>,
    /// Optional dynamic batching.
    pub dynamic_wait: Option<DynamicWaitConfig>,
}

/// One operation entry under a path item.
#[derive(Debug)]
pub struct Operation {
    pub operation_id: Option<String>,
    /// Lambda function name or ARN.
    pub target_lambda: String,
    /// Router-specific operation configuration.
    pub lpr: LprOperationConfig,
}

/// OpenAPI-like "path item" containing method operations.
#[derive(Debug)]
pub struct PathItem {
    pub get: Option<Operation>,
    pub post: Option<Operation>,
    pub put: Option<Operation>,
    pub delete: Option<Operation>,
    pub patch: Option<Operation>,
    pub head: Option<Operation>,
    pub options: Option<Operation>,
}

impl Default for PathItem {
    fn default() -> (r: Self)
        ensures
            r.get is None,
            r.post is None,
            r.put is None,
            r.delete is None,
            r.patch is None,
            r.head is None,
            r.options is None,
    {
        PathItem {
            get: None,
            post: None,
            put: None,
            delete: None,
            patch: None,
            head: None,
            options: None,
        }
    }
}

/// Minimal OpenAPI-like document that holds only `paths`, in the order in which they are
/// compiled.
#[derive(Debug)]
pub struct OpenApiLikeSpec {
    pub paths: Vec<(String, PathItem)>,
}

/// The templates of some paths.
pub open spec fn path_names(paths: Seq<(String, PathItem)>) -> Seq<Seq<char>> {
    Seq::new(paths.len(), |i: int| paths[i].0@)
}

impl OpenApiLikeSpec {
    /// No path occurs twice, and the paths stand in the order of their templates.
    pub open spec fn wf(&self) -> bool {
        text::ascending(path_names(self.paths@))
    }
}

/// A request property that separates batches.
#[derive(Debug)]
pub enum BatchKeyDimension {
    /// The value of a header, by its name in lower case.
    Header(String),
    /// The value of a query parameter, by its exact name.
    Query(String),
}

/// What a batch key dimension names.
#[verifier::ext_equal]
pub enum DimensionView {
    Header(Seq<char>),
    Query(Seq<char>),
}

impl View for BatchKeyDimension {
    type V = DimensionView;

    open spec fn view(&self) -> DimensionView {
        match self {
            BatchKeyDimension::Header(n) => DimensionView::Header(n@),
            BatchKeyDimension::Query(n) => DimensionView::Query(n@),
        }
    }
}

/// The views of a sequence of dimensions.
pub open spec fn dimensions(key: Seq<BatchKeyDimension>) -> Seq<DimensionView> {
    Seq::new(key.len(), |i: int| key[i]@)
}

/// Fully resolved per-operation configuration used by the router at runtime.
#[derive(Debug)]
pub struct OperationConfig {
    pub route_template: String,
    pub method: String,
    pub operation_id: Option<String>,
    pub target_lambda: String,
    pub max_wait_ms: u64,
    pub max_batch_size: usize,
    pub timeout_ms: u64,
    pub invoke_mode: InvokeMode,
    pub key: Vec<BatchKeyDimension>,
    pub dynamic_wait: Option<DynamicWaitConfig>,
}

/// What an operation configuration says.
#[verifier::ext_equal]
pub struct OperationView {
    pub route_template: Seq<char>,
    pub method: Seq<char>,
    pub operation_id: Option<Seq<char>>,
    pub target_lambda: Seq<char>,
    pub max_wait_ms: u64,
    pub max_batch_size: usize,
    pub timeout_ms: u64,
    pub invoke_mode: InvokeMode,
    pub key: Seq<DimensionView>,
    pub dynamic_wait: Option<DynamicWaitConfig>,
}

impl View for OperationConfig {
    type V = OperationView;

    open spec fn view(&self) -> OperationView {
        OperationView {
            route_template: self.route_template@,
            method: self.method@,
            operation_id: text::opt_text(self.operation_id),
            target_lambda: self.target_lambda@,
            max_wait_ms: self.max_wait_ms,
            max_batch_size: self.max_batch_size,
            timeout_ms: self.timeout_ms,
            invoke_mode: self.invoke_mode,
            key: dimensions(self.key@),
            dynamic_wait: self.dynamic_wait,
        }
    }
}

/// The views of a sequence of operations.
pub open spec fn operations(ops: Seq<OperationConfig>) -> Seq<OperationView> {
    Seq::new(ops.len(), |i: int| ops[i]@)
}

/// The entries of `key` that name what every batch key holds anyway.
pub open spec fn is_implied_dimension(entry: Seq<char>) -> bool {
    ||| entry == "method"@
    ||| entry == "route"@
    ||| entry == "lambda"@
    ||| entry == "target_lambda"@
    ||| entry == "target-lambda"@
}

/// Where an error of an operation occurred.
pub open spec fn place(method: Seq<char>, route: Seq<char>) -> Seq<char> {
    " for "@ + method + " "@ + route
}

/// A message about an operation.
fn at_place(reason: &str, method: &str, route: &str) -> (r: String)
    ensures
        r@ == reason@ + place(method@, route@),
{
    let mut out = reason.to_owned();
    out.append(" for ");
    out.append(method);
    out.append(" ");
    out.append(route);
    assert(out@ =~= reason@ + place(method@, route@));
    out
}

/// The dimension that an entry of `key` names, `None` for one that is implied, or what is
/// wrong with it.
pub open spec fn parsed_dimension(entry: Seq<char>) -> Result<Option<DimensionView>, Seq<char>> {
    if is_implied_dimension(entry) {
        Ok(None)
    } else if text::has_prefix(entry, "header:"@) {
        let name = entry.skip("header:"@.len() as int);
        if http_types::valid_header_name(name) {
            Ok(Some(DimensionView::Header(text::lower_text(name))))
        } else {
            Err("x-lpr.key has an invalid header name: "@ + entry)
        }
    } else if text::has_prefix(entry, "query:"@) {
        Ok(Some(DimensionView::Query(entry.skip("query:"@.len() as int))))
    } else {
        Err("x-lpr.key has an unsupported entry: "@ + entry)
    }
}

/// Reads one entry of `key`.
fn parse_dimension(entry: &str) -> (r: Result<Option<BatchKeyDimension>, String>)
    ensures
        match parsed_dimension(entry@) {
            Ok(None) => r matches Ok(None),
            Ok(Some(d)) => r matches Ok(Some(x)) && x@ == d,
            Err(e) => r matches Err(m) && m@ == e,
        },
{
    if text::same_text(entry, "method") || text::same_text(entry, "route") || text::same_text(
        entry,
        "lambda",
    ) || text::same_text(entry, "target_lambda") || text::same_text(entry, "target-lambda") {
        return Ok(None);
    }
    if let Some(name) = text::strip_prefix(entry, "header:") {
        return match http_types::header_name(name.as_str()) {
            Ok(n) => Ok(Some(BatchKeyDimension::Header(n))),
            Err(_) => Err(text::concat("x-lpr.key has an invalid header name: ", entry)),
        };
    }
    if let Some(name) = text::strip_prefix(entry, "query:") {
        return Ok(Some(BatchKeyDimension::Query(name)));
    }
    Err(text::concat("x-lpr.key has an unsupported entry: ", entry))
}

/// The dimensions that the entries of `key` name, in order, behind those read so far, or the
/// first error. No dimension may occur twice.
pub open spec fn parsed_key(entries: Seq<Seq<char>>, acc: Seq<DimensionView>) -> Result<
    Seq<DimensionView>,
    Seq<char>,
>
    decreases entries.len(),
{
    if entries.len() == 0 {
        Ok(acc)
    } else {
        match parsed_dimension(entries[0]) {
            Err(e) => Err(e),
            Ok(None) => parsed_key(entries.drop_first(), acc),
            Ok(Some(d)) => if acc.contains(d) {
                Err("x-lpr.key has a duplicate entry: "@ + entries[0])
            } else {
                parsed_key(entries.drop_first(), acc.push(d))
            },
        }
    }
}

fn same_dimension(a: &BatchKeyDimension, b: &BatchKeyDimension) -> (r: bool)
    ensures
        r == (a@ == b@),
{
    match (a, b) {
        (BatchKeyDimension::Header(x), BatchKeyDimension::Header(y)) => text::same_text(
            x.as_str(),
            y.as_str(),
        ),
        (BatchKeyDimension::Query(x), BatchKeyDimension::Query(y)) => text::same_text(
            x.as_str(),
            y.as_str(),
        ),
        _ => false,
    }
}

fn has_dimension(key: &Vec<BatchKeyDimension>, d: &BatchKeyDimension) -> (r: bool)
    ensures
        r == dimensions(key@).contains(d@),
{
    let mut i: usize = 0;
    while i < key.len()
        invariant
            i <= key@.len(),
            forall|j: int| 0 <= j < i ==> dimensions(key@)[j] != d@,
        decreases key@.len() - i,
    {
        if same_dimension(&key[i], d) {
            assert(dimensions(key@)[i as int] == d@);
            return true;
        }
        i = i + 1;
    }
    false
}

/// Reads the entries of `key`.
fn parse_key(entries: &Vec<String>) -> (r: Result<Vec<BatchKeyDimension>, String>)
    ensures
        match parsed_key(text::texts(entries@), Seq::empty()) {
            Ok(k) => r matches Ok(v) && dimensions(v@) == k,
            Err(e) => r matches Err(m) && m@ == e,
        },
{
    let ghost all = text::texts(entries@);
    let mut out: Vec<BatchKeyDimension> = Vec::new();
    let mut i: usize = 0;
    assert(all.skip(0) =~= all);
    assert(dimensions(out@) =~= Seq::<DimensionView>::empty());
    while i < entries.len()
        invariant
            i <= entries@.len(),
            all == text::texts(entries@),
            parsed_key(all, Seq::empty()) == parsed_key(all.skip(i as int), dimensions(out@)),
        decreases entries@.len() - i,
    {
        proof {
            assert(all.skip(i as int)[0] == entries@[i as int]@);
            assert(all.skip(i as int).drop_first() =~= all.skip(i + 1));
        }
        match parse_dimension(entries[i].as_str()) {
            Err(e) => {
                return Err(e);
            },
            Ok(None) => {},
            Ok(Some(d)) => {
                if has_dimension(&out, &d) {
                    return Err(
                        text::concat("x-lpr.key has a duplicate entry: ", entries[i].as_str()),
                    );
                }
                let ghost before = dimensions(out@);
                out.push(d);
                assert(dimensions(out@) =~= before.push(d@));
            },
        }
        i = i + 1;
    }
    Ok(out)
}

/// No dimension of a key that was read occurs twice.
pub proof fn lemma_key_dimensions_are_distinct(entries: Seq<Seq<char>>, acc: Seq<DimensionView>)
    requires
        acc.no_duplicates(),
    ensures
        parsed_key(entries, acc) matches Ok(k) ==> k.no_duplicates(),
    decreases entries.len(),
{
    if entries.len() > 0 {
        match parsed_dimension(entries[0]) {
            Err(_) => {},
            Ok(None) => lemma_key_dimensions_are_distinct(entries.drop_first(), acc),
            Ok(Some(d)) => if !acc.contains(d) {
                lemma_key_dimensions_are_distinct(entries.drop_first(), acc.push(d));
            },
        }
    }
}

/// The bits of positive infinity, above those of every finite number that is not negative.
pub const INFINITY_BITS: u64 = 0x7ff0_0000_0000_0000;

/// The bits of negative zero.
pub const NEGATIVE_ZERO_BITS: u64 = 0x8000_0000_0000_0000;

/// Whether the bits are those of a finite number that is at least zero.
pub open spec fn finite_at_least_zero(bits: u64) -> bool {
    bits < INFINITY_BITS || bits == NEGATIVE_ZERO_BITS
}

/// Whether the bits are those of a finite number above zero.
pub open spec fn finite_above_zero(bits: u64) -> bool {
    0 < bits < INFINITY_BITS
}

/// What is wrong with the dynamic wait of an operation whose longest wait is `max_wait_ms`.
pub open spec fn dynamic_wait_fault(cfg: DynamicWaitConfig, max_wait_ms: u64) -> Option<Seq<char>> {
    if cfg.min_wait_ms > max_wait_ms {
        Some("x-lpr.dynamic_wait.min_wait_ms must be <= max_wait_ms"@)
    } else if !finite_at_least_zero(cfg.target_rps_bits) {
        Some("x-lpr.dynamic_wait.target_rps must be finite and >= 0"@)
    } else if !finite_above_zero(cfg.steepness_bits) {
        Some("x-lpr.dynamic_wait.steepness must be finite and > 0"@)
    } else if cfg.sampling_interval_ms == 0 {
        Some("x-lpr.dynamic_wait.sampling_interval_ms must be > 0"@)
    } else if cfg.smoothing_samples == 0 {
        Some("x-lpr.dynamic_wait.smoothing_samples must be > 0"@)
    } else {
        None
    }
}

fn check_dynamic_wait(cfg: &DynamicWaitConfig, max_wait_ms: u64) -> (r: Result<(), &'static str>)
    ensures
        match dynamic_wait_fault(*cfg, max_wait_ms) {
            None => r is Ok,
            Some(e) => r matches Err(m) && m@ == e,
        },
{
    if cfg.min_wait_ms > max_wait_ms {
        Err("x-lpr.dynamic_wait.min_wait_ms must be <= max_wait_ms")
    } else if !(cfg.target_rps_bits < INFINITY_BITS || cfg.target_rps_bits == NEGATIVE_ZERO_BITS) {
        Err("x-lpr.dynamic_wait.target_rps must be finite and >= 0")
    } else if !(0 < cfg.steepness_bits && cfg.steepness_bits < INFINITY_BITS) {
        Err("x-lpr.dynamic_wait.steepness must be finite and > 0")
    } else if cfg.sampling_interval_ms == 0 {
        Err("x-lpr.dynamic_wait.sampling_interval_ms must be > 0")
    } else if cfg.smoothing_samples == 0 {
        Err("x-lpr.dynamic_wait.smoothing_samples must be > 0")
    } else {
        Ok(())
    }
}

/// The configuration of an operation, or what is wrong with it.
pub open spec fn resolved_operation(
    route: Seq<char>,
    method: Seq<char>,
    op: Operation,
    default_timeout_ms: u64,
) -> Result<OperationView, Seq<char>> {
    if op.lpr.max_batch_size == 0 {
        Err("x-lpr.max_batch_size must be > 0"@ + place(method, route))
    } else {
        match parsed_key(text::texts(op.lpr.key@), Seq::empty()) {
            Err(e) => Err(e + place(method, route)),
            Ok(key) => {
                let fault = match op.lpr.dynamic_wait {
                    Some(d) => dynamic_wait_fault(d, op.lpr.max_wait_ms),
                    None => None,
                };
                match fault {
                    Some(e) => Err(e + place(method, route)),
                    None => Ok(
                        OperationView {
                            route_template: route,
                            method,
                            operation_id: text::opt_text(op.operation_id),
                            target_lambda: op.target_lambda@,
                            max_wait_ms: op.lpr.max_wait_ms,
                            max_batch_size: op.lpr.max_batch_size,
                            timeout_ms: match op.lpr.timeout_ms {
                                Some(t) => t,
                                None => default_timeout_ms,
                            },
                            invoke_mode: op.lpr.invoke_mode,
                            key,
                            dynamic_wait: op.lpr.dynamic_wait,
                        },
                    ),
                }
            },
        }
    }
}

/// The operations with one more, where there is one.
pub open spec fn with_operation(
    ops: Seq<OperationView>,
    route: Seq<char>,
    method: Seq<char>,
    op: Option<Operation>,
    default_timeout_ms: u64,
) -> Result<Seq<OperationView>, Seq<char>> {
    match op {
        None => Ok(ops),
        Some(o) => match resolved_operation(route, method, o, default_timeout_ms) {
            Ok(c) => Ok(ops.push(c)),
            Err(e) => Err(e),
        },
    }
}

/// Resolves an operation and adds it to those of its route.
fn add_op(
    ops: &mut Vec<OperationConfig>,
    route_template: &str,
    method: &str,
    op: Option<Operation>,
    default_timeout_ms: u64,
) -> (r: Result<(), String>)
    ensures
        match with_operation(
            operations(old(ops)@),
            route_template@,
            method@,
            op,
            default_timeout_ms,
        ) {
            Ok(all) => r is Ok && operations(final(ops)@) == all,
            Err(e) => r matches Err(m) && m@ == e,
        },
{
    let op = match op {
        Some(o) => o,
        None => {
            return Ok(());
        },
    };
    if op.lpr.max_batch_size == 0 {
        return Err(at_place("x-lpr.max_batch_size must be > 0", method, route_template));
    }
    let key = match parse_key(&op.lpr.key) {
        Ok(k) => k,
        Err(e) => {
            return Err(at_place(e.as_str(), method, route_template));
        },
    };
    if let Some(d) = &op.lpr.dynamic_wait {
        match check_dynamic_wait(d, op.lpr.max_wait_ms) {
            Ok(()) => {},
            Err(e) => {
                return Err(at_place(e, method, route_template));
            },
        }
    }
    let timeout_ms: u64 = match op.lpr.timeout_ms {
        Some(t) => t,
        None => default_timeout_ms,
    };
    let ghost before = operations(ops@);
    ops.push(
        OperationConfig {
            route_template: route_template.to_owned(),
            method: method.to_owned(),
            operation_id: op.operation_id,
            target_lambda: op.target_lambda,
            max_wait_ms: op.lpr.max_wait_ms,
            max_batch_size: op.lpr.max_batch_size,
            timeout_ms,
            invoke_mode: op.lpr.invoke_mode,
            key,
            dynamic_wait: op.lpr.dynamic_wait,
        },
    );
    assert(operations(ops@) =~= before.push(ops@.last()@));
    Ok(())
}

/// The operations of a path item under their methods.
pub open spec fn item_operations(item: PathItem) -> Seq<(Seq<char>, Option<Operation>)> {
    seq![
        ("GET"@, item.get),
        ("POST"@, item.post),
        ("PUT"@, item.put),
        ("DELETE"@, item.delete),
        ("PATCH"@, item.patch),
        ("HEAD"@, item.head),
        ("OPTIONS"@, item.options),
    ]
}

/// The operations of a route, resolved in order behind those so far, or the first error.
pub open spec fn resolved_operations(
    entries: Seq<(Seq<char>, Option<Operation>)>,
    route: Seq<char>,
    default_timeout_ms: u64,
    acc: Seq<OperationView>,
) -> Result<Seq<OperationView>, Seq<char>>
    decreases entries.len(),
{
    if entries.len() == 0 {
        Ok(acc)
    } else {
        match with_operation(acc, route, entries[0].0, entries[0].1, default_timeout_ms) {
            Ok(ops) => resolved_operations(entries.drop_first(), route, default_timeout_ms, ops),
            Err(e) => Err(e),
        }
    }
}

/// The operations of a path item, or the first error.
pub open spec fn resolved_item(route: Seq<char>, item: PathItem, default_timeout_ms: u64) -> Result<
    Seq<OperationView>,
    Seq<char>,
> {
    resolved_operations(item_operations(item), route, default_timeout_ms, Seq::empty())
}

/// Resolves the operations of a path item.
fn resolve_item(route_template: &str, item: PathItem, default_timeout_ms: u64) -> (r: Result<
    Vec<OperationConfig>,
    String,
>)
    ensures
        match resolved_item(route_template@, item, default_timeout_ms) {
            Ok(all) => r matches Ok(v) && operations(v@) == all,
            Err(e) => r matches Err(m) && m@ == e,
        },
{
    let ghost list = item_operations(item);
    let mut ops: Vec<OperationConfig> = Vec::new();
    let t = default_timeout_ms;
    proof {
        assert(operations(ops@) =~= Seq::<OperationView>::empty());
        reveal_with_fuel(resolved_operations, 8);
        assert(list.drop_first()[0] == list[1]);
        assert(list.drop_first().drop_first()[0] == list[2]);
        assert(list.drop_first().drop_first().drop_first()[0] == list[3]);
        assert(list.drop_first().drop_first().drop_first().drop_first()[0] == list[4]);
        assert(list.drop_first().drop_first().drop_first().drop_first().drop_first()[0] == list[5]);
        assert(
            list.drop_first().drop_first().drop_first().drop_first().drop_first().drop_first()[0]
            == list[6]
        );
    }
    match add_op(&mut ops, route_template, "GET", item.get, t) {
        Ok(()) => {},
        Err(e) => {
            return Err(e);
        },
    }
    match add_op(&mut ops, route_template, "POST", item.post, t) {
        Ok(()) => {},
        Err(e) => {
            return Err(e);
        },
    }
    match add_op(&mut ops, route_template, "PUT", item.put, t) {
        Ok(()) => {},
        Err(e) => {
            return Err(e);
        },
    }
    match add_op(&mut ops, route_template, "DELETE", item.delete, t) {
        Ok(()) => {},
        Err(e) => {
            return Err(e);
        },
    }
    match add_op(&mut ops, route_template, "PATCH", item.patch, t) {
        Ok(()) => {},
        Err(e) => {
            return Err(e);
        },
    }
    match add_op(&mut ops, route_template, "HEAD", item.head, t) {
        Ok(()) => {},
        Err(e) => {
            return Err(e);
        },
    }
    match add_op(&mut ops, route_template, "OPTIONS", item.options, t) {
        Ok(()) => {},
        Err(e) => {
            return Err(e);
        },
    }
    Ok(ops)
}

/// A route and its operations.
#[derive(Debug)]
struct RouteConfig {
    template: String,
    ops_by_method: Vec<OperationConfig>,
}

/// What is known of a route: its template and its operations.
pub type RouteView = (Seq<char>, Seq<OperationView>);

/// The entries of the route table: each route leads to its position.
pub open spec fn table(routes: Seq<RouteView>) -> Seq<(Seq<char>, usize)> {
    Seq::new(routes.len(), |i: int| (routes[i].0, i as usize))
}

/// The routes that a document gives, behind those so far, or the first error. A path without
/// operations gives none.
pub open spec fn compiled_routes(
    paths: Seq<(String, PathItem)>,
    default_timeout_ms: u64,
    acc: Seq<RouteView>,
) -> Result<Seq<RouteView>, Seq<char>>
    decreases paths.len(),
{
    if paths.len() == 0 {
        Ok(acc)
    } else {
        let template = paths[0].0@;
        match path::template_fault(template) {
            Some(f) => Err(path::fault_text(f, template)),
            None => match resolved_item(template, paths[0].1, default_timeout_ms) {
                Err(e) => Err(e),
                Ok(ops) => if ops.len() == 0 {
                    compiled_routes(paths.drop_first(), default_timeout_ms, acc)
                } else {
                    match route_table::route_error(table(acc), template) {
                        Some(e) => Err(e),
                        None => compiled_routes(
                            paths.drop_first(),
                            default_timeout_ms,
                            acc.push((template, ops)),
                        ),
                    }
                },
            },
        }
    }
}

/// The templates of some routes.
pub open spec fn route_names(routes: Seq<RouteView>) -> Seq<Seq<char>> {
    Seq::new(routes.len(), |i: int| routes[i].0)
}

/// The routes of a document whose paths stand in the order of their templates do so too, and no
/// two have the same template.
pub proof fn lemma_routes_are_distinct(
    paths: Seq<(String, PathItem)>,
    default_timeout_ms: u64,
    acc: Seq<RouteView>,
)
    requires
        text::ascending(route_names(acc) + path_names(paths)),
    ensures
        compiled_routes(paths, default_timeout_ms, acc) matches Ok(routes) ==> text::ascending(
            route_names(routes),
        ) && route_names(routes).no_duplicates(),
    decreases paths.len(),
{
    let names = route_names(acc) + path_names(paths);
    if paths.len() == 0 {
        assert(names =~= route_names(acc));
        text::lemma_ascending_texts_differ(names);
    } else {
        let template = paths[0].0@;
        let rest = paths.drop_first();
        let n = acc.len() as int;
        let without = route_names(acc) + path_names(rest);
        assert forall|i: int, j: int| 0 <= i < j < without.len() implies text::before(
            #[trigger] without[i],
            #[trigger] without[j],
        ) by {
            assert(without[i] == names[if i < n { i } else { i + 1 }]);
            assert(without[j] == names[if j < n { j } else { j + 1 }]);
        }
        lemma_routes_are_distinct(rest, default_timeout_ms, acc);
        if let Ok(ops) = resolved_item(template, paths[0].1, default_timeout_ms) {
            let next = acc.push((template, ops));
            assert(route_names(next) + path_names(rest) =~= names);
            lemma_routes_are_distinct(rest, default_timeout_ms, next);
        }
    }
}

/// Whether a path has an error of its own, whatever the other paths are.
pub open spec fn is_faulty(entry: (String, PathItem), default_timeout_ms: u64) -> bool {
    path::template_fault(entry.0@) is Some || resolved_item(
        entry.0@,
        entry.1,
        default_timeout_ms,
    ) is Err
}

/// Whether the parameters of a path, where it becomes a route, are not too many for the route
/// table.
pub open spec fn fits_table(entry: (String, PathItem), default_timeout_ms: u64) -> bool {
    !is_faulty(entry, default_timeout_ms) && resolved_item(
        entry.0@,
        entry.1,
        default_timeout_ms,
    )->Ok_0.len() > 0 ==> path::param_count(entry.0@) <= route_table::MAX_PARAMS
}

/// Whether no path up to the first one with an error has too many parameters for the route
/// table.
pub open spec fn fit_table(paths: Seq<(String, PathItem)>, default_timeout_ms: u64) -> bool {
    forall|i: int|
        0 <= i < paths.len() && (forall|j: int|
            0 <= j < i ==> !#[trigger] is_faulty(paths[j], default_timeout_ms))
            ==> #[trigger] fits_table(paths[i], default_timeout_ms)
}

/// The methods of a document, in the order of their names.
pub open spec fn sorted_methods() -> Seq<Seq<char>> {
    seq!["DELETE"@, "GET"@, "HEAD"@, "OPTIONS"@, "PATCH"@, "POST"@, "PUT"@]
}

/// What holds of every resolved operation of a route.
pub open spec fn sound_operation(op: OperationView, route: Seq<char>) -> bool {
    &&& op.route_template == route
    &&& sorted_methods().contains(op.method)
    &&& op.max_batch_size > 0
}

/// The resolved operations of a route belong to it, have methods of a document, and batch at
/// least one request.
pub proof fn lemma_resolved_operations_are_sound(
    entries: Seq<(Seq<char>, Option<Operation>)>,
    route: Seq<char>,
    default_timeout_ms: u64,
    acc: Seq<OperationView>,
)
    requires
        forall|i: int| 0 <= i < entries.len() ==> sorted_methods().contains((#[trigger] entries[i]).0),
        forall|i: int| 0 <= i < acc.len() ==> sound_operation(#[trigger] acc[i], route),
    ensures
        resolved_operations(entries, route, default_timeout_ms, acc) matches Ok(ops) ==> forall|i: int|
            0 <= i < ops.len() ==> sound_operation(#[trigger] ops[i], route),
    decreases entries.len(),
{
    if entries.len() > 0 {
        match with_operation(acc, route, entries[0].0, entries[0].1, default_timeout_ms) {
            Ok(ops) => {
                assert(sorted_methods().contains(entries[0].0));
                lemma_resolved_operations_are_sound(
                    entries.drop_first(),
                    route,
                    default_timeout_ms,
                    ops,
                );
            },
            Err(_) => {},
        }
    }
}

/// The methods of a path item are those of a document.
proof fn lemma_item_methods(item: PathItem)
    ensures
        forall|i: int|
            0 <= i < item_operations(item).len() ==> sorted_methods().contains(
                (#[trigger] item_operations(item)[i]).0,
            ),
{
    let m = sorted_methods();
    assert(m[0] == "DELETE"@ && m[1] == "GET"@ && m[2] == "HEAD"@ && m[3] == "OPTIONS"@ && m[4]
        == "PATCH"@ && m[5] == "POST"@ && m[6] == "PUT"@);
    assert(m.contains("DELETE"@) && m.contains("GET"@) && m.contains("HEAD"@) && m.contains(
        "OPTIONS"@,
    ) && m.contains("PATCH"@) && m.contains("POST"@) && m.contains("PUT"@));
}

/// What holds of the routes that a document gives: each is a template without a fault and has an
/// operation, and its operations belong to it.
pub open spec fn sound_routes(routes: Seq<RouteView>) -> bool {
    &&& forall|i: int|
        0 <= i < routes.len() ==> path::template_fault((#[trigger] routes[i]).0) is None
            && routes[i].1.len() > 0
    &&& forall|i: int, j: int|
        0 <= i < routes.len() && 0 <= j < routes[i].1.len() ==> sound_operation(
            #[trigger] routes[i].1[j],
            routes[i].0,
        )
}

/// A compiled route matcher.
#[derive(Debug)]
pub struct CompiledSpec {
    router: matchit::Router<usize>,
    routes: Vec<RouteConfig>,
}

/// Outcome of matching an incoming request to a configured operation.
#[derive(Debug)]
pub enum RouteMatch<'a> {
    /// No configured path matched.
    NotFound,
    /// Path matched but method wasn't configured.
    MethodNotAllowed { allowed: Vec<String> },
    /// Path and method matched and produced an operation config, with the values of the path
    /// parameters by their names.
    Matched { op: &'a OperationConfig, path_params: StrMap<String> },
}

/// What the outcome of matching a request says.
#[verifier::ext_equal]
pub enum RouteMatchView {
    NotFound,
    MethodNotAllowed { allowed: Seq<Seq<char>> },
    Matched { op: OperationView, path_params: Seq<(Seq<char>, Seq<char>)> },
}

impl<'a> View for RouteMatch<'a> {
    type V = RouteMatchView;

    open spec fn view(&self) -> RouteMatchView {
        match self {
            RouteMatch::NotFound => RouteMatchView::NotFound,
            RouteMatch::MethodNotAllowed { allowed } => RouteMatchView::MethodNotAllowed {
                allowed: text::texts(allowed@),
            },
            RouteMatch::Matched { op, path_params } => RouteMatchView::Matched {
                op: op@,
                path_params: str_map::text_entries(path_params@),
            },
        }
    }
}

/// The position of the first operation with a method, or the number of operations.
pub open spec fn method_index(ops: Seq<OperationView>, method: Seq<char>) -> nat
    decreases ops.len(),
{
    if ops.len() == 0 || ops[0].method == method {
        0
    } else {
        1 + method_index(ops.drop_first(), method)
    }
}

/// Whether there is an operation with a method.
pub open spec fn has_method(ops: Seq<OperationView>, method: Seq<char>) -> bool {
    method_index(ops, method) < ops.len()
}

/// The methods of some operations, in the order of their names.
pub open spec fn allowed_methods(ops: Seq<OperationView>) -> Seq<Seq<char>> {
    sorted_methods().filter(|m: Seq<char>| has_method(ops, m))
}

/// The entries of a map into which pairs were inserted one after another.
pub open spec fn inserted(
    pairs: Seq<(Seq<char>, Seq<char>)>,
    acc: Seq<(Seq<char>, Seq<char>)>,
) -> Seq<(Seq<char>, Seq<char>)>
    decreases pairs.len(),
{
    if pairs.len() == 0 {
        acc
    } else {
        inserted(pairs.drop_first(), str_map::with(acc, pairs[0].0, pairs[0].1))
    }
}

/// The outcome of matching a request against some routes, where the route table found
/// `found` for its path.
pub open spec fn matched_at(
    routes: Seq<RouteView>,
    method: Seq<char>,
    found: Option<(usize, Seq<(Seq<char>, Seq<char>)>)>,
) -> RouteMatchView {
    match found {
        None => RouteMatchView::NotFound,
        Some((i, params)) => {
            let ops = routes[i as int].1;
            if has_method(ops, method) {
                RouteMatchView::Matched {
                    op: ops[method_index(ops, method) as int],
                    path_params: inserted(params, Seq::empty()),
                }
            } else {
                RouteMatchView::MethodNotAllowed { allowed: allowed_methods(ops) }
            }
        },
    }
}

/// The position of a method is that of the first operation with it.
pub proof fn lemma_method_index(ops: Seq<OperationView>, method: Seq<char>)
    ensures
        method_index(ops, method) <= ops.len(),
        has_method(ops, method) ==> ops[method_index(ops, method) as int].method == method,
        forall|i: int| 0 <= i < method_index(ops, method) ==> (#[trigger] ops[i]).method != method,
    decreases ops.len(),
{
    if ops.len() > 0 && ops[0].method != method {
        lemma_method_index(ops.drop_first(), method);
        assert forall|i: int| 0 <= i < method_index(ops, method) implies (
        #[trigger] ops[i]).method != method by {
            if i > 0 {
                assert(ops.drop_first()[i - 1] == ops[i]);
            }
        }
    }
}

/// The allowed methods are those of the operations.
pub proof fn lemma_allowed_methods(ops: Seq<OperationView>, route: Seq<char>, method: Seq<char>)
    requires
        forall|i: int| 0 <= i < ops.len() ==> sound_operation(#[trigger] ops[i], route),
    ensures
        allowed_methods(ops).contains(method) <==> exists|i: int|
            0 <= i < ops.len() && (#[trigger] ops[i]).method == method,
{
    broadcast use vstd::seq_lib::group_filter_ensures;

    let pred = |m: Seq<char>| has_method(ops, m);
    let all = sorted_methods();
    lemma_method_index(ops, method);
    if exists|i: int| 0 <= i < ops.len() && (#[trigger] ops[i]).method == method {
        let i = choose|i: int| 0 <= i < ops.len() && (#[trigger] ops[i]).method == method;
        assert(sound_operation(ops[i], route));
        assert(pred(method));
        assert(all.contains(method));
        let k = all.index_of(method);
        assert(pred(all[k]));
        assert(all.filter(pred).contains(all[k]));
    }
    if allowed_methods(ops).contains(method) {
        let k = allowed_methods(ops).index_of(method);
        assert(pred(all.filter(pred)[k]));
    }
}

/// The allowed methods are listed in the order of their names.
pub proof fn lemma_allowed_methods_are_sorted(ops: Seq<OperationView>)
    ensures
        text::ascending(allowed_methods(ops)),
{
    reveal_strlit("DELETE");
    reveal_strlit("GET");
    reveal_strlit("HEAD");
    reveal_strlit("OPTIONS");
    reveal_strlit("PATCH");
    reveal_strlit("POST");
    reveal_strlit("PUT");
    reveal_with_fuel(text::before, 3);
    assert(text::ascending(sorted_methods()));
    text::lemma_filter_keeps_ascending(
        sorted_methods(),
        |m: Seq<char>| has_method(ops, m),
    );
}

/// Whether the outcomes `a` for a method `k` and `b` for a method `m` on one path agree. Both
/// find a route or neither does. A matched operation has the method that was asked for. Where
/// `m` is not allowed, there are methods that are, in the strict order of their names and without
/// `m`, and `k` is one of them exactly where it matches.
pub open spec fn agree(
    a: RouteMatchView,
    k: Seq<char>,
    b: RouteMatchView,
    m: Seq<char>,
) -> bool {
    &&& a is NotFound <==> b is NotFound
    &&& b matches RouteMatchView::Matched { op, .. } ==> op.method == m
    &&& b matches RouteMatchView::MethodNotAllowed { allowed } ==> {
        &&& allowed.len() > 0
        &&& text::ascending(allowed)
        &&& !allowed.contains(m)
        &&& allowed.contains(k) <==> a is Matched
    }
}

/// The outcomes for any two methods on one path agree.
pub proof fn lemma_methods_of_a_path(
    routes: Seq<RouteView>,
    found: Option<(usize, Seq<(Seq<char>, Seq<char>)>)>,
    k: Seq<char>,
    m: Seq<char>,
)
    requires
        sound_routes(routes),
        found matches Some(f) ==> f.0 < routes.len(),
    ensures
        agree(matched_at(routes, k, found), k, matched_at(routes, m, found), m),
{
    if let Some((i, _)) = found {
        let (route, ops) = routes[i as int];
        assert forall|j: int| 0 <= j < ops.len() implies sound_operation(
            #[trigger] ops[j],
            route,
        ) by {
            assert(sound_operation(routes[i as int].1[j], routes[i as int].0));
        }
        lemma_method_index(ops, k);
        lemma_method_index(ops, m);
        lemma_allowed_methods(ops, route, k);
        lemma_allowed_methods(ops, route, m);
        lemma_allowed_methods(ops, route, ops[0].method);
        lemma_allowed_methods_are_sorted(ops);
    }
}

fn find_method(ops: &Vec<OperationConfig>, method: &str) -> (r: usize)
    ensures
        r == method_index(operations(ops@), method@),
        r <= ops@.len(),
{
    let ghost all = operations(ops@);
    let mut i: usize = 0;
    assert(all.skip(0) =~= all);
    while i < ops.len() && !text::same_text(ops[i].method.as_str(), method)
        invariant
            i <= ops@.len(),
            all == operations(ops@),
            method_index(all, method@) == i + method_index(all.skip(i as int), method@),
        decreases ops@.len() - i,
    {
        assert(all.skip(i as int)[0] == all[i as int]);
        assert(all.skip(i as int).drop_first() =~= all.skip(i + 1));
        i = i + 1;
    }
    proof {
        if i < all.len() {
            assert(all.skip(i as int)[0] == all[i as int]);
        }
    }
    i
}

fn allow_method(allowed: &mut Vec<String>, ops: &Vec<OperationConfig>, method: &str)
    ensures
        text::texts(final(allowed)@) == if has_method(operations(ops@), method@) {
            text::texts(old(allowed)@).push(method@)
        } else {
            text::texts(old(allowed)@)
        },
{
    if find_method(ops, method) < ops.len() {
        let ghost before = text::texts(allowed@);
        allowed.push(method.to_owned());
        assert(text::texts(allowed@) =~= before.push(method@));
    }
}

fn allowed(ops: &Vec<OperationConfig>) -> (r: Vec<String>)
    ensures
        text::texts(r@) == allowed_methods(operations(ops@)),
{
    let ghost pred = |m: Seq<char>| has_method(operations(ops@), m);
    let ghost all = sorted_methods();
    let mut out: Vec<String> = Vec::new();
    assert(text::texts(out@) =~= Seq::<Seq<char>>::empty());
    allow_method(&mut out, ops, "DELETE");
    allow_method(&mut out, ops, "GET");
    allow_method(&mut out, ops, "HEAD");
    allow_method(&mut out, ops, "OPTIONS");
    allow_method(&mut out, ops, "PATCH");
    allow_method(&mut out, ops, "POST");
    allow_method(&mut out, ops, "PUT");
    proof {
        reveal(Seq::filter);
        reveal_with_fuel(Seq::filter, 8);
        assert(all.drop_last() =~= all.take(6));
        assert(all.take(6).drop_last() =~= all.take(5));
        assert(all.take(5).drop_last() =~= all.take(4));
        assert(all.take(4).drop_last() =~= all.take(3));
        assert(all.take(3).drop_last() =~= all.take(2));
        assert(all.take(2).drop_last() =~= all.take(1));
        assert(all.take(1).drop_last() =~= all.take(0));
        assert(all.take(0).filter(pred) =~= Seq::<Seq<char>>::empty());
    }
    out
}

/// Inserts pairs into a map one after another.
pub fn insert_all(pairs: Vec<(String, String)>) -> (r: StrMap<String>)
    ensures
        str_map::text_entries(r@) == inserted(route_table::pair_texts(pairs@), Seq::empty()),
        r.wf(),
{
    let ghost all = route_table::pair_texts(pairs@);
    let mut out: StrMap<String> = StrMap::new();
    proof {
        assert(str_map::text_entries(out@) =~= Seq::<(Seq<char>, Seq<char>)>::empty());
        assert(all.skip(0) =~= all);
    }
    for p in it: pairs
        invariant
            all == route_table::pair_texts(it.seq()),
            out.wf(),
            inserted(all, Seq::empty()) == inserted(
                all.skip(it.index() as int),
                str_map::text_entries(out@),
            ),
    {
        proof {
            let rest = all.skip(it.index() as int);
            assert(rest[0] == (p.0@, p.1@));
            assert(rest.drop_first() =~= all.skip(it.index() + 1));
            str_map::lemma_text_entries_with(out@, p.0@, p.1);
        }
        out.insert(p.0, p.1);
    }
    out
}

impl View for CompiledSpec {
    type V = Seq<RouteView>;

    closed spec fn view(&self) -> Seq<RouteView> {
        Seq::new(
            self.routes@.len(),
            |i: int| (self.routes@[i].template@, operations(self.routes@[i].ops_by_method@)),
        )
    }
}

impl CompiledSpec {
    /// The route table leads each path to its route, and the routes are those of a document.
    pub closed spec fn wf(&self) -> bool {
        route_table::router_routes(self.router) == table(self@) && sound_routes(self@)
    }

    /// Compiles a document into a matcher.
    pub fn compile(spec: OpenApiLikeSpec, default_timeout_ms: u64) -> (r: Result<Self, String>)
        requires
            fit_table(spec.paths@, default_timeout_ms),
        ensures
            match compiled_routes(spec.paths@, default_timeout_ms, Seq::empty()) {
                Ok(routes) => r matches Ok(c) && c.wf() && c@ == routes && sound_routes(routes),
                Err(e) => r matches Err(m) && m@ == e,
            },
    {
        let ghost all = spec.paths@;
        let mut out = CompiledSpec { router: route_table::router_new(), routes: Vec::new() };
        proof {
            assert(out@ =~= Seq::<RouteView>::empty());
            assert(table(out@) =~= route_table::no_routes());
            assert(all.skip(0) =~= all);
        }
        for entry in it: spec.paths
            invariant
                all == it.seq(),
                fit_table(all, default_timeout_ms),
                forall|j: int|
                    0 <= j < it.index() ==> !#[trigger] is_faulty(all[j], default_timeout_ms),
                out.wf(),
                compiled_routes(all, default_timeout_ms, Seq::empty()) == compiled_routes(
                    all.skip(it.index() as int),
                    default_timeout_ms,
                    out@,
                ),
        {
            let ghost rest = all.skip(it.index() as int);
            let ghost before = out@;
            proof {
                assert(rest[0] == entry);
                assert(fits_table(all[it.index() as int], default_timeout_ms));
                assert(rest.drop_first() =~= all.skip(it.index() + 1));
                lemma_item_methods(entry.1);
                lemma_resolved_operations_are_sound(
                    item_operations(entry.1),
                    entry.0@,
                    default_timeout_ms,
                    Seq::empty(),
                );
            }
            let (template, item) = entry;
            let matchit_path = match path::openapi_path_to_matchit(template.as_str()) {
                Ok(p) => p,
                Err(e) => {
                    return Err(e);
                },
            };
            let ops = match resolve_item(template.as_str(), item, default_timeout_ms) {
                Ok(o) => o,
                Err(e) => {
                    return Err(e);
                },
            };
            if ops.len() > 0 {
                let CompiledSpec { router, routes } = out;
                let mut routes = routes;
                let index: usize = routes.len();
                let router = match route_table::router_insert(
                    router,
                    matchit_path.as_str(),
                    index,
                ) {
                    Ok(n) => n,
                    Err(e) => {
                        return Err(e);
                    },
                };
                let ghost route: RouteView = (template@, operations(ops@));
                routes.push(RouteConfig { template, ops_by_method: ops });
                out = CompiledSpec { router, routes };
                proof {
                    assert(out@ =~= before.push(route));
                    assert(table(out@) =~= table(before).push((route.0, index)));
                    assert forall|i: int, j: int|
                        0 <= i < out@.len() && 0 <= j < out@[i].1.len() implies sound_operation(
                        #[trigger] out@[i].1[j],
                        out@[i].0,
                    ) by {
                        if i < before.len() {
                            assert(out@[i] == before[i]);
                            assert(sound_operation(before[i].1[j], before[i].0));
                        }
                    }
                }
            }
        }
        Ok(out)
    }

    /// Match an `(HTTP method, path)` pair.
    ///
    /// The router uses this to decide which Lambda to invoke, and which batching settings to
    /// apply. A matched path is the template of its operation with the path parameters put in.
    /// A method that is not allowed comes with those that are: exactly the methods for which
    /// the path matches.
    pub fn match_request<'a>(&'a self, method: &str, path: &str) -> (r: RouteMatch<'a>)
        requires
            self.wf(),
        ensures
            r@ == matched_at(
                self@,
                method@,
                route_table::route_lookup(table(self@), path@),
            ),
            r@ matches RouteMatchView::Matched { op, path_params } ==> exists|
                params: Seq<(Seq<char>, Seq<char>)>,
            | #[trigger]
                path::fits(op.route_template, params, path@) && path_params == inserted(
                    params,
                    Seq::empty(),
                ),
            sound_routes(self@),
            route_table::route_lookup(table(self@), path@) matches Some(f) ==> f.0 < self@.len(),
            forall|k: Seq<char>|
                agree(
                    #[trigger] matched_at(
                        self@,
                        k,
                        route_table::route_lookup(table(self@), path@),
                    ),
                    k,
                    r@,
                    method@,
                ),
    {
        assert(route_table::well_formed_routes(table(self@)));
        let found = route_table::router_at(&self.router, path);
        let ghost f = route_table::found_view(found);
        let r = self.match_found(method, found);
        proof {
            if let Some((i, params)) = f {
                let n = choose|n: int|
                    0 <= n < table(self@).len() && (#[trigger] table(self@)[n]).1 == i
                        && path::fits(table(self@)[n].0, params, path@);
                let ops = self@[n].1;
                assert(n < self.routes.len());
                lemma_method_index(ops, method@);
                if has_method(ops, method@) {
                    let k = method_index(ops, method@) as int;
                    assert(sound_operation(self@[n].1[k], self@[n].0));
                    assert(path::fits(ops[k].route_template, params, path@));
                }
            }
            assert forall|k: Seq<char>|
                agree(#[trigger] matched_at(self@, k, f), k, r@, method@) by {
                lemma_methods_of_a_path(self@, f, k, method@);
            }
        }
        r
    }

    /// The outcome for a request where the route table found `found` for its path: the
    /// position of a route and the parameters.
    pub fn match_found<'a>(
        &'a self,
        method: &str,
        found: Option<(usize, Vec<(String, String)>)>,
    ) -> (r: RouteMatch<'a>)
        requires
            found matches Some(f) ==> f.0 < self@.len(),
        ensures
            r@ == matched_at(self@, method@, route_table::found_view(found)),
            r matches RouteMatch::Matched { path_params, .. } ==> path_params.wf(),
    {
        let (index, params) = match found {
            Some(f) => f,
            None => {
                return RouteMatch::NotFound;
            },
        };
        let ops = &self.routes[index].ops_by_method;
        let i = find_method(ops, method);
        if i < ops.len() {
            let path_params = insert_all(params);
            RouteMatch::Matched { op: &ops[i], path_params }
        } else {
            RouteMatch::MethodNotAllowed { allowed: allowed(ops) }
        }
    }
}

} // verus!
