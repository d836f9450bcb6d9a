//! A request on its way to a batch, and the key of the batch that it joins.
use vstd::prelude::*;
use vstd::string::*;

use crate::response::RouterResponse;
use crate::spec;
use crate::spec::BatchKeyDimension;
use crate::spec::DynamicWaitConfig;
use crate::spec::InvokeMode;
use crate::spec::OperationConfig;
use crate::str_map;
use crate::str_map::StrMap;
use crate::text;

verus! {

/// Where the response to a request goes: a buffered response through a `B`, the start of a
/// streamed response through an `I` and its chunks through a `D`.
#[derive(Debug)]
pub enum ResponseSink<B, I, D> {
    Buffered(B),
    Stream(StreamSender<I, D>),
}

#[derive(Debug)]
pub struct StreamSender<I, D> {
    pub init: I,
    pub body: D,
}

/// The start of a streamed response.
#[derive(Debug)]
pub enum StreamInit {
    /// The whole response.
    Response(RouterResponse),
    /// The head of a response whose body follows in chunks.
    Stream(StreamHead),
}

#[derive(Debug)]
pub struct StreamHead {
    pub status: u16,
    pub headers: http::HeaderMap,
}

/// A single HTTP request waiting to be included in a batch.
#[derive(Debug)]
pub struct PendingRequest<B, I, D> {
    /// Router-generated request identifier (unique within the batch).
    pub id: String,
    pub method: String,
    pub path: String,
    /// The matched OpenAPI route template (e.g. `/v1/items/{id}`).
    pub route: String,
    /// Path parameters extracted from the route template (e.g. `{ "id": "123" }`).
    pub path_params: StrMap<String>,
    pub headers: StrMap<String>,
    pub query: StrMap<String>,
    /// Raw query string as received (without the leading `?`).
    pub raw_query_string: String,
    pub body: Vec<u8>,
    pub respond_to: ResponseSink<B, I, D>,
}

/// What the batches of a batch key have in common.
#[derive(Debug, PartialEq, Eq, Hash)]
pub struct BatchKey {
    pub target_lambda: String,
    pub method: String,
    pub route: String,
    pub invoke_mode: InvokeMode,
    pub key_values: Vec<Option<String>>,
}

/// What a batch key says.
#[verifier::ext_equal]
pub struct BatchKeyView {
    pub target_lambda: Seq<char>,
    pub method: Seq<char>,
    pub route: Seq<char>,
    pub invoke_mode: InvokeMode,
    pub key_values: Seq<Option<Seq<char>>>,
}

/// The views of a sequence of optional strings.
pub open spec fn opt_texts(values: Seq<Option<String>>) -> Seq<Option<Seq<char>>> {
    Seq::new(values.len(), |i: int| text::opt_text(values[i]))
}

impl View for BatchKey {
    type V = BatchKeyView;

    open spec fn view(&self) -> BatchKeyView {
        BatchKeyView {
            target_lambda: self.target_lambda@,
            method: self.method@,
            route: self.route@,
            invoke_mode: self.invoke_mode,
            key_values: opt_texts(self.key_values@),
        }
    }
}

/// The value of a request under a batch key dimension.
pub open spec fn dimension_value(
    dim: spec::DimensionView,
    headers: Seq<(Seq<char>, Seq<char>)>,
    query: Seq<(Seq<char>, Seq<char>)>,
) -> Option<Seq<char>> {
    match dim {
        spec::DimensionView::Header(name) => str_map::lookup(headers, name),
        spec::DimensionView::Query(name) => str_map::lookup(query, name),
    }
}

/// The batch key of a request with these headers and query parameters under an operation.
pub open spec fn batch_key(
    op: spec::OperationView,
    headers: Seq<(Seq<char>, Seq<char>)>,
    query: Seq<(Seq<char>, Seq<char>)>,
) -> BatchKeyView {
    BatchKeyView {
        target_lambda: op.target_lambda,
        method: op.method,
        route: op.route_template,
        invoke_mode: op.invoke_mode,
        key_values: Seq::new(op.key.len(), |i: int| dimension_value(op.key[i], headers, query)),
    }
}

/// Requests of one operation share a batch key exactly where they agree on every key
/// dimension of the operation.
pub proof fn lemma_same_batch_key(
    op: spec::OperationView,
    headers1: Seq<(Seq<char>, Seq<char>)>,
    query1: Seq<(Seq<char>, Seq<char>)>,
    headers2: Seq<(Seq<char>, Seq<char>)>,
    query2: Seq<(Seq<char>, Seq<char>)>,
)
    ensures
        batch_key(op, headers1, query1) == batch_key(op, headers2, query2) <==> (forall|i: int|
            0 <= i < op.key.len() ==> #[trigger] dimension_value(op.key[i], headers1, query1)
                == dimension_value(op.key[i], headers2, query2)),
{
    let k1 = batch_key(op, headers1, query1);
    let k2 = batch_key(op, headers2, query2);
    if k1 == k2 {
        assert forall|i: int| 0 <= i < op.key.len() implies #[trigger] dimension_value(
            op.key[i],
            headers1,
            query1,
        ) == dimension_value(op.key[i], headers2, query2) by {
            assert(k1.key_values[i] == k2.key_values[i]);
        }
    }
    if forall|i: int|
        0 <= i < op.key.len() ==> #[trigger] dimension_value(op.key[i], headers1, query1)
            == dimension_value(op.key[i], headers2, query2) {
        assert(k1 =~= k2);
    }
}

/// Requests whose operations differ in the target, the method, the route template or the
/// invoke mode never share a batch key.
pub proof fn lemma_operations_are_batched_apart(
    op1: spec::OperationView,
    headers1: Seq<(Seq<char>, Seq<char>)>,
    query1: Seq<(Seq<char>, Seq<char>)>,
    op2: spec::OperationView,
    headers2: Seq<(Seq<char>, Seq<char>)>,
    query2: Seq<(Seq<char>, Seq<char>)>,
)
    requires
        op1.target_lambda != op2.target_lambda || op1.method != op2.method || op1.route_template
            != op2.route_template || op1.invoke_mode != op2.invoke_mode,
    ensures
        batch_key(op1, headers1, query1) != batch_key(op2, headers2, query2),
{
}

/// A copy of the text under a key.
pub fn get_text(entries: &StrMap<String>, key: &str) -> (r: Option<String>)
    ensures
        text::opt_text(r) == str_map::lookup(str_map::text_entries(entries@), key@),
{
    proof {
        str_map::lemma_text_entries(entries@, key@);
        str_map::lemma_key_index(entries@, key@);
    }
    match entries.get(key) {
        Some(v) => Some(v.clone()),
        None => None,
    }
}

impl BatchKey {
    /// A copy of a batch key.
    pub fn copy(&self) -> (r: Self)
        ensures
            r@ == self@,
    {
        let mut key_values: Vec<Option<String>> = Vec::new();
        let mut i: usize = 0;
        while i < self.key_values.len()
            invariant
                i <= self.key_values@.len(),
                opt_texts(key_values@) =~= opt_texts(self.key_values@).take(i as int),
            decreases self.key_values@.len() - i,
        {
            let ghost before = opt_texts(key_values@);
            let value = text::clone_opt(&self.key_values[i]);
            key_values.push(value);
            assert(opt_texts(key_values@) =~= before.push(text::opt_text(value)));
            i = i + 1;
        }
        let r = BatchKey {
            target_lambda: self.target_lambda.clone(),
            method: self.method.clone(),
            route: self.route.clone(),
            invoke_mode: self.invoke_mode,
            key_values,
        };
        assert(r@ =~= self@);
        r
    }

    /// The batch key of a request under an operation.
    pub fn from_operation_and_request<B, I, D>(
        op: &OperationConfig,
        req: &PendingRequest<B, I, D>,
    ) -> (r: Self)
        ensures
            r@ == batch_key(
                op@,
                str_map::text_entries(req.headers@),
                str_map::text_entries(req.query@),
            ),
    {
        let ghost key = batch_key(
            op@,
            str_map::text_entries(req.headers@),
            str_map::text_entries(req.query@),
        );
        let mut key_values: Vec<Option<String>> = Vec::new();
        let mut i: usize = 0;
        while i < op.key.len()
            invariant
                i <= op.key@.len(),
                key == batch_key(
                    op@,
                    str_map::text_entries(req.headers@),
                    str_map::text_entries(req.query@),
                ),
                opt_texts(key_values@) =~= key.key_values.take(i as int),
            decreases op.key@.len() - i,
        {
            let ghost before = opt_texts(key_values@);
            assert(op@.key[i as int] == op.key@[i as int]@);
            let value = match &op.key[i] {
                BatchKeyDimension::Header(name) => get_text(&req.headers, name.as_str()),
                BatchKeyDimension::Query(name) => get_text(&req.query, name.as_str()),
            };
            key_values.push(value);
            assert(opt_texts(key_values@) =~= before.push(text::opt_text(value)));
            i = i + 1;
        }
        let r = BatchKey {
            target_lambda: op.target_lambda.clone(),
            method: op.method.clone(),
            route: op.route_template.clone(),
            invoke_mode: op.invoke_mode,
            key_values,
        };
        assert(r@ =~= key);
        r
    }
}

/// Batching limits and resource caps.
#[derive(Debug, Clone, Copy)]
pub struct BatchingConfig {
    /// Global in-flight invocation limit across all routes.
    pub max_inflight_invocations: usize,
    /// Maximum number of queued invocation jobs waiting to be executed.
    ///
    /// When full, the router rejects new batches with 429 to avoid unbounded memory growth.
    pub max_pending_invocations: usize,
    /// Per-batch-key queue depth.
    pub max_queue_depth_per_key: usize,
    /// Idle eviction time for per-key batcher tasks (milliseconds).
    pub idle_ttl_ms: u64,
    /// Maximum JSON payload size sent to Lambda per invocation.
    pub max_invoke_payload_bytes: usize,
    /// Whether responses tell how many requests shared their invocation.
    pub report_batch_size: bool,
}

/// When the batches of a batch key are flushed.
#[derive(Debug, Clone, Copy)]
pub struct BatcherConfig {
    pub max_wait_ms: u64,
    pub max_batch_size: usize,
    pub dynamic_wait: Option<DynamicWaitConfig>,
}

impl BatcherConfig {
    /// The batching of an operation.
    pub fn from_operation(op: &OperationConfig) -> (r: Self)
        ensures
            r.max_wait_ms == op.max_wait_ms,
            r.max_batch_size == op.max_batch_size,
            r.dynamic_wait == op.dynamic_wait,
    {
        BatcherConfig {
            max_wait_ms: op.max_wait_ms,
            max_batch_size: op.max_batch_size,
            dynamic_wait: op.dynamic_wait,
        }
    }
}

} // verus!
