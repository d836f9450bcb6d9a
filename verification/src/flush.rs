//! What becomes of a batch once it is complete.
use vstd::multiset::Multiset;
use vstd::prelude::*;
use vstd::string::*;

use crate::buffered;
use crate::event;
use crate::event::BatchItem;
use crate::job;
use crate::job::InvocationJob;
use crate::job::Replies;
use crate::plan;
use crate::plan::InvocationPlan;
use crate::request;
use crate::request::BatchKey;
use crate::request::PendingRequest;
use crate::request::ResponseSink;
use crate::spec::InvokeMode;
use crate::str_map;
use crate::str_map::StrMap;
use crate::stream;
use crate::stream::StreamPending;

verus! {

/// One thing to be done for a batch.
#[derive(Debug)]
pub enum FlushStep<B, I, D> {
    /// Send responses.
    Answer(Replies<B, I>),
    /// Queue an invocation.
    Submit(InvocationJob<B, I, D>),
}

/// What is to be done.
#[verifier::ext_equal]
pub enum FlushView<B, I, D> {
    Answer(job::RepliesView<B, I>),
    Submit(job::JobView<B, I, D>),
}

impl<B, I, D> View for FlushStep<B, I, D> {
    type V = FlushView<B, I, D>;

    open spec fn view(&self) -> FlushView<B, I, D> {
        match self {
            FlushStep::Answer(r) => FlushView::Answer(r@),
            FlushStep::Submit(j) => FlushView::Submit(j@),
        }
    }
}

impl<B, I, D> FlushStep<B, I, D> {
    /// No request waits twice for a job.
    pub open spec fn wf(&self) -> bool {
        self matches FlushStep::Submit(j) ==> j.wf()
    }
}

/// The views of a sequence of steps.
pub open spec fn step_views<B, I, D>(steps: Seq<FlushStep<B, I, D>>) -> Seq<FlushView<B, I, D>> {
    Seq::new(steps.len(), |i: int| steps[i]@)
}

/// The requests of a batch that wait for buffered responses.
pub open spec fn buffered_sinks<B, I, D>(batch: Seq<PendingRequest<B, I, D>>) -> Seq<(Seq<char>, B)>
    decreases batch.len(),
{
    if batch.len() == 0 {
        Seq::empty()
    } else {
        let head = buffered_sinks(batch.drop_last());
        match batch.last().respond_to {
            ResponseSink::Buffered(tx) => str_map::with(head, batch.last().id@, tx),
            ResponseSink::Stream(_) => head,
        }
    }
}

/// The requests of a batch that wait for streamed responses.
pub open spec fn stream_sinks<B, I, D>(batch: Seq<PendingRequest<B, I, D>>) -> Seq<
    (Seq<char>, StreamPending<I, D>),
>
    decreases batch.len(),
{
    if batch.len() == 0 {
        Seq::empty()
    } else {
        let head = stream_sinks(batch.drop_last());
        match batch.last().respond_to {
            ResponseSink::Buffered(_) => head,
            ResponseSink::Stream(s) => str_map::with(
                head,
                batch.last().id@,
                StreamPending { init: Some(s.init), body: s.body },
            ),
        }
    }
}

/// What all jobs of a batch have in common.
#[derive(Debug, Clone, Copy)]
pub struct FlushConfig {
    /// How long the batch was open (milliseconds).
    pub wait_ms: u64,
    /// The bits of the estimated request rate, a double precision number.
    pub estimated_rps_bits: Option<u64>,
    /// When the batch was flushed (milliseconds since the epoch).
    pub received_at_ms: u64,
    /// Maximum JSON payload size sent to Lambda per invocation.
    pub max_invoke_payload_bytes: usize,
    /// Whether responses tell how many requests shared their invocation.
    pub report_batch_size: bool,
}

/// What is to be done for a plan of a buffered invocation.
pub open spec fn buffered_step<B, I, D>(
    plan: plan::PlanView<B>,
    key: request::BatchKeyView,
    cfg: FlushConfig,
) -> FlushView<B, I, D> {
    match plan {
        plan::PlanView::Fail { pending, status, msg } => FlushView::Answer(
            job::RepliesView::Buffered(
                buffered::failed(
                    pending,
                    buffered::size_tag(pending.len(), cfg.report_batch_size),
                    status,
                    msg,
                ),
            ),
        ),
        plan::PlanView::Invoke { pending, payload } => FlushView::Submit(
            job::JobView::Buffered {
                key,
                wait_ms: cfg.wait_ms,
                estimated_rps_bits: cfg.estimated_rps_bits,
                payload,
                pending,
            },
        ),
    }
}

/// What is to be done for a plan of a streamed invocation.
pub open spec fn stream_step<B, I, D>(
    plan: plan::PlanView<StreamPending<I, D>>,
    key: request::BatchKeyView,
    cfg: FlushConfig,
) -> FlushView<B, I, D> {
    match plan {
        plan::PlanView::Fail { pending, status, msg } => FlushView::Answer(
            job::RepliesView::Stream(
                stream::stream_failed(
                    pending,
                    buffered::size_tag(pending.len(), cfg.report_batch_size),
                    status,
                    msg,
                ),
            ),
        ),
        plan::PlanView::Invoke { pending, payload } => FlushView::Submit(
            job::JobView::Stream {
                key,
                wait_ms: cfg.wait_ms,
                estimated_rps_bits: cfg.estimated_rps_bits,
                payload,
                pending,
            },
        ),
    }
}

/// What is to be done for some plans of buffered invocations.
pub open spec fn buffered_steps<B, I, D>(
    plans: Seq<plan::PlanView<B>>,
    key: request::BatchKeyView,
    cfg: FlushConfig,
) -> Seq<FlushView<B, I, D>> {
    Seq::new(plans.len(), |i: int| buffered_step(plans[i], key, cfg))
}

/// What is to be done for some plans of streamed invocations.
pub open spec fn stream_steps<B, I, D>(
    plans: Seq<plan::PlanView<StreamPending<I, D>>>,
    key: request::BatchKeyView,
    cfg: FlushConfig,
) -> Seq<FlushView<B, I, D>> {
    Seq::new(plans.len(), |i: int| stream_step(plans[i], key, cfg))
}

/// The answer to the requests of a buffered batch that wait for streamed responses.
pub open spec fn stream_mismatch<B, I, D>(
    pending: Seq<(Seq<char>, StreamPending<I, D>)>,
    cfg: FlushConfig,
) -> Seq<FlushView<B, I, D>> {
    if pending.len() == 0 {
        Seq::empty()
    } else {
        seq![
            FlushView::Answer(
                job::RepliesView::Stream(
                    stream::stream_failed(
                        pending,
                        buffered::size_tag(pending.len(), cfg.report_batch_size),
                        502,
                        "unexpected streaming response sink"@,
                    ),
                ),
            ),
        ]
    }
}

/// The answer to the requests of a streamed batch that wait for buffered responses.
pub open spec fn buffered_mismatch<B, I, D>(
    pending: Seq<(Seq<char>, B)>,
    cfg: FlushConfig,
) -> Seq<FlushView<B, I, D>> {
    if pending.len() == 0 {
        Seq::empty()
    } else {
        seq![
            FlushView::Answer(
                job::RepliesView::Buffered(
                    buffered::failed(
                        pending,
                        buffered::size_tag(pending.len(), cfg.report_batch_size),
                        502,
                        "unexpected buffered response sink"@,
                    ),
                ),
            ),
        ]
    }
}

/// What is to be done for a batch: its requests that wait for the other kind of response are
/// answered, and its invocations are queued.
pub open spec fn flushed<B, I, D>(
    key: request::BatchKeyView,
    cfg: FlushConfig,
    batch: Seq<PendingRequest<B, I, D>>,
) -> Seq<FlushView<B, I, D>> {
    let items = event::request_items(batch, cfg.received_at_ms);
    let b = buffered_sinks(batch);
    let s = stream_sinks(batch);
    if key.invoke_mode == InvokeMode::Buffered {
        stream_mismatch::<B, I, D>(s, cfg) + buffered_steps(
            plan::planned(key.route, cfg.received_at_ms, cfg.max_invoke_payload_bytes, b, items),
            key,
            cfg,
        )
    } else {
        buffered_mismatch::<B, I, D>(b, cfg) + stream_steps(
            plan::planned(key.route, cfg.received_at_ms, cfg.max_invoke_payload_bytes, s, items),
            key,
            cfg,
        )
    }
}

/// The items of a batch, and the requests that wait for the two kinds of responses.
fn take_apart<B, I, D>(batch: Vec<PendingRequest<B, I, D>>, received_at_ms: u64) -> (r: (
    Vec<BatchItem>,
    StrMap<B>,
    StrMap<StreamPending<I, D>>,
))
    ensures
        event::items(r.0@) == event::request_items(batch@, received_at_ms),
        r.1@ == buffered_sinks(batch@),
        r.2@ == stream_sinks(batch@),
        r.1.wf(),
        r.2.wf(),
{
    let ghost all = batch@;
    let mut items: Vec<BatchItem> = Vec::new();
    let mut pending_buffered: StrMap<B> = StrMap::new();
    let mut pending_stream: StrMap<StreamPending<I, D>> = StrMap::new();
    proof {
        assert(all.take(0) =~= Seq::<PendingRequest<B, I, D>>::empty());
        assert(event::items(items@) =~= event::request_items(all.take(0), received_at_ms));
    }
    for req in it: batch
        invariant
            all == it.seq(),
            event::items(items@) == event::request_items(
                all.take(it.index() as int),
                received_at_ms,
            ),
            pending_buffered@ == buffered_sinks(all.take(it.index() as int)),
            pending_stream@ == stream_sinks(all.take(it.index() as int)),
            pending_buffered.wf(),
            pending_stream.wf(),
    {
        let ghost n = it.index() as int;
        let ghost before = event::items(items@);
        proof {
            assert(all.take(n + 1).drop_last() =~= all.take(n));
            assert(all.take(n + 1).last() == all[n]);
        }
        let id = req.id.clone();
        let (item, sink) = event::batch_item(req, received_at_ms);
        match sink {
            ResponseSink::Buffered(tx) => {
                pending_buffered.insert(id, tx);
            },
            ResponseSink::Stream(s) => {
                pending_stream.insert(id, StreamPending { init: Some(s.init), body: s.body });
            },
        }
        items.push(item);
        assert(event::items(items@) =~= before.push(item@));
        assert(event::items(items@) =~= event::request_items(all.take(n + 1), received_at_ms));
    }
    assert(all.take(all.len() as int) =~= all);
    (items, pending_buffered, pending_stream)
}

fn buffered_plan_step<B, I, D>(plan: InvocationPlan<B>, key: &BatchKey, cfg: &FlushConfig) -> (r:
    FlushStep<B, I, D>)
    requires
        plan.wf(),
    ensures
        r@ == buffered_step::<B, I, D>(plan@, key@, *cfg),
        r.wf(),
{
    match plan {
        InvocationPlan::Fail { pending, status, msg } => {
            let tag = buffered::batch_size_tag(&pending, cfg.report_batch_size);
            let replies = buffered::fail_all_buffered(pending, tag, status, msg.as_str());
            FlushStep::Answer(Replies::Buffered(replies))
        },
        InvocationPlan::Invoke { pending, payload } => FlushStep::Submit(
            InvocationJob::Buffered {
                key: key.copy(),
                wait_ms: cfg.wait_ms,
                estimated_rps_bits: cfg.estimated_rps_bits,
                payload,
                pending,
            },
        ),
    }
}

fn stream_plan_step<B, I, D>(
    plan: InvocationPlan<StreamPending<I, D>>,
    key: &BatchKey,
    cfg: &FlushConfig,
) -> (r: FlushStep<B, I, D>)
    requires
        plan.wf(),
    ensures
        r@ == stream_step::<B, I, D>(plan@, key@, *cfg),
        r.wf(),
{
    match plan {
        InvocationPlan::Fail { pending, status, msg } => {
            let tag = buffered::batch_size_tag(&pending, cfg.report_batch_size);
            let replies = stream::fail_all_stream(pending, tag, status, msg.as_str());
            FlushStep::Answer(Replies::Stream(replies))
        },
        InvocationPlan::Invoke { pending, payload } => FlushStep::Submit(
            InvocationJob::Stream {
                key: key.copy(),
                wait_ms: cfg.wait_ms,
                estimated_rps_bits: cfg.estimated_rps_bits,
                payload,
                pending,
            },
        ),
    }
}

/// What is to be done for a batch that is complete.
pub fn flush_batch<B, I, D>(
    key: &BatchKey,
    cfg: &FlushConfig,
    batch: Vec<PendingRequest<B, I, D>>,
) -> (r: Vec<FlushStep<B, I, D>>)
    ensures
        step_views(r@) == flushed(key@, *cfg, batch@),
        forall|i: int| 0 <= i < r@.len() ==> (#[trigger] r@[i]).wf(),
{
    let (items, pending_buffered, pending_stream) = take_apart(batch, cfg.received_at_ms);
    let mut out: Vec<FlushStep<B, I, D>> = Vec::new();
    if key.invoke_mode == InvokeMode::Buffered {
        let ghost s = pending_stream@;
        if !pending_stream.is_empty() {
            let tag = buffered::batch_size_tag(&pending_stream, cfg.report_batch_size);
            let replies = stream::fail_all_stream(
                pending_stream,
                tag,
                502,
                "unexpected streaming response sink",
            );
            out.push(FlushStep::Answer(Replies::Stream(replies)));
        }
        let ghost first = step_views(out@);
        assert(first =~= stream_mismatch::<B, I, D>(s, *cfg));
        let plans = plan::plan_invocations(
            key,
            cfg.received_at_ms,
            cfg.max_invoke_payload_bytes,
            pending_buffered,
            items,
        );
        let ghost all = buffered_steps::<B, I, D>(plan::plan_views(plans@), key@, *cfg);
        assert(first + all.take(0) =~= first);
        for p in it: plans
            invariant
                all == buffered_steps::<B, I, D>(plan::plan_views(it.seq()), key@, *cfg),
                forall|i: int| 0 <= i < it.seq().len() ==> (#[trigger] it.seq()[i]).wf(),
                step_views(out@) == first + all.take(it.index() as int),
                forall|i: int| 0 <= i < out@.len() ==> (#[trigger] out@[i]).wf(),
        {
            let ghost n = it.index() as int;
            let ghost before = step_views(out@);
            let step = buffered_plan_step(p, key, cfg);
            let ghost view = step@;
            out.push(step);
            assert(step_views(out@) =~= before.push(view));
            assert((first + all.take(n)).push(all[n]) =~= first + all.take(n + 1));
        }
        assert(all.take(all.len() as int) =~= all);
    } else {
        let ghost b = pending_buffered@;
        if !pending_buffered.is_empty() {
            let tag = buffered::batch_size_tag(&pending_buffered, cfg.report_batch_size);
            let replies = buffered::fail_all_buffered(
                pending_buffered,
                tag,
                502,
                "unexpected buffered response sink",
            );
            out.push(FlushStep::Answer(Replies::Buffered(replies)));
        }
        let ghost first = step_views(out@);
        assert(first =~= buffered_mismatch::<B, I, D>(b, *cfg));
        let plans = plan::plan_invocations(
            key,
            cfg.received_at_ms,
            cfg.max_invoke_payload_bytes,
            pending_stream,
            items,
        );
        let ghost all = stream_steps::<B, I, D>(plan::plan_views(plans@), key@, *cfg);
        assert(first + all.take(0) =~= first);
        for p in it: plans
            invariant
                all == stream_steps::<B, I, D>(plan::plan_views(it.seq()), key@, *cfg),
                forall|i: int| 0 <= i < it.seq().len() ==> (#[trigger] it.seq()[i]).wf(),
                step_views(out@) == first + all.take(it.index() as int),
                forall|i: int| 0 <= i < out@.len() ==> (#[trigger] out@[i]).wf(),
        {
            let ghost n = it.index() as int;
            let ghost before = step_views(out@);
            let step = stream_plan_step(p, key, cfg);
            let ghost view = step@;
            out.push(step);
            assert(step_views(out@) =~= before.push(view));
            assert((first + all.take(n)).push(all[n]) =~= first + all.take(n + 1));
        }
        assert(all.take(all.len() as int) =~= all);
    }
    out
}

/// One buffered sink.
pub open spec fn one_sink<B>() -> spec_fn(B) -> Multiset<B> {
    |tx: B| Multiset::singleton(tx)
}

/// The sink with which a streamed response begins.
pub open spec fn init_sink<I, D>() -> spec_fn(StreamPending<I, D>) -> Multiset<I> {
    |entry: StreamPending<I, D>| stream::sink_bag(entry.init)
}

/// The buffered sinks that a step answers or hands on.
pub open spec fn step_buffered<B, I, D>(step: FlushView<B, I, D>) -> Multiset<B> {
    match step {
        FlushView::Answer(job::RepliesView::Buffered(r)) => buffered::reply_sinks(r).to_multiset(),
        FlushView::Submit(job::JobView::Buffered { pending, .. }) => plan::bag(pending, one_sink()),
        _ => Multiset::empty(),
    }
}

/// The sinks of streamed responses that a step answers or hands on.
pub open spec fn step_stream<B, I, D>(step: FlushView<B, I, D>) -> Multiset<I> {
    match step {
        FlushView::Answer(job::RepliesView::Stream(r)) => buffered::reply_sinks(r).to_multiset(),
        FlushView::Submit(job::JobView::Stream { pending, .. }) => plan::bag(pending, init_sink()),
        _ => Multiset::empty(),
    }
}

/// The buffered sinks that some steps answer or hand on.
pub open spec fn steps_buffered<B, I, D>(steps: Seq<FlushView<B, I, D>>) -> Multiset<B>
    decreases steps.len(),
{
    if steps.len() == 0 {
        Multiset::empty()
    } else {
        steps_buffered(steps.drop_last()).add(step_buffered(steps.last()))
    }
}

/// The sinks of streamed responses that some steps answer or hand on.
pub open spec fn steps_stream<B, I, D>(steps: Seq<FlushView<B, I, D>>) -> Multiset<I>
    decreases steps.len(),
{
    if steps.len() == 0 {
        Multiset::empty()
    } else {
        steps_stream(steps.drop_last()).add(step_stream(steps.last()))
    }
}

/// The buffered sinks of a batch.
pub open spec fn batch_buffered<B, I, D>(batch: Seq<PendingRequest<B, I, D>>) -> Multiset<B>
    decreases batch.len(),
{
    if batch.len() == 0 {
        Multiset::empty()
    } else {
        let head = batch_buffered(batch.drop_last());
        match batch.last().respond_to {
            ResponseSink::Buffered(tx) => head.insert(tx),
            ResponseSink::Stream(_) => head,
        }
    }
}

/// The sinks of streamed responses of a batch.
pub open spec fn batch_stream<B, I, D>(batch: Seq<PendingRequest<B, I, D>>) -> Multiset<I>
    decreases batch.len(),
{
    if batch.len() == 0 {
        Multiset::empty()
    } else {
        let head = batch_stream(batch.drop_last());
        match batch.last().respond_to {
            ResponseSink::Buffered(_) => head,
            ResponseSink::Stream(s) => head.insert(s.init),
        }
    }
}

/// No two requests have the same id.
pub open spec fn distinct_requests<B, I, D>(batch: Seq<PendingRequest<B, I, D>>) -> bool {
    forall|i: int, j: int| 0 <= i < j < batch.len() ==> (#[trigger] batch[i]).id@ != (
    #[trigger] batch[j]).id@
}

proof fn lemma_failed_bag<B>(
    pending: Seq<(Seq<char>, B)>,
    tag: Option<usize>,
    status: u16,
    msg: Seq<char>,
)
    ensures
        buffered::reply_sinks(buffered::failed(pending, tag, status, msg)).to_multiset()
            == plan::bag(pending, one_sink()),
    decreases pending.len(),
{
    broadcast use vstd::seq_lib::group_to_multiset_ensures;

    let sinks = buffered::reply_sinks(buffered::failed(pending, tag, status, msg));
    if pending.len() == 0 {
        assert(sinks.to_multiset() =~= plan::bag(pending, one_sink()));
    } else {
        let head = pending.drop_last();
        lemma_failed_bag(head, tag, status, msg);
        let rest = buffered::reply_sinks(buffered::failed(head, tag, status, msg));
        assert(sinks =~= rest.push(pending.last().1));
        assert(sinks.to_multiset() =~= plan::bag(pending, one_sink()));
    }
}

proof fn lemma_stream_failed_bag<I, D>(
    pending: Seq<(Seq<char>, StreamPending<I, D>)>,
    tag: Option<usize>,
    status: u16,
    msg: Seq<char>,
)
    ensures
        buffered::reply_sinks(stream::stream_failed(pending, tag, status, msg)).to_multiset()
            == plan::bag(pending, init_sink()),
    decreases pending.len(),
{
    broadcast use vstd::seq_lib::group_to_multiset_ensures;

    stream::lemma_failure_answers_everyone(pending, tag, status, msg);
    if pending.len() > 0 {
        let head = pending.drop_last();
        lemma_stream_failed_bag(head, tag, status, msg);
        stream::lemma_failure_answers_everyone(head, tag, status, msg);
    }
    assert(stream::open_sinks(pending).to_multiset() =~= plan::bag(pending, init_sink()));
}

proof fn lemma_buffered_steps_bag<B, I, D>(
    plans: Seq<plan::PlanView<B>>,
    key: request::BatchKeyView,
    cfg: FlushConfig,
)
    ensures
        steps_buffered(buffered_steps::<B, I, D>(plans, key, cfg)) == plan::plan_bag(
            plans,
            one_sink(),
        ),
        steps_stream(buffered_steps::<B, I, D>(plans, key, cfg)) == Multiset::<I>::empty(),
    decreases plans.len(),
{
    let steps = buffered_steps::<B, I, D>(plans, key, cfg);
    if plans.len() > 0 {
        lemma_buffered_steps_bag::<B, I, D>(plans.drop_last(), key, cfg);
        assert(steps.drop_last() =~= buffered_steps::<B, I, D>(plans.drop_last(), key, cfg));
        match plans.last() {
            plan::PlanView::Fail { pending, status, msg } => lemma_failed_bag(
                pending,
                buffered::size_tag(pending.len(), cfg.report_batch_size),
                status,
                msg,
            ),
            _ => {},
        }
    }
    assert(steps_buffered(steps) =~= plan::plan_bag(plans, one_sink()));
    assert(steps_stream(steps) =~= Multiset::<I>::empty());
}

proof fn lemma_stream_steps_bag<B, I, D>(
    plans: Seq<plan::PlanView<StreamPending<I, D>>>,
    key: request::BatchKeyView,
    cfg: FlushConfig,
)
    ensures
        steps_stream(stream_steps::<B, I, D>(plans, key, cfg)) == plan::plan_bag(
            plans,
            init_sink(),
        ),
        steps_buffered(stream_steps::<B, I, D>(plans, key, cfg)) == Multiset::<B>::empty(),
    decreases plans.len(),
{
    let steps = stream_steps::<B, I, D>(plans, key, cfg);
    if plans.len() > 0 {
        lemma_stream_steps_bag::<B, I, D>(plans.drop_last(), key, cfg);
        assert(steps.drop_last() =~= stream_steps::<B, I, D>(plans.drop_last(), key, cfg));
        match plans.last() {
            plan::PlanView::Fail { pending, status, msg } => lemma_stream_failed_bag(
                pending,
                buffered::size_tag(pending.len(), cfg.report_batch_size),
                status,
                msg,
            ),
            _ => {},
        }
    }
    assert(steps_stream(steps) =~= plan::plan_bag(plans, init_sink()));
    assert(steps_buffered(steps) =~= Multiset::<B>::empty());
}

proof fn lemma_steps_add<B, I, D>(a: Seq<FlushView<B, I, D>>, b: Seq<FlushView<B, I, D>>)
    ensures
        steps_buffered(a + b) == steps_buffered(a).add(steps_buffered(b)),
        steps_stream(a + b) == steps_stream(a).add(steps_stream(b)),
    decreases b.len(),
{
    if b.len() == 0 {
        assert(a + b =~= a);
    } else {
        lemma_steps_add(a, b.drop_last());
        assert((a + b).drop_last() =~= a + b.drop_last());
    }
    assert(steps_buffered(a + b) =~= steps_buffered(a).add(steps_buffered(b)));
    assert(steps_stream(a + b) =~= steps_stream(a).add(steps_stream(b)));
}

/// The requests of a batch wait under their ids, and their sinks are those of the batch.
proof fn lemma_sinks<B, I, D>(batch: Seq<PendingRequest<B, I, D>>)
    requires
        distinct_requests(batch),
    ensures
        str_map::distinct_keys(buffered_sinks(batch)),
        str_map::distinct_keys(stream_sinks(batch)),
        forall|k: Seq<char>| #[trigger]
            str_map::has_key(buffered_sinks(batch), k) ==> exists|i: int|
                0 <= i < batch.len() && (#[trigger] batch[i]).id@ == k,
        forall|k: Seq<char>| #[trigger]
            str_map::has_key(stream_sinks(batch), k) ==> exists|i: int|
                0 <= i < batch.len() && (#[trigger] batch[i]).id@ == k,
        plan::bag(buffered_sinks(batch), one_sink()) == batch_buffered(batch),
        plan::bag(stream_sinks(batch), init_sink()) == batch_stream(batch),
    decreases batch.len(),
{
    let b = buffered_sinks(batch);
    let s = stream_sinks(batch);
    if batch.len() > 0 {
        let head = batch.drop_last();
        let last = batch.last();
        let id = last.id@;
        assert forall|i: int, j: int| 0 <= i < j < head.len() implies (#[trigger] head[i]).id@ != (
        #[trigger] head[j]).id@ by {
            assert(batch[i].id@ != batch[j].id@);
        }
        lemma_sinks(head);
        let hb = buffered_sinks(head);
        let hs = stream_sinks(head);
        str_map::lemma_key_index(hb, id);
        str_map::lemma_key_index(hs, id);
        if str_map::has_key(hb, id) {
            let i = choose|i: int| 0 <= i < head.len() && (#[trigger] head[i]).id@ == id;
            assert(batch[i].id@ != batch[batch.len() - 1].id@);
        }
        if str_map::has_key(hs, id) {
            let i = choose|i: int| 0 <= i < head.len() && (#[trigger] head[i]).id@ == id;
            assert(batch[i].id@ != batch[batch.len() - 1].id@);
        }
        assert(batch[batch.len() - 1].id@ == id);
        match last.respond_to {
            ResponseSink::Buffered(tx) => {
                str_map::lemma_with(hb, id, tx);
                assert(b.drop_last() =~= hb);
                assert(plan::bag(b, one_sink()) =~= batch_buffered(batch));
                assert forall|k: Seq<char>| #[trigger] str_map::has_key(b, k) implies exists|i: int|
                    0 <= i < batch.len() && (#[trigger] batch[i]).id@ == k by {
                    if k != id {
                        assert(str_map::lookup(b, k) == str_map::lookup(hb, k));
                        assert(str_map::has_key(hb, k));
                        let i = choose|i: int| 0 <= i < head.len() && (#[trigger] head[i]).id@ == k;
                        assert(batch[i].id@ == k);
                    }
                }
                assert forall|k: Seq<char>| #[trigger] str_map::has_key(s, k) implies exists|i: int|
                    0 <= i < batch.len() && (#[trigger] batch[i]).id@ == k by {
                    let i = choose|i: int| 0 <= i < head.len() && (#[trigger] head[i]).id@ == k;
                    assert(batch[i].id@ == k);
                }
            },
            ResponseSink::Stream(x) => {
                let entry = StreamPending { init: Some(x.init), body: x.body };
                str_map::lemma_with(hs, id, entry);
                assert(s.drop_last() =~= hs);
                assert(plan::bag(s, init_sink()) =~= batch_stream(batch));
                assert forall|k: Seq<char>| #[trigger] str_map::has_key(s, k) implies exists|i: int|
                    0 <= i < batch.len() && (#[trigger] batch[i]).id@ == k by {
                    if k != id {
                        assert(str_map::lookup(s, k) == str_map::lookup(hs, k));
                        assert(str_map::has_key(hs, k));
                        let i = choose|i: int| 0 <= i < head.len() && (#[trigger] head[i]).id@ == k;
                        assert(batch[i].id@ == k);
                    }
                }
                assert forall|k: Seq<char>| #[trigger] str_map::has_key(b, k) implies exists|i: int|
                    0 <= i < batch.len() && (#[trigger] batch[i]).id@ == k by {
                    let i = choose|i: int| 0 <= i < head.len() && (#[trigger] head[i]).id@ == k;
                    assert(batch[i].id@ == k);
                }
            },
        }
    }
}

/// Every request of a batch is answered or handed to an invocation, exactly once, and nobody
/// else is.
pub proof fn lemma_flush_serves_everyone_once<B, I, D>(
    key: request::BatchKeyView,
    cfg: FlushConfig,
    batch: Seq<PendingRequest<B, I, D>>,
)
    requires
        distinct_requests(batch),
    ensures
        steps_buffered(flushed(key, cfg, batch)) == batch_buffered(batch),
        steps_stream(flushed(key, cfg, batch)) == batch_stream(batch),
{
    let items = event::request_items(batch, cfg.received_at_ms);
    let b = buffered_sinks(batch);
    let s = stream_sinks(batch);
    let t = cfg.received_at_ms;
    let m = cfg.max_invoke_payload_bytes;
    lemma_sinks(batch);
    reveal_with_fuel(steps_buffered, 2);
    reveal_with_fuel(steps_stream, 2);
    if key.invoke_mode == InvokeMode::Buffered {
        let plans = plan::planned(key.route, t, m, b, items);
        let first = stream_mismatch::<B, I, D>(s, cfg);
        let steps = buffered_steps::<B, I, D>(plans, key, cfg);
        lemma_buffered_steps_bag::<B, I, D>(plans, key, cfg);
        plan::lemma_planning_keeps_all_requests(key.route, t, m, b, items, one_sink());
        lemma_steps_add(first, steps);
        lemma_stream_failed_bag(
            s,
            buffered::size_tag(s.len(), cfg.report_batch_size),
            502,
            "unexpected streaming response sink"@,
        );
        if s.len() > 0 {
            assert(first.drop_last() =~= Seq::<FlushView<B, I, D>>::empty());
        }
        assert(steps_stream(first) =~= plan::bag(s, init_sink()));
        assert(steps_buffered(first) =~= Multiset::<B>::empty());
    } else {
        let plans = plan::planned(key.route, t, m, s, items);
        let first = buffered_mismatch::<B, I, D>(b, cfg);
        let steps = stream_steps::<B, I, D>(plans, key, cfg);
        lemma_stream_steps_bag::<B, I, D>(plans, key, cfg);
        plan::lemma_planning_keeps_all_requests(key.route, t, m, s, items, init_sink());
        lemma_steps_add(first, steps);
        lemma_failed_bag(
            b,
            buffered::size_tag(b.len(), cfg.report_batch_size),
            502,
            "unexpected buffered response sink"@,
        );
        if b.len() > 0 {
            assert(first.drop_last() =~= Seq::<FlushView<B, I, D>>::empty());
        }
        assert(steps_buffered(first) =~= plan::bag(b, one_sink()));
        assert(steps_stream(first) =~= Multiset::<I>::empty());
    }
    assert(steps_buffered(flushed(key, cfg, batch)) =~= batch_buffered(batch));
    assert(steps_stream(flushed(key, cfg, batch)) =~= batch_stream(batch));
}

} // verus!
