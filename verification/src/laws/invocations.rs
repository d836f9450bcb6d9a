//! How the requests of a batch become invocations, and what an invocation that fails means.
use vstd::prelude::*;

use crate::event;
use crate::flush;
use crate::flush::FlushConfig;
use crate::flush::FlushView;
use crate::job;
use crate::job::InvocationJob;
use crate::job::JobStep;
use crate::job::LambdaInvokeResult;
use crate::plan;
use crate::plan::PlanView;
use crate::request;
use crate::request::PendingRequest;
use crate::request::ResponseSink;
use crate::response;
use crate::spec::InvokeMode;
use crate::str_map;
use crate::stream;
use crate::stream::StreamPending;

verus! {

/// A batch whose payload is not too large is one invocation, for all that wait.
pub proof fn lemma_fitting_batches_are_one_invocation<T>(
    route: Seq<char>,
    t: u64,
    max: usize,
    pending: Seq<(Seq<char>, T)>,
    batch: Seq<event::ItemView>,
)
    requires
        event::payload(route, t, batch).len() <= max,
    ensures
        plan::planned(route, t, max, pending, batch) == seq![
            PlanView::Invoke { pending, payload: event::payload(route, t, batch) },
        ],
{
}

/// A batch of more than one request whose payload is too large is cut into halves, each with
/// those that wait for it. A single request whose payload is too large fails.
pub proof fn lemma_large_batches_are_halved<T>(
    route: Seq<char>,
    t: u64,
    max: usize,
    pending: Seq<(Seq<char>, T)>,
    batch: Seq<event::ItemView>,
)
    requires
        event::payload(route, t, batch).len() > max,
    ensures
        batch.len() > 1 ==> ({
            let half = batch.len() as int / 2;
            let (left, right) = plan::split(pending, batch.take(half), Seq::empty());
            plan::planned(route, t, max, pending, batch) == plan::planned(
                route,
                t,
                max,
                left,
                batch.take(half),
            ) + plan::planned(route, t, max, right, batch.skip(half))
        }),
        batch.len() <= 1 ==> plan::planned(route, t, max, pending, batch) == seq![
            PlanView::Fail { pending, status: 502, msg: "invoke payload too large"@ },
        ],
{
}

/// An item of a batch that was cut is in one of the parts.
proof fn lemma_in_a_part(cut: Seq<Seq<event::ItemView>>, n: int) -> (at: (int, int))
    requires
        0 <= n < plan::joined(cut).len(),
    ensures
        0 <= at.0 < cut.len(),
        0 <= at.1 < cut[at.0].len(),
        cut[at.0][at.1] == plan::joined(cut)[n],
    decreases cut.len(),
{
    let head = plan::joined(cut.drop_last());
    if n < head.len() {
        let at = lemma_in_a_part(cut.drop_last(), n);
        assert(cut.drop_last()[at.0] == cut[at.0]);
        at
    } else {
        (cut.len() - 1, n - head.len())
    }
}

/// Whether a plan serves a request: an invocation that it waits for and whose payload holds its
/// item, or a failure that it gets because it is too large by itself.
pub open spec fn serves<T>(
    p: PlanView<T>,
    route: Seq<char>,
    t: u64,
    max: usize,
    item: event::ItemView,
    sink: T,
) -> bool {
    match p {
        PlanView::Invoke { pending, payload } => {
            &&& str_map::lookup(pending, item.id) == Some(sink)
            &&& payload.len() <= max
            &&& exists|part: Seq<event::ItemView>|
                part.contains(item) && payload == #[trigger] event::payload(route, t, part)
        },
        PlanView::Fail { pending, status, msg } => {
            &&& str_map::lookup(pending, item.id) == Some(sink)
            &&& event::payload(route, t, seq![item]).len() > max
            &&& status == 502
            &&& msg == "invoke payload too large"@
        },
    }
}

/// Every request of a batch is served by a plan.
proof fn lemma_every_item_is_served<T>(
    route: Seq<char>,
    t: u64,
    max: usize,
    pending: Seq<(Seq<char>, T)>,
    batch: Seq<event::ItemView>,
    n: int,
) -> (j: int)
    requires
        str_map::distinct_keys(pending),
        plan::distinct_ids(batch),
        0 <= n < batch.len(),
        str_map::lookup(pending, batch[n].id) is Some,
    ensures
        0 <= j < plan::planned(route, t, max, pending, batch).len(),
        serves(
            plan::planned(route, t, max, pending, batch)[j],
            route,
            t,
            max,
            batch[n],
            str_map::lookup(pending, batch[n].id)->0,
        ),
{
    let plans = plan::planned(route, t, max, pending, batch);
    let cut = plan::parts(route, t, max, batch);
    plan::lemma_plans_cover_the_batch(route, t, max, pending, batch);
    let (j, i) = lemma_in_a_part(cut, n);
    plan::lemma_request_waits_for_its_part(route, t, max, pending, batch, j, i);
    assert(plan::plan_of_part(plans[j], route, t, max, cut[j]));
    assert(cut[j].contains(cut[j][i]));
    if plans[j] is Fail {
        assert(cut[j] =~= seq![batch[n]]);
    }
    j
}

/// The sink of a request, among those that wait for buffered responses.
proof fn lemma_buffered_sink<B, I, D>(batch: Seq<PendingRequest<B, I, D>>, n: int)
    requires
        flush::distinct_requests(batch),
        0 <= n < batch.len(),
    ensures
        str_map::distinct_keys(flush::buffered_sinks(batch)),
        batch[n].respond_to matches ResponseSink::Buffered(tx) ==> str_map::lookup(
            flush::buffered_sinks(batch),
            batch[n].id@,
        ) == Some(tx),
    decreases batch.len(),
{
    let head = batch.drop_last();
    assert forall|i: int, j: int| 0 <= i < j < head.len() implies (#[trigger] head[i]).id@ != (
    #[trigger] head[j]).id@ by {
        assert(batch[i].id@ != batch[j].id@);
    }
    if head.len() > 0 {
        lemma_buffered_sink(head, if n < head.len() { n } else { 0 });
    }
    if let ResponseSink::Buffered(tx) = batch.last().respond_to {
        str_map::lemma_with(flush::buffered_sinks(head), batch.last().id@, tx);
    }
    if n < head.len() {
        assert(batch[n].id@ != batch[head.len() as int].id@);
    }
}

/// The sink of a request, among those that wait for streamed responses.
proof fn lemma_stream_sink<B, I, D>(batch: Seq<PendingRequest<B, I, D>>, n: int)
    requires
        flush::distinct_requests(batch),
        0 <= n < batch.len(),
    ensures
        str_map::distinct_keys(flush::stream_sinks(batch)),
        batch[n].respond_to matches ResponseSink::Stream(s) ==> str_map::lookup(
            flush::stream_sinks(batch),
            batch[n].id@,
        ) == Some(StreamPending { init: Some(s.init), body: s.body }),
    decreases batch.len(),
{
    let head = batch.drop_last();
    assert forall|i: int, j: int| 0 <= i < j < head.len() implies (#[trigger] head[i]).id@ != (
    #[trigger] head[j]).id@ by {
        assert(batch[i].id@ != batch[j].id@);
    }
    if head.len() > 0 {
        lemma_stream_sink(head, if n < head.len() { n } else { 0 });
    }
    if let ResponseSink::Stream(s) = batch.last().respond_to {
        str_map::lemma_with(
            flush::stream_sinks(head),
            batch.last().id@,
            StreamPending { init: Some(s.init), body: s.body },
        );
    }
    if n < head.len() {
        assert(batch[n].id@ != batch[head.len() as int].id@);
    }
}

/// Whether some replies answer a sink with a text.
pub open spec fn told<S>(
    replies: Seq<(S, response::ResponseView)>,
    sink: S,
    status: u16,
    msg: Seq<char>,
) -> bool {
    exists|i: int|
        0 <= i < replies.len() && (#[trigger] replies[i]).0 == sink && replies[i].1.status == status
            && replies[i].1.body == vstd::utf8::encode_utf8(msg)
}

/// Everyone who waits for a buffered response is told why there is none.
pub proof fn lemma_waiting_requests_are_told<B>(
    pending: Seq<(Seq<char>, B)>,
    tag: Option<usize>,
    status: u16,
    msg: Seq<char>,
    id: Seq<char>,
)
    requires
        str_map::lookup(pending, id) is Some,
    ensures
        told(
            crate::buffered::failed(pending, tag, status, msg),
            str_map::lookup(pending, id)->0,
            status,
            msg,
        ),
{
    let i = str_map::key_index(pending, id) as int;
    let replies = crate::buffered::failed(pending, tag, status, msg);
    assert(replies[i].0 == pending[i].1);
}

/// Everyone who waits for a response that has not begun is told why there is none.
pub proof fn lemma_waiting_streams_are_told<I, D>(
    pending: Seq<(Seq<char>, StreamPending<I, D>)>,
    tag: Option<usize>,
    status: u16,
    msg: Seq<char>,
    n: int,
)
    requires
        0 <= n < pending.len(),
        pending[n].1.init is Some,
    ensures
        told(stream::stream_failed(pending, tag, status, msg), pending[n].1.init->0, status, msg),
    decreases pending.len(),
{
    let replies = stream::stream_failed(pending, tag, status, msg);
    let head = stream::stream_failed(pending.drop_last(), tag, status, msg);
    let sink = pending[n].1.init->0;
    if n < pending.len() - 1 {
        lemma_waiting_streams_are_told(pending.drop_last(), tag, status, msg, n);
        let i = choose|i: int|
            0 <= i < head.len() && (#[trigger] head[i]).0 == sink && head[i].1.status == status
                && head[i].1.body == vstd::utf8::encode_utf8(msg);
        assert(replies[i] == head[i]);
    } else {
        assert(replies[head.len() as int].0 == sink);
    }
}

/// Whether a step invokes the function for a request that waits for a buffered response, or tells
/// it that it is too large.
pub open spec fn serves_buffered<B, I, D>(
    step: FlushView<B, I, D>,
    key: request::BatchKeyView,
    cfg: FlushConfig,
    req: PendingRequest<B, I, D>,
    sink: B,
) -> bool {
    let item = event::request_item(req, cfg.received_at_ms);
    match step {
        FlushView::Submit(job::JobView::Buffered { key: k, wait_ms, estimated_rps_bits, payload, pending }) => {
            &&& k == key
            &&& wait_ms == cfg.wait_ms
            &&& estimated_rps_bits == cfg.estimated_rps_bits
            &&& str_map::lookup(pending, req.id@) == Some(sink)
            &&& payload.len() <= cfg.max_invoke_payload_bytes
            &&& exists|part: Seq<event::ItemView>|
                part.contains(item) && payload == #[trigger] event::payload(
                    key.route,
                    cfg.received_at_ms,
                    part,
                )
        },
        FlushView::Answer(job::RepliesView::Buffered(replies)) => {
            &&& event::payload(key.route, cfg.received_at_ms, seq![item]).len()
                > cfg.max_invoke_payload_bytes
            &&& told(replies, sink, 502, "invoke payload too large"@)
        },
        _ => false,
    }
}

/// Every request of a buffered batch gets its invocation: one whose payload holds its item and is
/// not too large, under the key of the batch, and whose response goes to its own sink. Only one
/// that is too large by itself gets none, and is told so.
pub proof fn lemma_every_request_is_invoked_for<B, I, D>(
    key: request::BatchKeyView,
    cfg: FlushConfig,
    batch: Seq<PendingRequest<B, I, D>>,
    n: int,
)
    requires
        key.invoke_mode == InvokeMode::Buffered,
        flush::distinct_requests(batch),
        0 <= n < batch.len(),
        batch[n].respond_to is Buffered,
    ensures
        exists|s: int|
            0 <= s < flush::flushed(key, cfg, batch).len() && serves_buffered(
                #[trigger] flush::flushed(key, cfg, batch)[s],
                key,
                cfg,
                batch[n],
                batch[n].respond_to->Buffered_0,
            ),
{
    let t = cfg.received_at_ms;
    let max = cfg.max_invoke_payload_bytes;
    let items = event::request_items(batch, t);
    let b = flush::buffered_sinks(batch);
    let first = flush::stream_mismatch::<B, I, D>(flush::stream_sinks(batch), cfg);
    let plans = plan::planned(key.route, t, max, b, items);
    lemma_buffered_sink(batch, n);
    assert forall|i: int, j: int| 0 <= i < j < items.len() implies (#[trigger] items[i]).id != (
    #[trigger] items[j]).id by {
        assert(batch[i].id@ != batch[j].id@);
    }
    let j = lemma_every_item_is_served(key.route, t, max, b, items, n);
    let all = flush::flushed(key, cfg, batch);
    let s = first.len() + j;
    assert(all[s] == flush::buffered_step::<B, I, D>(plans[j], key, cfg));
    if let PlanView::Fail { pending, status, msg } = plans[j] {
        lemma_waiting_requests_are_told(
            pending,
            crate::buffered::size_tag(pending.len(), cfg.report_batch_size),
            status,
            msg,
            items[n].id,
        );
    }
    assert(serves_buffered(all[s], key, cfg, batch[n], batch[n].respond_to->Buffered_0));
}

/// Whether a step invokes the function for a request that waits for a streamed response, or tells
/// it that it is too large.
pub open spec fn serves_stream<B, I, D>(
    step: FlushView<B, I, D>,
    key: request::BatchKeyView,
    cfg: FlushConfig,
    req: PendingRequest<B, I, D>,
    init: I,
    body: D,
) -> bool {
    let item = event::request_item(req, cfg.received_at_ms);
    match step {
        FlushView::Submit(job::JobView::Stream { key: k, wait_ms, estimated_rps_bits, payload, pending }) => {
            &&& k == key
            &&& wait_ms == cfg.wait_ms
            &&& estimated_rps_bits == cfg.estimated_rps_bits
            &&& str_map::lookup(pending, req.id@) == Some(
                StreamPending { init: Some(init), body },
            )
            &&& payload.len() <= cfg.max_invoke_payload_bytes
            &&& exists|part: Seq<event::ItemView>|
                part.contains(item) && payload == #[trigger] event::payload(
                    key.route,
                    cfg.received_at_ms,
                    part,
                )
        },
        FlushView::Answer(job::RepliesView::Stream(replies)) => {
            &&& event::payload(key.route, cfg.received_at_ms, seq![item]).len()
                > cfg.max_invoke_payload_bytes
            &&& told(replies, init, 502, "invoke payload too large"@)
        },
        _ => false,
    }
}

/// Every request of a streamed batch gets its invocation, as one of a buffered batch does.
pub proof fn lemma_every_stream_is_invoked_for<B, I, D>(
    key: request::BatchKeyView,
    cfg: FlushConfig,
    batch: Seq<PendingRequest<B, I, D>>,
    n: int,
)
    requires
        key.invoke_mode == InvokeMode::ResponseStream,
        flush::distinct_requests(batch),
        0 <= n < batch.len(),
        batch[n].respond_to is Stream,
    ensures
        exists|s: int|
            0 <= s < flush::flushed(key, cfg, batch).len() && serves_stream(
                #[trigger] flush::flushed(key, cfg, batch)[s],
                key,
                cfg,
                batch[n],
                batch[n].respond_to->Stream_0.init,
                batch[n].respond_to->Stream_0.body,
            ),
{
    let t = cfg.received_at_ms;
    let max = cfg.max_invoke_payload_bytes;
    let items = event::request_items(batch, t);
    let b = flush::stream_sinks(batch);
    let first = flush::buffered_mismatch::<B, I, D>(flush::buffered_sinks(batch), cfg);
    let plans = plan::planned(key.route, t, max, b, items);
    lemma_stream_sink(batch, n);
    assert forall|i: int, j: int| 0 <= i < j < items.len() implies (#[trigger] items[i]).id != (
    #[trigger] items[j]).id by {
        assert(batch[i].id@ != batch[j].id@);
    }
    let j = lemma_every_item_is_served(key.route, t, max, b, items, n);
    let all = flush::flushed(key, cfg, batch);
    let s = first.len() + j;
    assert(all[s] == flush::stream_step::<B, I, D>(plans[j], key, cfg));
    let sink = batch[n].respond_to->Stream_0;
    if let PlanView::Fail { pending, status, msg } = plans[j] {
        lemma_waiting_streams_are_told(
            pending,
            crate::buffered::size_tag(pending.len(), cfg.report_batch_size),
            status,
            msg,
            str_map::key_index(pending, items[n].id) as int,
        );
    }
    assert(serves_stream(all[s], key, cfg, batch[n], sink.init, sink.body));
}

/// A request that waits for the other kind of response than its batch gets is told so.
pub proof fn lemma_requests_of_the_other_kind_are_told<B, I, D>(
    key: request::BatchKeyView,
    cfg: FlushConfig,
    batch: Seq<PendingRequest<B, I, D>>,
    n: int,
)
    requires
        flush::distinct_requests(batch),
        0 <= n < batch.len(),
    ensures
        ({
            let steps = flush::flushed(key, cfg, batch);
            match batch[n].respond_to {
                ResponseSink::Stream(s) => key.invoke_mode == InvokeMode::Buffered ==> {
                    &&& steps.len() > 0
                    &&& steps[0] matches FlushView::Answer(job::RepliesView::Stream(replies))
                        && told(replies, s.init, 502, "unexpected streaming response sink"@)
                },
                ResponseSink::Buffered(tx) => key.invoke_mode == InvokeMode::ResponseStream ==> {
                    &&& steps.len() > 0
                    &&& steps[0] matches FlushView::Answer(job::RepliesView::Buffered(replies))
                        && told(replies, tx, 502, "unexpected buffered response sink"@)
                },
            }
        }),
{
    let b = flush::buffered_sinks(batch);
    let s = flush::stream_sinks(batch);
    lemma_buffered_sink(batch, n);
    lemma_stream_sink(batch, n);
    if batch[n].respond_to is Stream && key.invoke_mode == InvokeMode::Buffered {
        lemma_waiting_streams_are_told(
            s,
            crate::buffered::size_tag(s.len(), cfg.report_batch_size),
            502,
            "unexpected streaming response sink"@,
            str_map::key_index(s, batch[n].id@) as int,
        );
        let steps = flush::flushed(key, cfg, batch);
        assert(steps[0] == flush::stream_mismatch::<B, I, D>(s, cfg)[0]);
    }
    if batch[n].respond_to is Buffered && key.invoke_mode == InvokeMode::ResponseStream {
        lemma_waiting_requests_are_told(
            b,
            crate::buffered::size_tag(b.len(), cfg.report_batch_size),
            502,
            "unexpected buffered response sink"@,
            batch[n].id@,
        );
        let steps = flush::flushed(key, cfg, batch);
        assert(steps[0] == flush::buffered_mismatch::<B, I, D>(b, cfg)[0]);
    }
}

/// Whether replies tell a request of a job why it gets no other response.
pub open spec fn job_told<B, I, D>(
    job: InvocationJob<B, I, D>,
    replies: job::RepliesView<B, I>,
    id: Seq<char>,
    status: u16,
    msg: Seq<char>,
) -> bool {
    match (job, replies) {
        (InvocationJob::Buffered { pending, .. }, job::RepliesView::Buffered(r)) => str_map::lookup(
            pending@,
            id,
        ) matches Some(tx) ==> told(r, tx, status, msg),
        (InvocationJob::Stream { pending, .. }, job::RepliesView::Stream(r)) => str_map::lookup(
            pending@,
            id,
        ) matches Some(p) ==> (p.init matches Some(init) ==> told(r, init, status, msg)),
        _ => false,
    }
}

/// A job that fails tells everyone who waits for it.
pub proof fn lemma_jobs_fail_for_everyone<B, I, D>(
    job: InvocationJob<B, I, D>,
    status: u16,
    msg: Seq<char>,
    report_batch_size: bool,
    id: Seq<char>,
)
    ensures
        job_told(job, job::job_failed(job@, status, msg, report_batch_size), id, status, msg),
{
    match job {
        InvocationJob::Buffered { pending, .. } => {
            if str_map::has_key(pending@, id) {
                lemma_waiting_requests_are_told(
                    pending@,
                    crate::buffered::size_tag(pending@.len(), report_batch_size),
                    status,
                    msg,
                    id,
                );
            }
        },
        InvocationJob::Stream { pending, .. } => {
            if str_map::has_key(pending@, id) && str_map::lookup(pending@, id)->0.init is Some {
                lemma_waiting_streams_are_told(
                    pending@,
                    crate::buffered::size_tag(pending@.len(), report_batch_size),
                    status,
                    msg,
                    str_map::key_index(pending@, id) as int,
                );
            }
        },
    }
}

/// What an invocation came back with decides what its requests get. Its own kind of response is
/// used, for the requests of the job. An error, and the other kind of response, are told to all.
pub proof fn lemma_what_comes_back_decides<B, I, D, S>(
    job: InvocationJob<B, I, D>,
    result: Result<LambdaInvokeResult<S>, String>,
    report_batch_size: bool,
    step: JobStep<B, I, D, S>,
    id: Seq<char>,
)
    requires
        job::is_job_step(job, result, report_batch_size, step),
    ensures
        result matches Err(e) ==> (step matches JobStep::Answer(r) && job_told(
            job,
            r@,
            id,
            502,
            "invoke: "@ + e@,
        )),
        result matches Ok(LambdaInvokeResult::Buffered(bytes)) && job is Buffered ==> (
        step matches JobStep::Decode { bytes: b, pending } && b@ == result->Ok_0->Buffered_0@
            && pending == job->Buffered_pending),
        result matches Ok(LambdaInvokeResult::Buffered(bytes)) && job is Stream ==> (
        step matches JobStep::Answer(r) && job_told(
            job,
            r@,
            id,
            502,
            "unexpected buffered response"@,
        )),
        result matches Ok(LambdaInvokeResult::ResponseStream(s)) && job is Buffered ==> (
        step matches JobStep::Answer(r) && job_told(
            job,
            r@,
            id,
            502,
            "unexpected response stream"@,
        )),
        result matches Ok(LambdaInvokeResult::ResponseStream(s)) && job is Stream ==> (
        step matches JobStep::Demultiplex { stream, demux } && stream
            == result->Ok_0->ResponseStream_0 && demux.pending == job->Stream_pending
            && demux.lines@.len() == 0 && !demux.closed && demux.wf()),
{
    match result {
        Err(e) => lemma_jobs_fail_for_everyone(job, 502, "invoke: "@ + e@, report_batch_size, id),
        Ok(_) => {
            lemma_jobs_fail_for_everyone(
                job,
                502,
                "unexpected buffered response"@,
                report_batch_size,
                id,
            );
            lemma_jobs_fail_for_everyone(
                job,
                502,
                "unexpected response stream"@,
                report_batch_size,
                id,
            );
        },
    }
}

} // verus!
