//! Invocation jobs: a payload, and the requests that wait for what comes back.
use vstd::prelude::*;
use vstd::string::*;

use crate::buffered;
use crate::request;
use crate::request::BatchKey;
use crate::response;
use crate::response::RouterResponse;
use crate::str_map::StrMap;
use crate::stream;
use crate::stream::StreamDemux;
use crate::stream::StreamPending;
use crate::text;

verus! {

/// An invocation that waits for its turn.
#[allow(inconsistent_fields)]
#[derive(Debug)]
pub enum InvocationJob<B, I, D> {
    Buffered {
        key: BatchKey,
        wait_ms: u64,
        /// The bits of the estimated request rate, a double precision number.
        estimated_rps_bits: Option<u64>,
        payload: Vec<u8>,
        pending: StrMap<B>,
    },
    Stream {
        key: BatchKey,
        wait_ms: u64,
        /// The bits of the estimated request rate, a double precision number.
        estimated_rps_bits: Option<u64>,
        payload: Vec<u8>,
        pending: StrMap<StreamPending<I, D>>,
    },
}

/// What an invocation job says.
#[allow(inconsistent_fields)]
#[verifier::ext_equal]
pub enum JobView<B, I, D> {
    Buffered {
        key: request::BatchKeyView,
        wait_ms: u64,
        estimated_rps_bits: Option<u64>,
        payload: Seq<u8>,
        pending: Seq<(Seq<char>, B)>,
    },
    Stream {
        key: request::BatchKeyView,
        wait_ms: u64,
        estimated_rps_bits: Option<u64>,
        payload: Seq<u8>,
        pending: Seq<(Seq<char>, StreamPending<I, D>)>,
    },
}

impl<B, I, D> View for InvocationJob<B, I, D> {
    type V = JobView<B, I, D>;

    open spec fn view(&self) -> JobView<B, I, D> {
        match self {
            InvocationJob::Buffered { key, wait_ms, estimated_rps_bits, payload, pending } => {
                JobView::Buffered {
                    key: key@,
                    wait_ms: *wait_ms,
                    estimated_rps_bits: *estimated_rps_bits,
                    payload: payload@,
                    pending: pending@,
                }
            },
            InvocationJob::Stream { key, wait_ms, estimated_rps_bits, payload, pending } => {
                JobView::Stream {
                    key: key@,
                    wait_ms: *wait_ms,
                    estimated_rps_bits: *estimated_rps_bits,
                    payload: payload@,
                    pending: pending@,
                }
            },
        }
    }
}

/// Responses that are to be sent.
#[derive(Debug)]
pub enum Replies<B, I> {
    Buffered(Vec<(B, RouterResponse)>),
    Stream(Vec<(I, RouterResponse)>),
}

/// What is to be sent.
#[verifier::ext_equal]
pub enum RepliesView<B, I> {
    Buffered(Seq<(B, response::ResponseView)>),
    Stream(Seq<(I, response::ResponseView)>),
}

impl<B, I> View for Replies<B, I> {
    type V = RepliesView<B, I>;

    open spec fn view(&self) -> RepliesView<B, I> {
        match self {
            Replies::Buffered(r) => RepliesView::Buffered(buffered::reply_views(r@)),
            Replies::Stream(r) => RepliesView::Stream(buffered::reply_views(r@)),
        }
    }
}

/// The same text for every request of a job.
pub open spec fn job_failed<B, I, D>(
    job: JobView<B, I, D>,
    status: u16,
    msg: Seq<char>,
    report_batch_size: bool,
) -> RepliesView<B, I> {
    match job {
        JobView::Buffered { pending, .. } => RepliesView::Buffered(
            buffered::failed(
                pending,
                buffered::size_tag(pending.len(), report_batch_size),
                status,
                msg,
            ),
        ),
        JobView::Stream { pending, .. } => RepliesView::Stream(
            stream::stream_failed(
                pending,
                buffered::size_tag(pending.len(), report_batch_size),
                status,
                msg,
            ),
        ),
    }
}

impl<B, I, D> InvocationJob<B, I, D> {
    /// No request waits twice.
    pub open spec fn wf(&self) -> bool {
        match self {
            InvocationJob::Buffered { pending, .. } => pending.wf(),
            InvocationJob::Stream { pending, .. } => pending.wf(),
        }
    }

    /// Answers every request of the job with the same text.
    pub fn fail(self, status: u16, msg: &str, report_batch_size: bool) -> (r: Replies<B, I>)
        ensures
            r@ == job_failed(self@, status, msg@, report_batch_size),
    {
        match self {
            InvocationJob::Buffered { pending, .. } => {
                let tag = buffered::batch_size_tag(&pending, report_batch_size);
                Replies::Buffered(buffered::fail_all_buffered(pending, tag, status, msg))
            },
            InvocationJob::Stream { pending, .. } => {
                let tag = buffered::batch_size_tag(&pending, report_batch_size);
                Replies::Stream(stream::fail_all_stream(pending, tag, status, msg))
            },
        }
    }

    /// Answers the requests of a job for which there was no room among the jobs that wait.
    pub fn overloaded(self, report_batch_size: bool) -> (r: Replies<B, I>)
        ensures
            r@ == job_failed(self@, 429, "router overloaded"@, report_batch_size),
    {
        self.fail(429, "router overloaded", report_batch_size)
    }

    /// Answers the requests of a job that nobody takes any more.
    pub fn shutting_down(self, report_batch_size: bool) -> (r: Replies<B, I>)
        ensures
            r@ == job_failed(self@, 502, "router shutting down"@, report_batch_size),
    {
        self.fail(502, "router shutting down", report_batch_size)
    }
}

/// What an invocation came back with: the whole response, or an `S` that streams it.
#[derive(Debug)]
pub enum LambdaInvokeResult<S> {
    Buffered(Vec<u8>),
    ResponseStream(S),
}

/// What is to be done once an invocation came back.
#[derive(Debug)]
pub enum JobStep<B, I, D, S> {
    /// Send responses.
    Answer(Replies<B, I>),
    /// Decode the response, and answer the requests with it.
    Decode { bytes: Vec<u8>, pending: StrMap<B> },
    /// Answer the requests with the records of a stream.
    Demultiplex { stream: S, demux: StreamDemux<I, D> },
}

/// Whether a step is the one that is to be done for what an invocation came back with.
pub open spec fn is_job_step<B, I, D, S>(
    job: InvocationJob<B, I, D>,
    result: Result<LambdaInvokeResult<S>, String>,
    report_batch_size: bool,
    step: JobStep<B, I, D, S>,
) -> bool {
    match result {
        Err(e) => step matches JobStep::Answer(replies) && replies@ == job_failed(
            job@,
            502,
            "invoke: "@ + e@,
            report_batch_size,
        ),
        Ok(LambdaInvokeResult::Buffered(bytes)) => match job {
            InvocationJob::Buffered { pending, .. } => step == JobStep::<B, I, D, S>::Decode {
                bytes,
                pending,
            },
            InvocationJob::Stream { .. } => step matches JobStep::Answer(replies) && replies@
                == job_failed(job@, 502, "unexpected buffered response"@, report_batch_size),
        },
        Ok(LambdaInvokeResult::ResponseStream(s)) => match job {
            InvocationJob::Buffered { .. } => step matches JobStep::Answer(replies) && replies@
                == job_failed(job@, 502, "unexpected response stream"@, report_batch_size),
            InvocationJob::Stream { pending, .. } => {
                &&& step matches JobStep::Demultiplex { stream, demux }
                &&& stream == s
                &&& demux.wf()
                &&& demux.lines@.len() == 0
                &&& demux.pending == pending
                &&& demux.tag == buffered::size_tag(pending@.len(), report_batch_size)
                &&& !demux.closed
            },
        },
    }
}

/// What is to be done once the invocation of a job came back.
pub fn run_invocation_job<B, I, D, S>(
    job: InvocationJob<B, I, D>,
    result: Result<LambdaInvokeResult<S>, String>,
    report_batch_size: bool,
) -> (r: JobStep<B, I, D, S>)
    requires
        job.wf(),
    ensures
        is_job_step(job, result, report_batch_size, r),
{
    let result = match result {
        Ok(x) => x,
        Err(e) => {
            let msg = text::concat("invoke: ", e.as_str());
            return JobStep::Answer(job.fail(502, msg.as_str(), report_batch_size));
        },
    };
    match job {
        InvocationJob::Buffered { pending, .. } => match result {
            LambdaInvokeResult::Buffered(bytes) => JobStep::Decode { bytes, pending },
            LambdaInvokeResult::ResponseStream(_) => {
                let tag = buffered::batch_size_tag(&pending, report_batch_size);
                JobStep::Answer(
                    Replies::Buffered(
                        buffered::fail_all_buffered(
                            pending,
                            tag,
                            502,
                            "unexpected response stream",
                        ),
                    ),
                )
            },
        },
        InvocationJob::Stream { pending, .. } => match result {
            LambdaInvokeResult::Buffered(_) => {
                let tag = buffered::batch_size_tag(&pending, report_batch_size);
                JobStep::Answer(
                    Replies::Stream(
                        stream::fail_all_stream(pending, tag, 502, "unexpected buffered response"),
                    ),
                )
            },
            LambdaInvokeResult::ResponseStream(stream) => {
                let demux = StreamDemux::new(pending, report_batch_size);
                JobStep::Demultiplex { stream, demux }
            },
        },
    }
}

} // verus!
