//! When requests are accepted into batches, and when batches are flushed.
use std::collections::VecDeque;
use vstd::prelude::*;

verus! {

/// Errors that can occur while enqueueing a request for batching.
#[derive(Debug, Clone, Copy, PartialEq, Eq, Structural)]
pub enum EnqueueError {
    /// The per-key queue is at capacity.
    QueueFull,
    /// The batcher task exited while enqueueing.
    BatcherClosed,
}

/// What came of putting a request into the queue of its batcher.
#[derive(Debug, Clone, Copy, PartialEq, Eq, Structural)]
pub enum SendOutcome {
    Sent,
    /// The queue is full.
    Full,
    /// The batcher is gone.
    Closed,
}

/// What is to be done next for a request that is enqueued.
#[derive(Debug, Clone, Copy, PartialEq, Eq, Structural)]
pub enum EnqueueStep {
    /// The request was accepted.
    Accepted,
    /// The request was rejected.
    Rejected(EnqueueError),
    /// Forget the batcher, start another and try again.
    Retry,
    /// Forget the batcher; the request was rejected.
    GiveUp(EnqueueError),
}

/// How often a request is put into a queue: an idle batcher may exit at the same time.
pub const ENQUEUE_ATTEMPTS: u8 = 2;

/// What is to be done next after an attempt, with `left` further attempts.
pub open spec fn enqueue_next(outcome: SendOutcome, left: nat) -> EnqueueStep {
    match outcome {
        SendOutcome::Sent => EnqueueStep::Accepted,
        SendOutcome::Full => EnqueueStep::Rejected(EnqueueError::QueueFull),
        SendOutcome::Closed => if left > 0 {
            EnqueueStep::Retry
        } else {
            EnqueueStep::GiveUp(EnqueueError::BatcherClosed)
        },
    }
}

/// The attempts to enqueue a request.
#[derive(Debug)]
pub struct Enqueue {
    left: u8,
}

impl Enqueue {
    /// The number of attempts that may still be made.
    pub closed spec fn attempts_left(&self) -> nat {
        self.left as nat
    }

    /// Before the first attempt.
    pub fn new() -> (r: Self)
        ensures
            r.attempts_left() == ENQUEUE_ATTEMPTS,
    {
        Enqueue { left: ENQUEUE_ATTEMPTS }
    }

    /// Takes in what came of an attempt.
    pub fn attempted(&mut self, outcome: SendOutcome) -> (r: EnqueueStep)
        requires
            old(self).attempts_left() > 0,
        ensures
            final(self).attempts_left() == old(self).attempts_left() - 1,
            r == enqueue_next(outcome, final(self).attempts_left()),
    {
        self.left = self.left - 1;
        match outcome {
            SendOutcome::Sent => EnqueueStep::Accepted,
            SendOutcome::Full => EnqueueStep::Rejected(EnqueueError::QueueFull),
            SendOutcome::Closed => if self.left > 0 {
                EnqueueStep::Retry
            } else {
                EnqueueStep::GiveUp(EnqueueError::BatcherClosed)
            },
        }
    }
}

/// The last step for a request whose attempts have these outcomes, with `left` attempts.
pub open spec fn enqueued(outcomes: Seq<SendOutcome>, left: nat) -> EnqueueStep
    decreases left,
{
    if left == 0 || outcomes.len() == 0 {
        EnqueueStep::Retry
    } else {
        let step = enqueue_next(outcomes[0], (left - 1) as nat);
        if step is Retry {
            enqueued(outcomes.drop_first(), (left - 1) as nat)
        } else {
            step
        }
    }
}

/// A request is accepted exactly where the first attempt that does not find its batcher gone
/// is one of the first two, and finds room. It is rejected for a full queue where it finds
/// none, and otherwise because its batchers are gone.
pub proof fn lemma_enqueue_outcomes(outcomes: Seq<SendOutcome>)
    requires
        outcomes.len() >= ENQUEUE_ATTEMPTS,
    ensures
        enqueued(outcomes, ENQUEUE_ATTEMPTS as nat) == if outcomes[0] is Sent || (
        outcomes[0] is Closed && outcomes[1] is Sent) {
            EnqueueStep::Accepted
        } else if outcomes[0] is Full || (outcomes[0] is Closed && outcomes[1] is Full) {
            EnqueueStep::Rejected(EnqueueError::QueueFull)
        } else {
            EnqueueStep::GiveUp(EnqueueError::BatcherClosed)
        },
{
    reveal_with_fuel(enqueued, 3);
}

/// The number of nanoseconds of some milliseconds.
pub open spec fn ms_to_ns(ms: u64) -> u128 {
    (ms * 1_000_000) as u128
}

/// What a batcher is to do next.
#[derive(Debug)]
pub enum BatcherStep<R> {
    /// Wait for the first request of a batch, up to the idle time.
    AwaitFirst,
    /// Wait for a further request of the batch.
    AwaitMore { remaining_ns: u128 },
    /// Flush a batch that was open for up to `wait_ms`.
    Flush { batch: Vec<R>, wait_ms: u64 },
    /// Exit.
    Stop,
}

impl<R> BatcherStep<R> {
    /// The batch that is flushed.
    pub open spec fn flushed(self) -> Option<Seq<R>> {
        match self {
            BatcherStep::Flush { batch, .. } => Some(batch@),
            _ => None,
        }
    }
}

/// The batch that is flushed, and the one that is open then, where a request comes while
/// `open` is open: a batch that is full or due is flushed.
pub open spec fn with_request<R>(open: Seq<R>, req: R, max_batch_size: usize, due: bool) -> (
    Option<Seq<R>>,
    Seq<R>,
) {
    let all = open.push(req);
    if all.len() >= max_batch_size || due {
        (Some(all), Seq::empty())
    } else {
        (None, all)
    }
}

/// The batch that is flushed, and the one that is open then, where the wait for a request
/// ends while `open` is open.
pub open spec fn without_request<R>(open: Seq<R>) -> (Option<Seq<R>>, Seq<R>) {
    if open.len() == 0 {
        (None, open)
    } else {
        (Some(open), Seq::empty())
    }
}

/// Collects the requests of a batch key into batches.
#[derive(Debug)]
pub struct Batcher<R> {
    /// Maximum number of requests per batch.
    pub max_batch_size: usize,
    /// The requests of the open batch, in the order of their arrival.
    pub batch: Vec<R>,
    /// When the open batch is due (nanoseconds).
    pub flush_at_ns: u128,
    /// How long the open batch may wait (milliseconds).
    pub wait_ms: u64,
}

/// When the batch that a request joins is due: the first one of a batch starts the timer.
pub open spec fn deadline<R>(before: Batcher<R>, now_ns: u64, wait_ms: u64) -> int {
    if before.batch@.len() == 0 {
        now_ns + ms_to_ns(wait_ms)
    } else {
        before.flush_at_ns as int
    }
}

/// Whether a batcher that takes a request in does so by `step`, and is `after` then.
pub open spec fn takes_in<R>(
    before: Batcher<R>,
    req: R,
    now_ns: u64,
    wait_ms: u64,
    step: BatcherStep<R>,
    after: Batcher<R>,
) -> bool {
    let due = deadline(before, now_ns, wait_ms);
    let wait = if before.batch@.len() == 0 {
        wait_ms
    } else {
        before.wait_ms
    };
    &&& after.max_batch_size == before.max_batch_size
    &&& (step.flushed(), after.batch@) == with_request(
        before.batch@,
        req,
        before.max_batch_size,
        now_ns >= due,
    )
    &&& match step {
        BatcherStep::Flush { wait_ms: w, .. } => w == wait,
        BatcherStep::AwaitMore { remaining_ns } => {
            &&& remaining_ns == due - now_ns
            &&& after.flush_at_ns == due
            &&& after.wait_ms == wait
        },
        _ => false,
    }
}

/// Whether a batcher that is asked at a time what to do answers by `step`, and is `after` then.
pub open spec fn polls<R>(
    before: Batcher<R>,
    now_ns: u64,
    step: BatcherStep<R>,
    after: Batcher<R>,
) -> bool {
    if before.batch@.len() == 0 {
        step is AwaitFirst && after == before
    } else if now_ns >= before.flush_at_ns {
        &&& (step.flushed(), after.batch@) == without_request(before.batch@)
        &&& step matches BatcherStep::Flush { wait_ms, .. } && wait_ms == before.wait_ms
    } else {
        &&& step matches BatcherStep::AwaitMore { remaining_ns }
        &&& remaining_ns == before.flush_at_ns - now_ns
        &&& after == before
    }
}

impl<R> Batcher<R> {
    /// A batch stays open only while it is not full.
    pub open spec fn wf(&self) -> bool {
        self.batch@.len() == 0 || self.batch@.len() < self.max_batch_size
    }

    /// A batcher without an open batch.
    pub fn new(max_batch_size: usize) -> (r: Self)
        ensures
            r.wf(),
            r.max_batch_size == max_batch_size,
            r.batch@.len() == 0,
    {
        Batcher { max_batch_size, batch: Vec::new(), flush_at_ns: 0, wait_ms: 0 }
    }

    /// Hands the open batch out.
    fn flush(&mut self) -> (r: BatcherStep<R>)
        ensures
            r == (BatcherStep::Flush { batch: old(self).batch, wait_ms: old(self).wait_ms }),
            final(self).wf(),
            final(self).batch@.len() == 0,
            final(self).max_batch_size == old(self).max_batch_size,
    {
        let mut batch: Vec<R> = Vec::new();
        std::mem::swap(&mut batch, &mut self.batch);
        BatcherStep::Flush { batch, wait_ms: self.wait_ms }
    }

    /// Takes a request in. The first one of a batch starts the timer, which runs for
    /// `wait_ms`; a batch that is full or due is flushed immediately.
    pub fn request(&mut self, req: R, now_ns: u64, wait_ms: u64) -> (r: BatcherStep<R>)
        requires
            old(self).wf(),
        ensures
            final(self).wf(),
            final(self).max_batch_size == old(self).max_batch_size,
            ({
                let first = old(self).batch@.len() == 0;
                let wait = if first {
                    wait_ms
                } else {
                    old(self).wait_ms
                };
                let due = if first {
                    now_ns + ms_to_ns(wait_ms)
                } else {
                    old(self).flush_at_ns as int
                };
                &&& (r.flushed(), final(self).batch@) == with_request(
                    old(self).batch@,
                    req,
                    old(self).max_batch_size,
                    now_ns >= due,
                )
                &&& match r {
                    BatcherStep::Flush { wait_ms: w, .. } => w == wait,
                    BatcherStep::AwaitMore { remaining_ns } => {
                        &&& remaining_ns == due - now_ns
                        &&& final(self).flush_at_ns == due
                        &&& final(self).wait_ms == wait
                    },
                    _ => false,
                }
            }),
            takes_in(*old(self), req, now_ns, wait_ms, r, *final(self)),
    {
        if self.batch.len() == 0 {
            assert(wait_ms * 1_000_000 <= u64::MAX * 1_000_000) by (nonlinear_arith);
            self.flush_at_ns = now_ns as u128 + wait_ms as u128 * 1_000_000;
            self.wait_ms = wait_ms;
        }
        self.batch.push(req);
        assert(self.batch@ =~= old(self).batch@.push(req));
        if self.batch.len() >= self.max_batch_size || now_ns as u128 >= self.flush_at_ns {
            let step = self.flush();
            assert(self.batch@ =~= Seq::<R>::empty());
            step
        } else {
            BatcherStep::AwaitMore { remaining_ns: self.flush_at_ns - now_ns as u128 }
        }
    }

    /// Takes in that nothing came in the time that the last step allowed: an open batch is
    /// flushed, and a batcher without one exits.
    pub fn timed_out(&mut self) -> (r: BatcherStep<R>)
        requires
            old(self).wf(),
        ensures
            final(self).wf(),
            final(self).max_batch_size == old(self).max_batch_size,
            (r.flushed(), final(self).batch@) == without_request(old(self).batch@),
            match r {
                BatcherStep::Flush { wait_ms, .. } => wait_ms == old(self).wait_ms,
                BatcherStep::Stop => old(self).batch@.len() == 0,
                _ => false,
            },
    {
        if self.batch.len() == 0 {
            BatcherStep::Stop
        } else {
            self.flush()
        }
    }

    /// Takes in that the queue is closed: an open batch is flushed before the batcher exits.
    pub fn closed(&mut self) -> (r: BatcherStep<R>)
        requires
            old(self).wf(),
        ensures
            final(self).wf(),
            final(self).max_batch_size == old(self).max_batch_size,
            (r.flushed(), final(self).batch@) == without_request(old(self).batch@),
            match r {
                BatcherStep::Flush { wait_ms, .. } => wait_ms == old(self).wait_ms,
                BatcherStep::Stop => old(self).batch@.len() == 0,
                _ => false,
            },
    {
        self.timed_out()
    }

    /// What to do next at a time: a batch that is due is flushed.
    pub fn poll(&mut self, now_ns: u64) -> (r: BatcherStep<R>)
        requires
            old(self).wf(),
        ensures
            final(self).wf(),
            final(self).max_batch_size == old(self).max_batch_size,
            if old(self).batch@.len() == 0 {
                r is AwaitFirst && *final(self) == *old(self)
            } else if now_ns >= old(self).flush_at_ns {
                &&& (r.flushed(), final(self).batch@) == without_request(old(self).batch@)
                &&& r matches BatcherStep::Flush { wait_ms, .. } && wait_ms == old(self).wait_ms
            } else {
                &&& r matches BatcherStep::AwaitMore { remaining_ns }
                &&& remaining_ns == old(self).flush_at_ns - now_ns
                &&& *final(self) == *old(self)
            },
            polls(*old(self), now_ns, r, *final(self)),
    {
        if self.batch.len() == 0 {
            BatcherStep::AwaitFirst
        } else if now_ns as u128 >= self.flush_at_ns {
            self.flush()
        } else {
            BatcherStep::AwaitMore { remaining_ns: self.flush_at_ns - now_ns as u128 }
        }
    }
}

/// What a batcher meets.
pub enum Arrival<R> {
    /// A request, and whether the batch that it joins is due by then.
    Request { req: R, due: bool },
    /// The end of a wait for one.
    Elapsed,
}

/// The requests among what a batcher meets, in order.
pub open spec fn requests_of<R>(arrivals: Seq<Arrival<R>>) -> Seq<R>
    decreases arrivals.len(),
{
    if arrivals.len() == 0 {
        Seq::empty()
    } else {
        match arrivals.last() {
            Arrival::Request { req, .. } => requests_of(arrivals.drop_last()).push(req),
            Arrival::Elapsed => requests_of(arrivals.drop_last()),
        }
    }
}

/// The batches that have been flushed, in order, and the one that is open, after what a
/// batcher has met.
pub open spec fn batches_of<R>(arrivals: Seq<Arrival<R>>, max_batch_size: usize) -> (
    Seq<Seq<R>>,
    Seq<R>,
)
    decreases arrivals.len(),
{
    if arrivals.len() == 0 {
        (Seq::empty(), Seq::empty())
    } else {
        let (flushed, open) = batches_of(arrivals.drop_last(), max_batch_size);
        let (batch, left) = match arrivals.last() {
            Arrival::Request { req, due } => with_request(open, req, max_batch_size, due),
            Arrival::Elapsed => without_request(open),
        };
        (
            match batch {
                Some(b) => flushed.push(b),
                None => flushed,
            },
            left,
        )
    }
}

/// Batches one after another, and then the requests of an open one.
pub open spec fn in_a_row<R>(flushed: Seq<Seq<R>>, open: Seq<R>) -> Seq<R>
    decreases flushed.len(),
{
    if flushed.len() == 0 {
        open
    } else {
        in_a_row(flushed.drop_last(), flushed.last() + open)
    }
}

/// Batching keeps the order of the requests and loses none: whatever a batcher meets, the
/// flushed batches, one after another, and the open batch are all its requests in the order of
/// their arrival. No flushed batch is empty, and none is larger than the limit, or than one
/// where the limit is zero; the open batch is empty or below the limit.
pub proof fn lemma_batches_keep_the_order<R>(arrivals: Seq<Arrival<R>>, max_batch_size: usize)
    ensures
        ({
            let (flushed, open) = batches_of(arrivals, max_batch_size);
            &&& in_a_row(flushed, open) == requests_of(arrivals)
            &&& open.len() == 0 || open.len() < max_batch_size
            &&& forall|i: int|
                0 <= i < flushed.len() ==> 0 < (#[trigger] flushed[i]).len() && (flushed[i].len()
                    <= max_batch_size || flushed[i].len() == 1)
        }),
    decreases arrivals.len(),
{
    if arrivals.len() > 0 {
        lemma_batches_keep_the_order(arrivals.drop_last(), max_batch_size);
        let (flushed, open) = batches_of(arrivals.drop_last(), max_batch_size);
        let all = match arrivals.last() {
            Arrival::Request { req, .. } => {
                lemma_in_a_row(flushed, open, req);
                open.push(req)
            },
            Arrival::Elapsed => open,
        };
        assert(flushed.push(all).drop_last() =~= flushed);
        assert(all + Seq::<R>::empty() =~= all);
    }
}

proof fn lemma_in_a_row<R>(flushed: Seq<Seq<R>>, open: Seq<R>, req: R)
    ensures
        in_a_row(flushed, open.push(req)) == in_a_row(flushed, open).push(req),
    decreases flushed.len(),
{
    if flushed.len() > 0 {
        assert(flushed.last() + open.push(req) =~= (flushed.last() + open).push(req));
        lemma_in_a_row(flushed.drop_last(), flushed.last() + open, req);
    }
}

/// Estimates the request rate of a batch key from the requests of the last sampling periods.
#[derive(Debug)]
pub struct DynamicRateEstimator {
    /// The sampling period (milliseconds).
    pub interval_ms: u64,
    /// How many periods are remembered.
    pub window_size: usize,
    /// The requests of the current period.
    pub count: u64,
    /// The requests of the last periods, the oldest first.
    pub samples: VecDeque<u64>,
}

/// The last `n` samples.
pub open spec fn last_samples(samples: Seq<u64>, n: nat) -> Seq<u64> {
    if samples.len() > n {
        samples.skip(samples.len() - n)
    } else {
        samples
    }
}

/// Whether an estimator that counts a request is `after` then.
pub open spec fn counts(before: DynamicRateEstimator, after: DynamicRateEstimator) -> bool {
    &&& after.count == if before.count == u64::MAX {
        u64::MAX
    } else {
        (before.count + 1) as u64
    }
    &&& after.interval_ms == before.interval_ms
    &&& after.window_size == before.window_size
    &&& after.samples == before.samples
}

/// Whether an estimator that ends a period is `after` then.
pub open spec fn ticks(before: DynamicRateEstimator, after: DynamicRateEstimator) -> bool {
    &&& after.count == 0
    &&& after.interval_ms == before.interval_ms
    &&& after.window_size == before.window_size
    &&& after.samples@ == last_samples(
        before.samples@.push(before.count),
        before.window_size as nat,
    )
}

impl DynamicRateEstimator {
    /// No more periods are remembered than asked for.
    pub open spec fn wf(&self) -> bool {
        self.samples@.len() <= self.window_size
    }

    /// Before the first period.
    pub fn new(interval_ms: u64, window_size: usize) -> (r: Self)
        ensures
            r.wf(),
            r.interval_ms == interval_ms,
            r.window_size == window_size,
            r.count == 0,
            r.samples@.len() == 0,
    {
        DynamicRateEstimator { interval_ms, window_size, count: 0, samples: VecDeque::new() }
    }

    /// Counts a request.
    pub fn record_request(&mut self)
        ensures
            final(self).count == if old(self).count == u64::MAX {
                u64::MAX
            } else {
                (old(self).count + 1) as u64
            },
            final(self).interval_ms == old(self).interval_ms,
            final(self).window_size == old(self).window_size,
            final(self).samples == old(self).samples,
            counts(*old(self), *final(self)),
    {
        self.count = self.count.saturating_add(1);
    }

    /// Ends a period.
    pub fn tick(&mut self)
        requires
            old(self).samples@.len() < usize::MAX,
        ensures
            final(self).wf(),
            final(self).count == 0,
            final(self).interval_ms == old(self).interval_ms,
            final(self).window_size == old(self).window_size,
            final(self).samples@ == last_samples(
                old(self).samples@.push(old(self).count),
                old(self).window_size as nat,
            ),
            ticks(*old(self), *final(self)),
    {
        let ghost all = self.samples@.push(self.count);
        self.samples.push_back(self.count);
        self.count = 0;
        let ghost mut dropped: int = 0;
        assert(all.skip(0) =~= all);
        while self.samples.len() > self.window_size
            invariant
                0 <= dropped <= all.len(),
                self.samples@ == all.skip(dropped),
                dropped == 0 || all.len() - dropped >= self.window_size,
                self.count == 0,
                self.interval_ms == old(self).interval_ms,
                self.window_size == old(self).window_size,
            decreases self.samples@.len(),
        {
            let _oldest = self.samples.pop_front();
            proof {
                dropped = dropped + 1;
                assert(self.samples@ =~= all.skip(dropped));
            }
        }
    }
}

/// The most samples whose rate is sure to be a fraction of two 128-bit numbers.
pub const MAX_SAMPLES: u64 = 18_446_744_073_709_551;

/// The sum of some samples.
pub open spec fn total(samples: Seq<u64>) -> int
    decreases samples.len(),
{
    if samples.len() == 0 {
        0
    } else {
        total(samples.drop_last()) + samples.last()
    }
}

/// The requests per second of some periods, as a numerator and a denominator.
pub open spec fn rate(samples: Seq<u64>, interval_ms: u64) -> (int, int) {
    if samples.len() == 0 || interval_ms == 0 {
        (0, 1)
    } else {
        (total(samples) * 1000, interval_ms * samples.len())
    }
}

impl DynamicRateEstimator {
    /// The requests per second over the remembered periods, as a numerator and a denominator:
    /// the requests of all periods over the seconds of all periods. It is zero before the end
    /// of the first period.
    pub fn smoothed_rps(&self) -> (r: (u128, u128))
        requires
            self.samples@.len() <= MAX_SAMPLES,
        ensures
            if self.samples@.len() == 0 || self.interval_ms == 0 {
                r == (0u128, 1u128)
            } else {
                r.0 == total(self.samples@) * 1000 && r.1 == self.interval_ms * self.samples@.len()
            },
            r.1 > 0,
            (r.0 as int, r.1 as int) == rate(self.samples@, self.interval_ms),
    {
        if self.samples.len() == 0 || self.interval_ms == 0 {
            return (0, 1);
        }
        let n: usize = self.samples.len();
        let mut sum: u128 = 0;
        let mut i: usize = 0;
        while i < n
            invariant
                i <= n == self.samples@.len() <= MAX_SAMPLES,
                sum == total(self.samples@.take(i as int)),
                sum <= i * u64::MAX,
            decreases n - i,
        {
            assert(self.samples@.take(i + 1).drop_last() =~= self.samples@.take(i as int));
            assert(i * u64::MAX + u64::MAX == (i + 1) * u64::MAX) by (nonlinear_arith);
            assert((i + 1) * u64::MAX <= MAX_SAMPLES * u64::MAX) by (nonlinear_arith)
                requires
                    i + 1 <= MAX_SAMPLES,
            ;
            sum = sum + self.samples[i] as u128;
            i = i + 1;
        }
        assert(self.samples@.take(n as int) =~= self.samples@);
        assert(n * u64::MAX <= MAX_SAMPLES * u64::MAX) by (nonlinear_arith)
            requires
                n <= MAX_SAMPLES,
        ;
        let ghost interval = self.interval_ms;
        assert(0 < interval * n <= u64::MAX * MAX_SAMPLES) by (nonlinear_arith)
            requires
                0 < n <= MAX_SAMPLES,
                0 < interval,
        ;
        (sum * 1000, self.interval_ms as u128 * n as u128)
    }
}

/// A wait within the bounds of an operation.
pub open spec fn bounded_wait(wait_ms: u64, min_wait_ms: u64, max_wait_ms: u64) -> u64 {
    if max_wait_ms <= min_wait_ms || wait_ms > max_wait_ms {
        max_wait_ms
    } else if wait_ms < min_wait_ms {
        min_wait_ms
    } else {
        wait_ms
    }
}

/// Brings a wait within the bounds of an operation.
pub fn bounded_wait_ms(wait_ms: u64, min_wait_ms: u64, max_wait_ms: u64) -> (r: u64)
    ensures
        r == bounded_wait(wait_ms, min_wait_ms, max_wait_ms),
        min_wait_ms <= max_wait_ms ==> min_wait_ms <= r <= max_wait_ms,
{
    if max_wait_ms <= min_wait_ms || wait_ms > max_wait_ms {
        max_wait_ms
    } else if wait_ms < min_wait_ms {
        min_wait_ms
    } else {
        wait_ms
    }
}

} // verus!
