//! Which requests share a batch, and when it is flushed.
use vstd::prelude::*;

use crate::batcher;
use crate::batcher::Arrival;
use crate::batcher::Batcher;
use crate::batcher::BatcherStep;
use crate::batcher::DynamicRateEstimator;
use crate::request;
use crate::spec;
use crate::str_map;

verus! {

/// Requests that come one after another, while no batch is due.
pub open spec fn in_time<R>(reqs: Seq<R>) -> Seq<Arrival<R>> {
    Seq::new(reqs.len(), |i: int| Arrival::Request { req: reqs[i], due: false })
}

/// A batch is flushed as soon as it is full, and not before: of requests that come in time, every
/// batch that is flushed holds exactly as many as a batch may hold, and the rest wait.
pub proof fn lemma_batches_fill_up<R>(reqs: Seq<R>, max_batch_size: usize)
    requires
        max_batch_size > 0,
    ensures
        ({
            let (flushed, open) = batcher::batches_of(in_time(reqs), max_batch_size);
            &&& reqs.len() == flushed.len() * max_batch_size + open.len()
            &&& open.len() < max_batch_size
            &&& forall|i: int|
                0 <= i < flushed.len() ==> (#[trigger] flushed[i]).len() == max_batch_size
        }),
    decreases reqs.len(),
{
    if reqs.len() > 0 {
        let head = reqs.drop_last();
        lemma_batches_fill_up(head, max_batch_size);
        assert(in_time(reqs).drop_last() =~= in_time(head));
        let (flushed, open) = batcher::batches_of(in_time(head), max_batch_size);
        let n = flushed.len() as int;
        let m = max_batch_size as int;
        assert((n + 1) * m == n * m + m) by (nonlinear_arith);
    } else {
        assert(0 * max_batch_size as int == 0) by (nonlinear_arith);
    }
}

/// The end of a wait, and a request that comes when its batch is due, leave no request waiting,
/// and what was flushed before stays flushed.
pub proof fn lemma_waiting_ends<R>(arrivals: Seq<Arrival<R>>, req: R, max_batch_size: usize)
    ensures
        batcher::batches_of(arrivals.push(Arrival::Elapsed), max_batch_size).1.len() == 0,
        batcher::batches_of(
            arrivals.push(Arrival::Request { req, due: true }),
            max_batch_size,
        ).1.len() == 0,
        ({
            let (flushed, open) = batcher::batches_of(arrivals, max_batch_size);
            let then = batcher::batches_of(arrivals.push(Arrival::Elapsed), max_batch_size).0;
            then == if open.len() == 0 {
                flushed
            } else {
                flushed.push(open)
            }
        }),
        ({
            let (flushed, open) = batcher::batches_of(arrivals, max_batch_size);
            let then = batcher::batches_of(
                arrivals.push(Arrival::Request { req, due: true }),
                max_batch_size,
            ).0;
            then == flushed.push(open.push(req))
        }),
{
    assert(arrivals.push(Arrival::Elapsed).drop_last() =~= arrivals);
    assert(arrivals.push(Arrival::Request { req, due: true }).drop_last() =~= arrivals);
}

/// A request joins the open batch at its end. The batch is flushed where it is full or due then,
/// and stays open otherwise. One that is flushed is flushed whole.
pub proof fn lemma_requests_join_the_open_batch<R>(
    open: Seq<R>,
    req: R,
    max_batch_size: usize,
    due: bool,
)
    ensures
        ({
            let (flushed, left) = batcher::with_request(open, req, max_batch_size, due);
            &&& flushed is Some <==> open.len() + 1 >= max_batch_size || due
            &&& flushed matches Some(b) ==> b == open + seq![req] && left.len() == 0
            &&& flushed is None ==> left == open + seq![req]
        }),
        ({
            let (flushed, left) = batcher::without_request(open);
            &&& left.len() == 0
            &&& open.len() == 0 ==> flushed is None
            &&& open.len() > 0 ==> flushed == Some(open)
        }),
{
    assert(open.push(req) =~= open + seq![req]);
}

/// The first request of a batch starts the timer: where a batch holds more than one and may wait,
/// it is due once the wait is over, and the batcher waits that long for more. Otherwise the
/// request is flushed at once, alone.
pub proof fn lemma_the_first_request_starts_the_timer<R>(
    before: Batcher<R>,
    req: R,
    now_ns: u64,
    wait_ms: u64,
    step: BatcherStep<R>,
    after: Batcher<R>,
)
    requires
        batcher::takes_in(before, req, now_ns, wait_ms, step, after),
        before.batch@.len() == 0,
    ensures
        before.max_batch_size > 1 && wait_ms > 0 ==> {
            &&& step matches BatcherStep::AwaitMore { remaining_ns } && remaining_ns == wait_ms
                * 1_000_000
            &&& after.batch@ == seq![req]
            &&& after.flush_at_ns == now_ns + wait_ms * 1_000_000
            &&& after.wait_ms == wait_ms
        },
        before.max_batch_size <= 1 || wait_ms == 0 ==> {
            &&& step matches BatcherStep::Flush { batch, wait_ms: w } && batch@ == seq![req] && w
                == wait_ms
            &&& after.batch@.len() == 0
        },
        after.max_batch_size == before.max_batch_size,
{
    assert(before.batch@.push(req) =~= seq![req]);
}

/// A further request does not move the time at which its batch is due. It is flushed with the
/// batch where that is full or due then, and waits for what is left of the time otherwise.
pub proof fn lemma_later_requests_do_not_move_the_deadline<R>(
    before: Batcher<R>,
    req: R,
    now_ns: u64,
    wait_ms: u64,
    step: BatcherStep<R>,
    after: Batcher<R>,
)
    requires
        batcher::takes_in(before, req, now_ns, wait_ms, step, after),
        before.batch@.len() > 0,
    ensures
        before.batch@.len() + 1 >= before.max_batch_size || now_ns >= before.flush_at_ns ==> {
            &&& step matches BatcherStep::Flush { batch, wait_ms: w } && batch@ == before.batch@
                + seq![req] && w == before.wait_ms
            &&& after.batch@.len() == 0
        },
        before.batch@.len() + 1 < before.max_batch_size && now_ns < before.flush_at_ns ==> {
            &&& step matches BatcherStep::AwaitMore { remaining_ns } && remaining_ns
                == before.flush_at_ns - now_ns
            &&& after.batch@ == before.batch@ + seq![req]
            &&& after.flush_at_ns == before.flush_at_ns
            &&& after.wait_ms == before.wait_ms
        },
        after.max_batch_size == before.max_batch_size,
{
    assert(before.batch@.push(req) =~= before.batch@ + seq![req]);
}

/// A batch is flushed as soon as the wait of its first request is over, and not before.
pub proof fn lemma_a_batch_waits_as_long_as_it_may<R>(
    before: Batcher<R>,
    req: R,
    now_ns: u64,
    wait_ms: u64,
    step: BatcherStep<R>,
    between: Batcher<R>,
    later_ns: u64,
    next: BatcherStep<R>,
    after: Batcher<R>,
)
    requires
        batcher::takes_in(before, req, now_ns, wait_ms, step, between),
        before.batch@.len() == 0,
        step is AwaitMore,
        batcher::polls(between, later_ns, next, after),
    ensures
        next is Flush <==> later_ns >= now_ns + wait_ms * 1_000_000,
        next matches BatcherStep::Flush { batch, wait_ms: w } ==> batch@ == seq![req] && w == wait_ms
            && after.batch@.len() == 0,
        next matches BatcherStep::AwaitMore { remaining_ns } ==> remaining_ns == now_ns + wait_ms
            * 1_000_000 - later_ns && after == between,
{
    lemma_the_first_request_starts_the_timer(before, req, now_ns, wait_ms, step, between);
}

/// A request adds one to the count of its period. The end of a period makes the count its sample,
/// behind those before, of which no more are kept than asked for, and the next count begins at
/// zero.
pub proof fn lemma_periods_are_counted(
    before: DynamicRateEstimator,
    counted: DynamicRateEstimator,
    ticked: DynamicRateEstimator,
)
    requires
        batcher::counts(before, counted),
        batcher::ticks(counted, ticked),
        before.count < u64::MAX,
    ensures
        counted.count == before.count + 1,
        counted.samples@ == before.samples@,
        ticked.count == 0,
        before.window_size > 0 ==> ticked.samples@.len() > 0 && ticked.samples@.last()
            == before.count + 1,
        before.samples@.len() < before.window_size ==> ticked.samples@ == before.samples@.push(
            (before.count + 1) as u64,
        ),
        before.samples@.len() == before.window_size && before.window_size > 0 ==> ticked.samples@
            == before.samples@.drop_first().push((before.count + 1) as u64),
        ticked.interval_ms == before.interval_ms,
        ticked.window_size == before.window_size,
{
    let all = before.samples@.push((before.count + 1) as u64);
    if before.samples@.len() == before.window_size && before.window_size > 0 {
        assert(all.skip(1) =~= before.samples@.drop_first().push((before.count + 1) as u64));
    }
}

/// A millisecond is a million nanoseconds, without a limit that a wait could reach.
pub proof fn lemma_milliseconds(a: u64, b: u64)
    ensures
        batcher::ms_to_ns(a) == a * 1_000_000,
        a <= b <==> batcher::ms_to_ns(a) <= batcher::ms_to_ns(b),
{
}

/// The samples that are kept are the last ones, as many as asked for or all of them.
pub proof fn lemma_the_last_samples_are_kept(samples: Seq<u64>, n: nat)
    ensures
        batcher::last_samples(samples, n).len() == if samples.len() < n {
            samples.len()
        } else {
            n
        },
        forall|i: int|
            0 <= i < batcher::last_samples(samples, n).len() ==> #[trigger] batcher::last_samples(
                samples,
                n,
            )[i] == samples[samples.len() - batcher::last_samples(samples, n).len() + i],
{
}

/// The total of samples is what they add up to.
pub proof fn lemma_samples_add_up(a: Seq<u64>, b: Seq<u64>, x: u64)
    ensures
        batcher::total(Seq::empty()) == 0,
        batcher::total(seq![x]) == x,
        batcher::total(a + b) == batcher::total(a) + batcher::total(b),
    decreases b.len(),
{
    reveal_with_fuel(batcher::total, 2);
    assert(seq![x].drop_last() =~= Seq::<u64>::empty());
    if b.len() == 0 {
        assert(a + b =~= a);
    } else {
        lemma_samples_add_up(a, b.drop_last(), x);
        assert((a + b).drop_last() =~= a + b.drop_last());
    }
}

/// The rate, times the seconds of all periods, is the number of their requests. It is zero before
/// the end of the first period.
pub proof fn lemma_rates(samples: Seq<u64>, interval_ms: u64)
    ensures
        samples.len() == 0 || interval_ms == 0 ==> batcher::rate(samples, interval_ms).0 == 0,
        samples.len() > 0 && interval_ms > 0 ==> batcher::rate(samples, interval_ms).0 * (interval_ms
            * samples.len()) == 1000 * batcher::total(samples) * batcher::rate(
            samples,
            interval_ms,
        ).1,
        batcher::rate(samples, interval_ms).1 > 0,
{
    if samples.len() > 0 && interval_ms > 0 {
        let n = samples.len() as int;
        assert(interval_ms * n > 0) by (nonlinear_arith)
            requires
                n > 0,
                interval_ms > 0,
        ;
    }
}

/// A wait within its bounds stays as it is, one below is raised to the lower bound, and one above
/// is cut to the upper bound. Where the bounds leave no room, the upper one counts.
pub proof fn lemma_waits_are_bounded(wait_ms: u64, min_wait_ms: u64, max_wait_ms: u64)
    ensures
        ({
            let w = batcher::bounded_wait(wait_ms, min_wait_ms, max_wait_ms);
            &&& min_wait_ms <= wait_ms <= max_wait_ms && min_wait_ms < max_wait_ms ==> w == wait_ms
            &&& wait_ms < min_wait_ms <= max_wait_ms ==> w == min_wait_ms
            &&& wait_ms > max_wait_ms ==> w == max_wait_ms
            &&& max_wait_ms <= min_wait_ms ==> w == max_wait_ms
            &&& w <= max_wait_ms
        }),
{
}

/// A batch key names the function, the method, the route and the way of invoking of the operation,
/// and then the values of its dimensions in order: those of headers by their names, and those of
/// query parameters by theirs.
pub proof fn lemma_batch_keys(
    op: spec::OperationView,
    headers: Seq<(Seq<char>, Seq<char>)>,
    query: Seq<(Seq<char>, Seq<char>)>,
    i: int,
    name: Seq<char>,
)
    ensures
        ({
            let key = request::batch_key(op, headers, query);
            &&& key.target_lambda == op.target_lambda
            &&& key.method == op.method
            &&& key.route == op.route_template
            &&& key.invoke_mode == op.invoke_mode
            &&& key.key_values.len() == op.key.len()
            &&& 0 <= i < op.key.len() && op.key[i] == spec::DimensionView::Header(name)
                ==> key.key_values[i] == str_map::lookup(headers, name)
            &&& 0 <= i < op.key.len() && op.key[i] == spec::DimensionView::Query(name)
                ==> key.key_values[i] == str_map::lookup(query, name)
        }),
{
}

/// Looking a name up gives the value under it, where it is there, and nothing else.
pub proof fn lemma_lookups<T>(entries: Seq<(Seq<char>, T)>, key: Seq<char>, i: int)
    ensures
        0 <= i < entries.len() && entries[i].0 == key && str_map::distinct_keys(entries)
            ==> str_map::lookup(entries, key) == Some(entries[i].1),
        str_map::lookup(entries, key) is Some <==> exists|j: int|
            0 <= j < entries.len() && (#[trigger] entries[j]).0 == key,
{
    str_map::lemma_key_index(entries, key);
    if 0 <= i < entries.len() {
        str_map::lemma_has_key(entries, i);
    }
    if exists|j: int| 0 <= j < entries.len() && (#[trigger] entries[j]).0 == key {
        let j = choose|j: int| 0 <= j < entries.len() && (#[trigger] entries[j]).0 == key;
        str_map::lemma_has_key(entries, j);
    }
}

} // verus!
