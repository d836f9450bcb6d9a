//! How a batch is cut into invocations whose payloads are not too large.
use vstd::multiset::Multiset;
use vstd::prelude::*;
use vstd::string::*;

use crate::event;
use crate::event::BatchItem;
use crate::request::BatchKey;
use crate::str_map;
use crate::str_map::StrMap;

verus! {

/// What becomes of a part of a batch, with the requests that wait for it.
pub enum InvocationPlan<T> {
    Invoke { pending: StrMap<T>, payload: Vec<u8> },
    Fail { pending: StrMap<T>, status: u16, msg: String },
}

/// What a plan says.
#[verifier::ext_equal]
pub enum PlanView<T> {
    Invoke { pending: Seq<(Seq<char>, T)>, payload: Seq<u8> },
    Fail { pending: Seq<(Seq<char>, T)>, status: u16, msg: Seq<char> },
}

impl<T> PlanView<T> {
    /// The requests that wait for a part of a batch.
    pub open spec fn waiting(self) -> Seq<(Seq<char>, T)> {
        match self {
            PlanView::Invoke { pending, .. } => pending,
            PlanView::Fail { pending, .. } => pending,
        }
    }
}

impl<T> View for InvocationPlan<T> {
    type V = PlanView<T>;

    open spec fn view(&self) -> PlanView<T> {
        match self {
            InvocationPlan::Invoke { pending, payload } => PlanView::Invoke {
                pending: pending@,
                payload: payload@,
            },
            InvocationPlan::Fail { pending, status, msg } => PlanView::Fail {
                pending: pending@,
                status: *status,
                msg: msg@,
            },
        }
    }
}

impl<T> InvocationPlan<T> {
    /// No request waits twice.
    pub open spec fn wf(&self) -> bool {
        str_map::distinct_keys(self@.waiting())
    }
}

/// The views of a sequence of plans.
pub open spec fn plan_views<T>(plans: Seq<InvocationPlan<T>>) -> Seq<PlanView<T>> {
    Seq::new(plans.len(), |i: int| plans[i]@)
}

/// The entries of `pending` under the ids of some items, behind those of `left`, and the
/// other entries.
pub open spec fn split<T>(
    pending: Seq<(Seq<char>, T)>,
    batch: Seq<event::ItemView>,
    left: Seq<(Seq<char>, T)>,
) -> (Seq<(Seq<char>, T)>, Seq<(Seq<char>, T)>)
    decreases batch.len(),
{
    if batch.len() == 0 {
        (left, pending)
    } else {
        let id = batch[0].id;
        match str_map::lookup(pending, id) {
            Some(v) => split(
                str_map::without(pending, id),
                batch.drop_first(),
                str_map::with(left, id, v),
            ),
            None => split(pending, batch.drop_first(), left),
        }
    }
}

/// Whether some items hold one with an id.
pub open spec fn has_id(batch: Seq<event::ItemView>, id: Seq<char>) -> bool {
    exists|i: int| 0 <= i < batch.len() && (#[trigger] batch[i]).id == id
}

/// Splitting puts each entry on one side: with the items whose ids it has, or on the other.
pub proof fn lemma_split<T>(
    pending: Seq<(Seq<char>, T)>,
    batch: Seq<event::ItemView>,
    left: Seq<(Seq<char>, T)>,
)
    requires
        str_map::distinct_keys(pending),
        str_map::distinct_keys(left),
        forall|k: Seq<char>| #[trigger]
            str_map::has_key(left, k) ==> !str_map::has_key(pending, k),
    ensures
        ({
            let (l, r) = split(pending, batch, left);
            &&& str_map::distinct_keys(l)
            &&& str_map::distinct_keys(r)
            &&& forall|k: Seq<char>| #[trigger]
                str_map::lookup(l, k) == if has_id(batch, k) && str_map::has_key(pending, k) {
                    str_map::lookup(pending, k)
                } else {
                    str_map::lookup(left, k)
                }
            &&& forall|k: Seq<char>| #[trigger]
                str_map::lookup(r, k) == if has_id(batch, k) {
                    None
                } else {
                    str_map::lookup(pending, k)
                }
        }),
    decreases batch.len(),
{
    let (l, r) = split(pending, batch, left);
    if batch.len() > 0 {
        let id = batch[0].id;
        let rest = batch.drop_first();
        assert forall|k: Seq<char>| has_id(batch, k) == (k == id || has_id(rest, k)) by {
            if has_id(batch, k) && k != id {
                let i = choose|i: int| 0 <= i < batch.len() && (#[trigger] batch[i]).id == k;
                assert(rest[i - 1].id == k);
            }
            if has_id(rest, k) {
                let i = choose|i: int| 0 <= i < rest.len() && (#[trigger] rest[i]).id == k;
                assert(batch[i + 1].id == k);
            }
            assert(batch[0].id == id);
        }
        match str_map::lookup(pending, id) {
            Some(v) => {
                let p = str_map::without(pending, id);
                let m = str_map::with(left, id, v);
                str_map::lemma_without(pending, id);
                str_map::lemma_with(left, id, v);
                assert forall|k: Seq<char>| #[trigger] str_map::has_key(m, k) implies !str_map::has_key(
                    p,
                    k,
                ) by {
                    if k != id {
                        assert(str_map::lookup(m, k) == str_map::lookup(left, k));
                        assert(str_map::has_key(left, k));
                        assert(str_map::lookup(p, k) == str_map::lookup(pending, k));
                    }
                }
                lemma_split(p, rest, m);
                assert forall|k: Seq<char>| #[trigger]
                    str_map::lookup(l, k) == if has_id(batch, k) && str_map::has_key(pending, k) {
                        str_map::lookup(pending, k)
                    } else {
                        str_map::lookup(left, k)
                    } by {
                    assert(has_id(batch, k) == (k == id || has_id(rest, k)));
                    if k != id {
                        assert(str_map::lookup(m, k) == str_map::lookup(left, k));
                        assert(str_map::lookup(p, k) == str_map::lookup(pending, k));
                    }
                }
                assert forall|k: Seq<char>| #[trigger]
                    str_map::lookup(r, k) == if has_id(batch, k) {
                        None
                    } else {
                        str_map::lookup(pending, k)
                    } by {
                    assert(has_id(batch, k) == (k == id || has_id(rest, k)));
                    if k != id {
                        assert(str_map::lookup(p, k) == str_map::lookup(pending, k));
                    }
                }
            },
            None => {
                lemma_split(pending, rest, left);
                assert forall|k: Seq<char>| #[trigger]
                    str_map::lookup(l, k) == if has_id(batch, k) && str_map::has_key(pending, k) {
                        str_map::lookup(pending, k)
                    } else {
                        str_map::lookup(left, k)
                    } by {
                    assert(has_id(batch, k) == (k == id || has_id(rest, k)));
                }
                assert forall|k: Seq<char>| #[trigger]
                    str_map::lookup(r, k) == if has_id(batch, k) {
                        None
                    } else {
                        str_map::lookup(pending, k)
                    } by {
                    assert(has_id(batch, k) == (k == id || has_id(rest, k)));
                }
            },
        }
    }
}

/// Takes the requests that wait for some items apart from the others.
pub fn split_pending<T>(pending: StrMap<T>, left_items: &Vec<BatchItem>) -> (r: (
    StrMap<T>,
    StrMap<T>,
))
    ensures
        (r.0@, r.1@) == split(pending@, event::items(left_items@), Seq::empty()),
        r.0.wf(),
        pending.wf() ==> r.1.wf(),
{
    let ghost all = event::items(left_items@);
    let ghost start = pending@;
    let mut pending = pending;
    let mut left: StrMap<T> = StrMap::new();
    let mut i: usize = 0;
    assert(all.skip(0) =~= all);
    while i < left_items.len()
        invariant
            i <= left_items@.len(),
            all == event::items(left_items@),
            split(start, all, Seq::empty()) == split(pending@, all.skip(i as int), left@),
            left.wf(),
            str_map::distinct_keys(start) ==> pending.wf(),
        decreases left_items@.len() - i,
    {
        let item = &left_items[i];
        proof {
            assert(all.skip(i as int)[0] == item@);
            assert(all.skip(i as int).drop_first() =~= all.skip(i + 1));
            str_map::lemma_key_index(pending@, item.id@);
        }
        if let Some(tx) = pending.remove(item.id.as_str()) {
            left.insert(item.id.clone(), tx);
        }
        i = i + 1;
    }
    (left, pending)
}

/// What becomes of a batch: one invocation where its payload is not too large, and otherwise
/// what becomes of its halves. A single request whose payload is too large fails.
pub open spec fn planned<T>(
    route: Seq<char>,
    received_at_ms: u64,
    max_invoke_payload_bytes: usize,
    pending: Seq<(Seq<char>, T)>,
    batch: Seq<event::ItemView>,
) -> Seq<PlanView<T>>
    decreases batch.len(),
{
    let payload = event::payload(route, received_at_ms, batch);
    if payload.len() <= max_invoke_payload_bytes {
        seq![PlanView::Invoke { pending, payload }]
    } else if batch.len() <= 1 {
        seq![PlanView::Fail { pending, status: 502, msg: "invoke payload too large"@ }]
    } else {
        let mid = batch.len() as int / 2;
        let (left, right) = split(pending, batch.take(mid), Seq::empty());
        planned(route, received_at_ms, max_invoke_payload_bytes, left, batch.take(mid)) + planned(
            route,
            received_at_ms,
            max_invoke_payload_bytes,
            right,
            batch.skip(mid),
        )
    }
}

/// Plans the invocations of a batch.
///
/// Lambda imposes request payload limits. A batch that exceeds the configured limit is
/// recursively split into smaller invocations.
pub fn plan_invocations<T>(
    key: &BatchKey,
    received_at_ms: u64,
    max_invoke_payload_bytes: usize,
    pending: StrMap<T>,
    batch_items: Vec<BatchItem>,
) -> (r: Vec<InvocationPlan<T>>)
    requires
        pending.wf(),
    ensures
        plan_views(r@) == planned(
            key.route@,
            received_at_ms,
            max_invoke_payload_bytes,
            pending@,
            event::items(batch_items@),
        ),
        forall|i: int| 0 <= i < r@.len() ==> (#[trigger] r@[i]).wf(),
    decreases batch_items@.len(),
{
    let ghost all = event::items(batch_items@);
    let payload = event::build_payload_bytes(key, received_at_ms, &batch_items);
    let mut out: Vec<InvocationPlan<T>> = Vec::new();
    if payload.len() <= max_invoke_payload_bytes {
        out.push(InvocationPlan::Invoke { pending, payload });
        assert(plan_views(out@) =~= planned(
            key.route@,
            received_at_ms,
            max_invoke_payload_bytes,
            pending@,
            all,
        ));
        return out;
    }
    if batch_items.len() <= 1 {
        let msg = "invoke payload too large".to_owned();
        out.push(InvocationPlan::Fail { pending, status: 502, msg });
        assert(plan_views(out@) =~= planned(
            key.route@,
            received_at_ms,
            max_invoke_payload_bytes,
            pending@,
            all,
        ));
        return out;
    }
    let mid: usize = batch_items.len() / 2;
    let mut left_items = batch_items;
    let right_items = left_items.split_off(mid);
    proof {
        assert(event::items(left_items@) =~= all.take(mid as int));
        assert(event::items(right_items@) =~= all.skip(mid as int));
    }
    let (left_pending, right_pending) = split_pending(pending, &left_items);
    let mut left = plan_invocations(
        key,
        received_at_ms,
        max_invoke_payload_bytes,
        left_pending,
        left_items,
    );
    let mut right = plan_invocations(
        key,
        received_at_ms,
        max_invoke_payload_bytes,
        right_pending,
        right_items,
    );
    out.append(&mut left);
    out.append(&mut right);
    assert(plan_views(out@) =~= planned(
        key.route@,
        received_at_ms,
        max_invoke_payload_bytes,
        pending@,
        all,
    ));
    out
}

/// The parts into which a batch is cut.
pub open spec fn parts(
    route: Seq<char>,
    received_at_ms: u64,
    max_invoke_payload_bytes: usize,
    batch: Seq<event::ItemView>,
) -> Seq<Seq<event::ItemView>>
    decreases batch.len(),
{
    if event::payload(route, received_at_ms, batch).len() <= max_invoke_payload_bytes
        || batch.len() <= 1 {
        seq![batch]
    } else {
        let mid = batch.len() as int / 2;
        parts(route, received_at_ms, max_invoke_payload_bytes, batch.take(mid)) + parts(
            route,
            received_at_ms,
            max_invoke_payload_bytes,
            batch.skip(mid),
        )
    }
}

/// The items of some parts, one part after another.
pub open spec fn joined(parts: Seq<Seq<event::ItemView>>) -> Seq<event::ItemView>
    decreases parts.len(),
{
    if parts.len() == 0 {
        Seq::empty()
    } else {
        joined(parts.drop_last()) + parts.last()
    }
}

proof fn lemma_joined(a: Seq<Seq<event::ItemView>>, b: Seq<Seq<event::ItemView>>)
    ensures
        joined(a + b) == joined(a) + joined(b),
    decreases b.len(),
{
    if b.len() == 0 {
        assert(a + b =~= a);
        assert(joined(a) + joined(b) =~= joined(a));
    } else {
        lemma_joined(a, b.drop_last());
        assert((a + b).drop_last() =~= a + b.drop_last());
        assert((a + b).last() == b.last());
        assert(joined(a + b) =~= joined(a) + joined(b));
    }
}

/// Whether a plan is what becomes of a part of a batch: an invocation with its payload, which
/// is not too large, or a failure where it cannot be cut further.
pub open spec fn plan_of_part<T>(
    plan: PlanView<T>,
    route: Seq<char>,
    received_at_ms: u64,
    max_invoke_payload_bytes: usize,
    part: Seq<event::ItemView>,
) -> bool {
    let payload = event::payload(route, received_at_ms, part);
    match plan {
        PlanView::Invoke { payload: p, .. } => p == payload && p.len() <= max_invoke_payload_bytes,
        PlanView::Fail { status, msg, .. } => {
            &&& payload.len() > max_invoke_payload_bytes
            &&& part.len() <= 1
            &&& status == 502
            &&& msg == "invoke payload too large"@
        },
    }
}

/// A batch is cut at request boundaries: its parts, one after another, are the batch, and no
/// part of a batch with requests is without any. There is one plan for each part, and no
/// invocation is sent more than the limit.
pub proof fn lemma_plans_cover_the_batch<T>(
    route: Seq<char>,
    received_at_ms: u64,
    max_invoke_payload_bytes: usize,
    pending: Seq<(Seq<char>, T)>,
    batch: Seq<event::ItemView>,
)
    ensures
        ({
            let plans = planned(route, received_at_ms, max_invoke_payload_bytes, pending, batch);
            let cut = parts(route, received_at_ms, max_invoke_payload_bytes, batch);
            &&& plans.len() == cut.len()
            &&& joined(cut) == batch
            &&& batch.len() > 0 ==> forall|i: int|
                0 <= i < cut.len() ==> (#[trigger] cut[i]).len() > 0
            &&& forall|i: int|
                0 <= i < plans.len() ==> plan_of_part(
                    #[trigger] plans[i],
                    route,
                    received_at_ms,
                    max_invoke_payload_bytes,
                    cut[i],
                )
        }),
    decreases batch.len(),
{
    let m = max_invoke_payload_bytes;
    if event::payload(route, received_at_ms, batch).len() <= m || batch.len() <= 1 {
        let cut = parts(route, received_at_ms, m, batch);
        reveal_with_fuel(joined, 2);
        assert(cut =~= seq![batch]);
        assert(joined(cut) =~= batch);
    } else {
        let mid = batch.len() as int / 2;
        let (lp, rp) = split(pending, batch.take(mid), Seq::empty());
        lemma_plans_cover_the_batch(route, received_at_ms, m, lp, batch.take(mid));
        lemma_plans_cover_the_batch(route, received_at_ms, m, rp, batch.skip(mid));
        lemma_joined(
            parts(route, received_at_ms, m, batch.take(mid)),
            parts(route, received_at_ms, m, batch.skip(mid)),
        );
        assert(batch.take(mid) + batch.skip(mid) =~= batch);
        let l = planned(route, received_at_ms, m, lp, batch.take(mid));
        let lc = parts(route, received_at_ms, m, batch.take(mid));
        let rc = parts(route, received_at_ms, m, batch.skip(mid));
        let plans = planned(route, received_at_ms, m, pending, batch);
        let cut = parts(route, received_at_ms, m, batch);
        assert(cut == lc + rc);
        assert forall|i: int| 0 <= i < plans.len() implies plan_of_part(
            #[trigger] plans[i],
            route,
            received_at_ms,
            m,
            cut[i],
        ) by {
            if i < l.len() {
                assert(plans[i] == l[i]);
                assert(cut[i] == lc[i]);
            } else {
                assert(cut[i] == rc[i - l.len()]);
            }
        }
    }
}

/// Whether a request waits for the plan at one position and for no other.
pub open spec fn waits_once<T>(plans: Seq<PlanView<T>>, k: Seq<char>, value: T) -> bool {
    exists|j: int|
        0 <= j < plans.len() && str_map::lookup((#[trigger] plans[j]).waiting(), k) == Some(value)
            && forall|i: int|
            0 <= i < plans.len() && i != j ==> !str_map::has_key(
                (#[trigger] plans[i]).waiting(),
                k,
            )
}

/// Whether a request waits for no plan.
pub open spec fn waits_never<T>(plans: Seq<PlanView<T>>, k: Seq<char>) -> bool {
    forall|i: int| 0 <= i < plans.len() ==> !str_map::has_key((#[trigger] plans[i]).waiting(), k)
}

/// Every request that waits for a batch waits for exactly one of its invocations or failures,
/// and no other does.
pub proof fn lemma_every_request_is_planned_once<T>(
    route: Seq<char>,
    received_at_ms: u64,
    max_invoke_payload_bytes: usize,
    pending: Seq<(Seq<char>, T)>,
    batch: Seq<event::ItemView>,
    k: Seq<char>,
)
    requires
        str_map::distinct_keys(pending),
    ensures
        ({
            let plans = planned(route, received_at_ms, max_invoke_payload_bytes, pending, batch);
            match str_map::lookup(pending, k) {
                Some(v) => waits_once(plans, k, v),
                None => waits_never(plans, k),
            }
        }),
    decreases batch.len(),
{
    let m = max_invoke_payload_bytes;
    let plans = planned(route, received_at_ms, m, pending, batch);
    if event::payload(route, received_at_ms, batch).len() <= m || batch.len() <= 1 {
        assert(plans.len() == 1);
        assert(plans[0].waiting() == pending);
    } else {
        let mid = batch.len() as int / 2;
        let (lp, rp) = split(pending, batch.take(mid), Seq::empty());
        lemma_split(pending, batch.take(mid), Seq::empty());
        lemma_every_request_is_planned_once(route, received_at_ms, m, lp, batch.take(mid), k);
        lemma_every_request_is_planned_once(route, received_at_ms, m, rp, batch.skip(mid), k);
        let l = planned(route, received_at_ms, m, lp, batch.take(mid));
        let r = planned(route, received_at_ms, m, rp, batch.skip(mid));
        assert(plans =~= l + r);
        assert(str_map::lookup(lp, k) is None || str_map::lookup(rp, k) is None);
        if let Some(v) = str_map::lookup(pending, k) {
            if str_map::lookup(lp, k) is Some {
                let j = choose|j: int|
                    0 <= j < l.len() && str_map::lookup((#[trigger] l[j]).waiting(), k) == Some(v)
                        && forall|i: int|
                        0 <= i < l.len() && i != j ==> !str_map::has_key(
                            (#[trigger] l[i]).waiting(),
                            k,
                        );
                assert(plans[j] == l[j]);
                assert forall|i: int| 0 <= i < plans.len() && i != j implies !str_map::has_key(
                    (#[trigger] plans[i]).waiting(),
                    k,
                ) by {
                    if i < l.len() {
                        assert(plans[i] == l[i]);
                    } else {
                        assert(plans[i] == r[i - l.len()]);
                    }
                }
            } else {
                let j = choose|j: int|
                    0 <= j < r.len() && str_map::lookup((#[trigger] r[j]).waiting(), k) == Some(v)
                        && forall|i: int|
                        0 <= i < r.len() && i != j ==> !str_map::has_key(
                            (#[trigger] r[i]).waiting(),
                            k,
                        );
                let n = l.len() as int;
                assert(plans[n + j] == r[j]);
                assert forall|i: int| 0 <= i < plans.len() && i != n + j implies !str_map::has_key(
                    (#[trigger] plans[i]).waiting(),
                    k,
                ) by {
                    if i < n {
                        assert(plans[i] == l[i]);
                    } else {
                        assert(plans[i] == r[i - n]);
                    }
                }
            }
        } else {
            assert forall|i: int| 0 <= i < plans.len() implies !str_map::has_key(
                (#[trigger] plans[i]).waiting(),
                k,
            ) by {
                if i < l.len() {
                    assert(plans[i] == l[i]);
                } else {
                    assert(plans[i] == r[i - l.len()]);
                }
            }
        }
    }
}

/// No two items have the same id.
pub open spec fn distinct_ids(batch: Seq<event::ItemView>) -> bool {
    forall|i: int, j: int| 0 <= i < j < batch.len() ==> (#[trigger] batch[i]).id != (
    #[trigger] batch[j]).id
}

/// A request waits for the invocation or the failure of the part that holds its item.
pub proof fn lemma_request_waits_for_its_part<T>(
    route: Seq<char>,
    received_at_ms: u64,
    max_invoke_payload_bytes: usize,
    pending: Seq<(Seq<char>, T)>,
    batch: Seq<event::ItemView>,
    j: int,
    i: int,
)
    requires
        str_map::distinct_keys(pending),
        distinct_ids(batch),
        0 <= j < parts(route, received_at_ms, max_invoke_payload_bytes, batch).len(),
        0 <= i < parts(route, received_at_ms, max_invoke_payload_bytes, batch)[j].len(),
    ensures
        ({
            let plans = planned(route, received_at_ms, max_invoke_payload_bytes, pending, batch);
            let id = parts(route, received_at_ms, max_invoke_payload_bytes, batch)[j][i].id;
            &&& j < plans.len()
            &&& str_map::lookup(plans[j].waiting(), id) == str_map::lookup(pending, id)
            &&& has_id(batch, id)
        }),
    decreases batch.len(),
{
    let m = max_invoke_payload_bytes;
    let plans = planned(route, received_at_ms, m, pending, batch);
    let cut = parts(route, received_at_ms, m, batch);
    let id = cut[j][i].id;
    if event::payload(route, received_at_ms, batch).len() <= m || batch.len() <= 1 {
        assert(batch[i].id == id);
    } else {
        let mid = batch.len() as int / 2;
        let (lp, rp) = split(pending, batch.take(mid), Seq::empty());
        lemma_split(pending, batch.take(mid), Seq::empty());
        let lc = parts(route, received_at_ms, m, batch.take(mid));
        let rc = parts(route, received_at_ms, m, batch.skip(mid));
        lemma_plans_cover_the_batch(route, received_at_ms, m, lp, batch.take(mid));
        lemma_plans_cover_the_batch(route, received_at_ms, m, rp, batch.skip(mid));
        if j < lc.len() {
            assert(cut[j] == lc[j]);
            lemma_request_waits_for_its_part(route, received_at_ms, m, lp, batch.take(mid), j, i);
            let n = choose|n: int| 0 <= n < mid && (#[trigger] batch.take(mid)[n]).id == id;
            assert(batch[n].id == id);
        } else {
            assert(cut[j] == rc[j - lc.len()]);
            lemma_request_waits_for_its_part(
                route,
                received_at_ms,
                m,
                rp,
                batch.skip(mid),
                j - lc.len(),
                i,
            );
            let n = choose|n: int|
                0 <= n < batch.len() - mid && (#[trigger] batch.skip(mid)[n]).id == id;
            assert(batch[n + mid].id == id);
            assert(!has_id(batch.take(mid), id)) by {
                if has_id(batch.take(mid), id) {
                    let o = choose|o: int| 0 <= o < mid && (#[trigger] batch.take(mid)[o]).id == id;
                    assert(batch[o].id == batch[n + mid].id);
                }
            }
        }
    }
}

/// What all entries weigh together, where `weight` tells what one weighs.
pub open spec fn bag<T, A>(
    pending: Seq<(Seq<char>, T)>,
    weight: spec_fn(T) -> Multiset<A>,
) -> Multiset<A>
    decreases pending.len(),
{
    if pending.len() == 0 {
        Multiset::empty()
    } else {
        bag(pending.drop_last(), weight).add(weight(pending.last().1))
    }
}

/// What the requests of all plans weigh together.
pub open spec fn plan_bag<T, A>(
    plans: Seq<PlanView<T>>,
    weight: spec_fn(T) -> Multiset<A>,
) -> Multiset<A>
    decreases plans.len(),
{
    if plans.len() == 0 {
        Multiset::empty()
    } else {
        plan_bag(plans.drop_last(), weight).add(bag(plans.last().waiting(), weight))
    }
}

/// Taking an entry out takes its weight out.
pub proof fn lemma_bag_remove<T, A>(
    pending: Seq<(Seq<char>, T)>,
    weight: spec_fn(T) -> Multiset<A>,
    n: int,
)
    requires
        0 <= n < pending.len(),
    ensures
        bag(pending, weight) == bag(pending.remove(n), weight).add(weight(pending[n].1)),
    decreases pending.len(),
{
    let head = pending.drop_last();
    if n == pending.len() - 1 {
        assert(pending.remove(n) =~= head);
    } else {
        lemma_bag_remove(head, weight, n);
        assert(pending.remove(n).drop_last() =~= head.remove(n));
        assert(pending.remove(n).last() == pending.last());
        assert(bag(pending, weight) =~= bag(pending.remove(n), weight).add(weight(pending[n].1)));
    }
}

/// Splitting keeps the weight.
proof fn lemma_split_bag<T, A>(
    pending: Seq<(Seq<char>, T)>,
    batch: Seq<event::ItemView>,
    left: Seq<(Seq<char>, T)>,
    weight: spec_fn(T) -> Multiset<A>,
)
    requires
        str_map::distinct_keys(pending),
        str_map::distinct_keys(left),
        forall|k: Seq<char>| #[trigger]
            str_map::has_key(left, k) ==> !str_map::has_key(pending, k),
    ensures
        bag(split(pending, batch, left).0, weight).add(bag(split(pending, batch, left).1, weight))
            == bag(pending, weight).add(bag(left, weight)),
    decreases batch.len(),
{
    let (l, r) = split(pending, batch, left);
    if batch.len() == 0 {
        assert(bag(l, weight).add(bag(r, weight)) =~= bag(pending, weight).add(bag(left, weight)));
    } else {
        let id = batch[0].id;
        let rest = batch.drop_first();
        match str_map::lookup(pending, id) {
            None => lemma_split_bag(pending, rest, left, weight),
            Some(v) => {
                let p = str_map::without(pending, id);
                let m = str_map::with(left, id, v);
                str_map::lemma_key_index(pending, id);
                str_map::lemma_key_index(left, id);
                str_map::lemma_without(pending, id);
                str_map::lemma_with(left, id, v);
                assert(!str_map::has_key(left, id));
                assert forall|k: Seq<char>| #[trigger] str_map::has_key(m, k) implies !str_map::has_key(
                    p,
                    k,
                ) by {
                    if k != id {
                        assert(str_map::lookup(m, k) == str_map::lookup(left, k));
                        assert(str_map::has_key(left, k));
                        assert(str_map::lookup(p, k) == str_map::lookup(pending, k));
                    }
                }
                lemma_split_bag(p, rest, m, weight);
                lemma_bag_remove(pending, weight, str_map::key_index(pending, id) as int);
                assert(m.drop_last() =~= left);
                assert(bag(l, weight).add(bag(r, weight)) =~= bag(pending, weight).add(
                    bag(left, weight),
                ));
            },
        }
    }
}

proof fn lemma_plan_bag_add<T, A>(
    a: Seq<PlanView<T>>,
    b: Seq<PlanView<T>>,
    weight: spec_fn(T) -> Multiset<A>,
)
    ensures
        plan_bag(a + b, weight) == plan_bag(a, weight).add(plan_bag(b, weight)),
    decreases b.len(),
{
    if b.len() == 0 {
        assert(a + b =~= a);
    } else {
        lemma_plan_bag_add(a, b.drop_last(), weight);
        assert((a + b).drop_last() =~= a + b.drop_last());
    }
    assert(plan_bag(a + b, weight) =~= plan_bag(a, weight).add(plan_bag(b, weight)));
}

/// Planning loses no request that waits and gains none: whatever is counted of them, the plans
/// hold as much of it as the batch did.
pub proof fn lemma_planning_keeps_all_requests<T, A>(
    route: Seq<char>,
    received_at_ms: u64,
    max_invoke_payload_bytes: usize,
    pending: Seq<(Seq<char>, T)>,
    batch: Seq<event::ItemView>,
    weight: spec_fn(T) -> Multiset<A>,
)
    requires
        str_map::distinct_keys(pending),
    ensures
        plan_bag(
            planned(route, received_at_ms, max_invoke_payload_bytes, pending, batch),
            weight,
        ) == bag(pending, weight),
    decreases batch.len(),
{
    let m = max_invoke_payload_bytes;
    let plans = planned(route, received_at_ms, m, pending, batch);
    if event::payload(route, received_at_ms, batch).len() <= m || batch.len() <= 1 {
        assert(plans.drop_last() =~= Seq::<PlanView<T>>::empty());
        assert(plan_bag(plans.drop_last(), weight) =~= Multiset::<A>::empty());
        assert(plan_bag(plans, weight) =~= bag(pending, weight));
    } else {
        let mid = batch.len() as int / 2;
        let none = Seq::<(Seq<char>, T)>::empty();
        let (lp, rp) = split(pending, batch.take(mid), none);
        lemma_split(pending, batch.take(mid), none);
        lemma_split_bag(pending, batch.take(mid), none, weight);
        lemma_planning_keeps_all_requests(route, received_at_ms, m, lp, batch.take(mid), weight);
        lemma_planning_keeps_all_requests(route, received_at_ms, m, rp, batch.skip(mid), weight);
        lemma_plan_bag_add(
            planned(route, received_at_ms, m, lp, batch.take(mid)),
            planned(route, received_at_ms, m, rp, batch.skip(mid)),
            weight,
        );
        assert(plan_bag(plans, weight) =~= bag(pending, weight));
    }
}

} // verus!
