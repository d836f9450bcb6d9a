//! Batches that reach a function as one event, taken apart into one event per request.
use vstd::prelude::*;
use vstd::string::*;

use crate::text;

verus! {

/// One request of a batch, with its own event.
#[derive(Debug)]
pub struct VirtualInvocation {
    pub id: String,
    pub event_bytes: Vec<u8>,
}

/// The envelope of a batch; each item is a JSON text.
#[derive(Debug)]
pub struct OuterBatchEnvelope {
    pub v: u8,
    pub batch: Vec<Vec<u8>>,
}

/// The text to which a JSON pointer leads in a JSON text, as `serde_json` reads it.
pub uninterp spec fn pointer_text(json: Seq<u8>, pointer: Seq<char>) -> Option<Seq<char>>;

/// `serde_json::from_slice` into a `serde_json::Value`, of which `pointer` and `as_str` are
/// asked.
#[verifier::external_body]
fn json_pointer_text(json: &[u8], pointer: &str) -> (r: Option<String>)
    ensures
        text::opt_text(r) == pointer_text(json@, pointer@),
{
    let value: serde_json::Value = serde_json::from_slice(json).ok()?;
    value.pointer(pointer)?.as_str().map(|t| t.to_string())
}

/// What a virtual invocation says: its id and its event.
pub type InvocationView = (Seq<char>, Seq<u8>);

/// The views of a sequence of virtual invocations.
pub open spec fn invocation_views(invocations: Seq<VirtualInvocation>) -> Seq<InvocationView> {
    Seq::new(invocations.len(), |i: int| (invocations[i].id@, invocations[i].event_bytes@))
}

/// The items of a batch as bytes.
pub open spec fn item_bytes(batch: Seq<Vec<u8>>) -> Seq<Seq<u8>> {
    Seq::new(batch.len(), |i: int| batch[i]@)
}

/// Whether some invocations hold one with an id.
pub open spec fn has_invocation(invocations: Seq<InvocationView>, id: Seq<char>) -> bool {
    exists|i: int| 0 <= i < invocations.len() && (#[trigger] invocations[i]).0 == id
}

/// The invocations of some items with these ids, behind those so far, or the first error: each
/// item has an id, and no id occurs twice.
pub open spec fn taken_apart(
    batch: Seq<Seq<u8>>,
    ids: Seq<Option<Seq<char>>>,
    acc: Seq<InvocationView>,
) -> Result<Seq<InvocationView>, Seq<char>>
    decreases batch.len(),
{
    if batch.len() == 0 {
        Ok(acc)
    } else {
        match ids[0] {
            None => Err("batch item missing requestContext.requestId"@),
            Some(id) => if has_invocation(acc, id) {
                Err("duplicate requestContext.requestId in batch ("@ + id + ")"@)
            } else {
                taken_apart(batch.drop_first(), ids.drop_first(), acc.push((id, batch[0])))
            },
        }
    }
}

/// The ids of some items: the text of `requestContext.requestId` of each.
pub open spec fn item_ids(batch: Seq<Seq<u8>>) -> Seq<Option<Seq<char>>> {
    Seq::new(batch.len(), |i: int| pointer_text(batch[i], "/requestContext/requestId"@))
}

/// The invocations of a body that was read as `env`: none where it is not a batch of version
/// one.
pub open spec fn outer_batch(env: Option<OuterBatchEnvelope>) -> Result<
    Option<Seq<InvocationView>>,
    Seq<char>,
> {
    match env {
        None => Ok(None),
        Some(e) => if e.v != 1 {
            Ok(None)
        } else {
            let batch = item_bytes(e.batch@);
            match taken_apart(batch, item_ids(batch), Seq::empty()) {
                Ok(all) => Ok(Some(all)),
                Err(m) => Err(m),
            }
        },
    }
}

/// No two invocations have the same id.
pub open spec fn distinct_invocations(invocations: Seq<InvocationView>) -> bool {
    forall|i: int, j: int|
        0 <= i < j < invocations.len() ==> (#[trigger] invocations[i]).0 != (
        #[trigger] invocations[j]).0
}

/// Taking a batch apart gives one invocation per item, in order, each with the id and the event
/// of its item, and no two with the same id.
pub proof fn lemma_taken_apart(
    batch: Seq<Seq<u8>>,
    ids: Seq<Option<Seq<char>>>,
    acc: Seq<InvocationView>,
)
    requires
        ids.len() == batch.len(),
        distinct_invocations(acc),
    ensures
        taken_apart(batch, ids, acc) matches Ok(all) ==> {
            &&& all.len() == acc.len() + batch.len()
            &&& all.take(acc.len() as int) == acc
            &&& distinct_invocations(all)
            &&& forall|i: int|
                0 <= i < batch.len() ==> Some((#[trigger] all[acc.len() + i]).0) == ids[i]
                    && all[acc.len() + i].1 == batch[i]
        },
    decreases batch.len(),
{
    if batch.len() == 0 {
        assert(acc.take(acc.len() as int) =~= acc);
    } else if let Some(id) = ids[0] {
        if !has_invocation(acc, id) {
            let next = acc.push((id, batch[0]));
            lemma_taken_apart(batch.drop_first(), ids.drop_first(), next);
            if let Ok(all) = taken_apart(batch, ids, acc) {
                assert(all.take(next.len() as int).take(acc.len() as int) =~= all.take(
                    acc.len() as int,
                ));
                assert(next.take(acc.len() as int) =~= acc);
                assert forall|i: int| 0 <= i < batch.len() implies Some(
                    (#[trigger] all[acc.len() + i]).0,
                ) == ids[i] && all[acc.len() + i].1 == batch[i] by {
                    if i == 0 {
                        assert(all.take(next.len() as int)[acc.len() as int] == next[acc.len() as int]);
                    } else {
                        let k = i - 1;
                        assert(all[next.len() + k].1 == batch.drop_first()[k]);
                        assert(Some(all[next.len() + k].0) == ids.drop_first()[k]);
                    }
                }
            }
        }
    }
}

fn contains_invocation(invocations: &Vec<VirtualInvocation>, id: &str) -> (r: bool)
    ensures
        r == has_invocation(invocation_views(invocations@), id@),
{
    let ghost all = invocation_views(invocations@);
    let mut i: usize = 0;
    while i < invocations.len()
        invariant
            i <= invocations@.len(),
            all == invocation_views(invocations@),
            forall|j: int| 0 <= j < i ==> (#[trigger] all[j]).0 != id@,
        decreases invocations@.len() - i,
    {
        if text::same_text(invocations[i].id.as_str(), id) {
            assert(all[i as int].0 == id@);
            return true;
        }
        i = i + 1;
    }
    false
}

/// The view of the outcome of taking a batch apart.
pub open spec fn outer_result(r: Result<Option<Vec<VirtualInvocation>>, String>) -> Result<
    Option<Seq<InvocationView>>,
    Seq<char>,
> {
    match r {
        Ok(Some(v)) => Ok(Some(invocation_views(v@))),
        Ok(None) => Ok(None),
        Err(e) => Err(e@),
    }
}

/// The ids of optional strings.
pub open spec fn id_texts(ids: Seq<Option<String>>) -> Seq<Option<Seq<char>>> {
    Seq::new(ids.len(), |i: int| text::opt_text(ids[i]))
}

/// The invocations of some items with these ids.
pub fn take_apart(batch: Vec<Vec<u8>>, ids: Vec<Option<String>>) -> (r: Result<
    Vec<VirtualInvocation>,
    String,
>)
    requires
        ids@.len() == batch@.len(),
    ensures
        match taken_apart(item_bytes(batch@), id_texts(ids@), Seq::empty()) {
            Ok(all) => r matches Ok(v) && invocation_views(v@) == all,
            Err(e) => r matches Err(m) && m@ == e,
        },
{
    let ghost all = item_bytes(batch@);
    let ghost names = id_texts(ids@);
    let mut out: Vec<VirtualInvocation> = Vec::new();
    let mut i: usize = 0;
    proof {
        assert(all.skip(0) =~= all);
        assert(names.skip(0) =~= names);
        assert(invocation_views(out@) =~= Seq::<InvocationView>::empty());
    }
    for item in it: batch
        invariant
            all == item_bytes(it.seq()),
            names == id_texts(ids@),
            ids@.len() == it.seq().len(),
            i == it.index(),
            taken_apart(all, names, Seq::empty()) == taken_apart(
                all.skip(i as int),
                names.skip(i as int),
                invocation_views(out@),
            ),
    {
        proof {
            assert(all.skip(i as int)[0] == item@);
            assert(names.skip(i as int)[0] == text::opt_text(ids@[i as int]));
            assert(all.skip(i as int).drop_first() =~= all.skip(i + 1));
            assert(names.skip(i as int).drop_first() =~= names.skip(i + 1));
        }
        assert(i < ids.len());
        let id = match &ids[i] {
            Some(id) => id.clone(),
            None => {
                return Err("batch item missing requestContext.requestId".to_owned());
            },
        };
        if contains_invocation(&out, id.as_str()) {
            let mut msg = "duplicate requestContext.requestId in batch (".to_owned();
            msg.append(id.as_str());
            msg.append(")");
            return Err(msg);
        }
        let ghost before = invocation_views(out@);
        let ghost next = (id@, item@);
        out.push(VirtualInvocation { id, event_bytes: item });
        assert(invocation_views(out@) =~= before.push(next));
        i = i + 1;
    }
    Ok(out)
}

/// The invocations of a body that was read as `env`.
pub fn parse_outer_smug_batch(env: Option<OuterBatchEnvelope>) -> (r: Result<
    Option<Vec<VirtualInvocation>>,
    String,
>)
    ensures
        outer_result(r) == outer_batch(env),
{
    let env = match env {
        Some(e) => e,
        None => {
            return Ok(None);
        },
    };
    if env.v != 1 {
        return Ok(None);
    }
    let ghost all = item_bytes(env.batch@);
    let mut ids: Vec<Option<String>> = Vec::new();
    let mut i: usize = 0;
    while i < env.batch.len()
        invariant
            i <= env.batch@.len(),
            all == item_bytes(env.batch@),
            id_texts(ids@) =~= item_ids(all).take(i as int),
        decreases env.batch@.len() - i,
    {
        let ghost before = id_texts(ids@);
        let id = json_pointer_text(env.batch[i].as_slice(), "/requestContext/requestId");
        ids.push(id);
        assert(id_texts(ids@) =~= before.push(text::opt_text(id)));
        i = i + 1;
    }
    assert(id_texts(ids@) =~= item_ids(all));
    assert(id_texts(ids@).len() == ids@.len());
    match take_apart(env.batch, ids) {
        Ok(v) => Ok(Some(v)),
        Err(e) => Err(e),
    }
}

} // verus!
