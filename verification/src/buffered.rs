//! Buffered invocations: one JSON document with the responses of a whole batch.
use vstd::prelude::*;
use vstd::string::*;

use crate::response;
use crate::response::RouterResponse;
use crate::str_map;
use crate::str_map::StrMap;
use crate::text;

verus! {

/// The response to a batch.
#[derive(Debug)]
pub struct BatchResponse {
    pub v: u8,
    pub responses: Vec<BatchResponseItem>,
}

/// The response to one request of a batch.
#[derive(Debug)]
pub struct BatchResponseItem {
    pub id: String,
    pub status_code: u16,
    pub headers: StrMap<String>,
    pub cookies: Vec<String>,
    pub body: String,
    pub is_base64_encoded: bool,
}

/// What the response to one request says.
#[verifier::ext_equal]
pub struct ResponseItemView {
    pub id: Seq<char>,
    pub status_code: u16,
    pub headers: Seq<(Seq<char>, Seq<char>)>,
    pub cookies: Seq<Seq<char>>,
    pub body: Seq<char>,
    pub is_base64_encoded: bool,
}

impl View for BatchResponseItem {
    type V = ResponseItemView;

    open spec fn view(&self) -> ResponseItemView {
        ResponseItemView {
            id: self.id@,
            status_code: self.status_code,
            headers: str_map::text_entries(self.headers@),
            cookies: text::texts(self.cookies@),
            body: self.body@,
            is_base64_encoded: self.is_base64_encoded,
        }
    }
}

/// The views of a sequence of response items.
pub open spec fn response_items(items: Seq<BatchResponseItem>) -> Seq<ResponseItemView> {
    Seq::new(items.len(), |i: int| items[i]@)
}

impl BatchResponse {
    /// No response has more headers than a header map is sure to take.
    pub open spec fn headers_fit(&self) -> bool {
        forall|i: int|
            0 <= i < self.responses@.len() ==> (#[trigger] self.responses@[i]).headers@.len()
                <= response::MAX_RESPONSE_HEADERS
    }
}

/// Replies with the responses taken by their views.
pub open spec fn reply_views<B>(replies: Seq<(B, RouterResponse)>) -> Seq<
    (B, response::ResponseView),
> {
    Seq::new(replies.len(), |i: int| (replies[i].0, replies[i].1@))
}

/// The same text for every request that waits.
pub open spec fn failed<B>(
    pending: Seq<(Seq<char>, B)>,
    tag: Option<usize>,
    status: u16,
    msg: Seq<char>,
) -> Seq<(B, response::ResponseView)> {
    Seq::new(
        pending.len(),
        |i: int| (pending[i].1, response::tagged(response::text_response(status, msg), tag)),
    )
}

/// The batch size that a response tells, where it does.
pub open spec fn size_tag(size: nat, report_batch_size: bool) -> Option<usize> {
    if report_batch_size {
        Some(size as usize)
    } else {
        None
    }
}

/// A text response with the batch size, where it is asked for.
pub fn tagged_text(status: u16, msg: &str, tag: Option<usize>) -> (r: RouterResponse)
    ensures
        r@ == response::tagged(response::text_response(status, msg@), tag),
{
    let mut resp = RouterResponse::text(status, msg);
    response::tag_headers(&mut resp.headers, tag);
    assert(resp@ =~= response::tagged(response::text_response(status, msg@), tag));
    resp
}

/// Answers every request that waits with the same text.
pub fn fail_all_buffered<B>(pending: StrMap<B>, tag: Option<usize>, status: u16, msg: &str) -> (r:
    Vec<(B, RouterResponse)>)
    ensures
        reply_views(r@) == failed(pending@, tag, status, msg@),
{
    let ghost all = failed(pending@, tag, status, msg@);
    let sinks = pending.into_values();
    let mut out: Vec<(B, RouterResponse)> = Vec::new();
    assert(reply_views(out@) =~= all.take(0));
    for tx in it: sinks
        invariant
            all.len() == it.seq().len(),
            forall|i: int|
                0 <= i < all.len() ==> #[trigger] all[i] == (
                    it.seq()[i],
                    response::tagged(response::text_response(status, msg@), tag),
                ),
            reply_views(out@) == all.take(it.index() as int),
    {
        let ghost before = reply_views(out@);
        let resp = tagged_text(status, msg, tag);
        let ghost n = it.index() as int;
        out.push((tx, resp));
        assert(reply_views(out@) =~= before.push(all[n]));
        assert(all.take(n).push(all[n]) =~= all.take(n + 1));
    }
    assert(all.take(all.len() as int) =~= all);
    out
}

/// The response that a response item stands for.
pub open spec fn item_response(item: ResponseItemView) -> response::ResponseView {
    match response::response_parts(
        item.status_code,
        item.headers,
        item.cookies,
        item.body,
        item.is_base64_encoded,
    ) {
        Ok(r) => r,
        Err(e) => response::text_response(502, "bad response: "@ + e),
    }
}

/// The replies that some response items give: each of the requests that wait is answered by
/// the first item with its id, and those without one by an error. Items with other ids are
/// dropped.
pub open spec fn answered<B>(
    items: Seq<ResponseItemView>,
    pending: Seq<(Seq<char>, B)>,
    tag: Option<usize>,
) -> Seq<(B, response::ResponseView)>
    decreases items.len(),
{
    if items.len() == 0 {
        failed(pending, tag, 502, "missing response record"@)
    } else {
        match str_map::lookup(pending, items[0].id) {
            None => answered(items.drop_first(), pending, tag),
            Some(tx) => seq![(tx, response::tagged(item_response(items[0]), tag))] + answered(
                items.drop_first(),
                str_map::without(pending, items[0].id),
                tag,
            ),
        }
    }
}

/// The replies to the requests of a batch for which `parsed` came back.
pub open spec fn buffered_replies<B>(
    parsed: Result<BatchResponse, String>,
    pending: Seq<(Seq<char>, B)>,
    report_batch_size: bool,
) -> Seq<(B, response::ResponseView)> {
    let tag = size_tag(pending.len(), report_batch_size);
    match parsed {
        Err(e) => failed(pending, tag, 502, "decode response: "@ + e@),
        Ok(p) => if p.v != 1 {
            failed(
                pending,
                tag,
                502,
                "unsupported response version: "@ + text::decimal_text(p.v as nat),
            )
        } else {
            answered(response_items(p.responses@), pending, tag)
        },
    }
}

/// The batch size that the responses to some requests tell, where they do.
pub fn batch_size_tag<B>(pending: &StrMap<B>, report_batch_size: bool) -> (r: Option<usize>)
    ensures
        r == size_tag(pending@.len(), report_batch_size),
{
    if report_batch_size {
        Some(pending.len())
    } else {
        None
    }
}

fn build_item_response(item: &BatchResponseItem, tag: Option<usize>) -> (r: RouterResponse)
    requires
        item.headers@.len() <= response::MAX_RESPONSE_HEADERS,
    ensures
        r@ == response::tagged(item_response(item@), tag),
{
    match response::build_router_response_parts(
        item.status_code,
        &item.headers,
        &item.cookies,
        item.body.as_str(),
        item.is_base64_encoded,
    ) {
        Ok(r) => {
            let mut resp = r;
            response::tag_headers(&mut resp.headers, tag);
            assert(resp@ =~= response::tagged(item_response(item@), tag));
            resp
        },
        Err(e) => {
            let msg = text::concat("bad response: ", e.as_str());
            tagged_text(502, msg.as_str(), tag)
        },
    }
}

/// Answers the requests of a batch with what came back for it: the decoded response, or the
/// error of decoding it.
pub fn dispatch_buffered<B>(
    parsed: Result<BatchResponse, String>,
    pending: StrMap<B>,
    report_batch_size: bool,
) -> (r: Vec<(B, RouterResponse)>)
    requires
        parsed matches Ok(p) ==> p.headers_fit(),
    ensures
        reply_views(r@) == buffered_replies(parsed, pending@, report_batch_size),
{
    let tag = batch_size_tag(&pending, report_batch_size);
    let parsed = match parsed {
        Ok(p) => p,
        Err(e) => {
            let msg = text::concat("decode response: ", e.as_str());
            return fail_all_buffered(pending, tag, 502, msg.as_str());
        },
    };
    if parsed.v != 1 {
        let version = text::decimal(parsed.v as u64);
        let msg = text::concat("unsupported response version: ", version.as_str());
        return fail_all_buffered(pending, tag, 502, msg.as_str());
    }
    let ghost all = response_items(parsed.responses@);
    let ghost start = pending@;
    let mut pending = pending;
    let mut out: Vec<(B, RouterResponse)> = Vec::new();
    let mut i: usize = 0;
    proof {
        assert(all.skip(0) =~= all);
        assert(reply_views(out@) + answered(all, start, tag) =~= answered(all, start, tag));
    }
    while i < parsed.responses.len()
        invariant
            i <= parsed.responses@.len(),
            parsed.headers_fit(),
            all == response_items(parsed.responses@),
            answered(all, start, tag) == reply_views(out@) + answered(
                all.skip(i as int),
                pending@,
                tag,
            ),
        decreases parsed.responses@.len() - i,
    {
        let item = &parsed.responses[i];
        let ghost before = reply_views(out@);
        let ghost waiting = pending@;
        proof {
            assert(all.skip(i as int)[0] == item@);
            assert(all.skip(i as int).drop_first() =~= all.skip(i + 1));
        }
        if let Some(tx) = pending.remove(item.id.as_str()) {
            let resp = build_item_response(item, tag);
            let ghost reply = (tx, resp@);
            out.push((tx, resp));
            proof {
                assert(reply_views(out@) =~= before.push(reply));
                let rest = answered(all.skip(i + 1), pending@, tag);
                assert(before + (seq![reply] + rest) =~= before.push(reply) + rest);
            }
        } else {
            proof {
                str_map::lemma_key_index(waiting, item.id@);
            }
        }
        i = i + 1;
    }
    let ghost before = reply_views(out@);
    let mut rest = fail_all_buffered(pending, tag, 502, "missing response record");
    let ghost last = reply_views(rest@);
    out.append(&mut rest);
    proof {
        assert(all.skip(all.len() as int).len() == 0);
        assert(reply_views(out@) =~= before + last);
    }
    out
}

/// The sinks of some replies, in order.
pub open spec fn reply_sinks<B>(replies: Seq<(B, response::ResponseView)>) -> Seq<B> {
    Seq::new(replies.len(), |i: int| replies[i].0)
}

proof fn lemma_failed_sinks<B>(
    pending: Seq<(Seq<char>, B)>,
    tag: Option<usize>,
    status: u16,
    msg: Seq<char>,
)
    ensures
        reply_sinks(failed(pending, tag, status, msg)) == str_map::values(pending),
{
    assert(reply_sinks(failed(pending, tag, status, msg)) =~= str_map::values(pending));
}

proof fn lemma_answered_sinks<B>(
    items: Seq<ResponseItemView>,
    pending: Seq<(Seq<char>, B)>,
    tag: Option<usize>,
)
    ensures
        reply_sinks(answered(items, pending, tag)).to_multiset() == str_map::values(
            pending,
        ).to_multiset(),
    decreases items.len(),
{
    broadcast use vstd::seq_lib::group_to_multiset_ensures;

    if items.len() == 0 {
        lemma_failed_sinks(pending, tag, 502, "missing response record"@);
    } else {
        let id = items[0].id;
        match str_map::lookup(pending, id) {
            None => lemma_answered_sinks(items.drop_first(), pending, tag),
            Some(tx) => {
                let rest = str_map::without(pending, id);
                let n = str_map::key_index(pending, id) as int;
                lemma_answered_sinks(items.drop_first(), rest, tag);
                let tail = answered(items.drop_first(), rest, tag);
                let all = answered(items, pending, tag);
                assert(reply_sinks(all) =~= seq![tx] + reply_sinks(tail));
                vstd::seq_lib::lemma_multiset_commutative(seq![tx], reply_sinks(tail));
                assert(seq![tx] =~= Seq::<B>::empty().push(tx));
                assert(str_map::values(rest) =~= str_map::values(pending).remove(n));
                assert(str_map::values(pending)[n] == tx);
                vstd::seq_lib::to_multiset_remove(str_map::values(pending), n);
                assert(reply_sinks(all).to_multiset() =~= str_map::values(pending).to_multiset());
            },
        }
    }
}

/// Every request of a batch is answered exactly once, whatever came back for the batch.
pub proof fn lemma_everyone_is_answered_once<B>(
    parsed: Result<BatchResponse, String>,
    pending: Seq<(Seq<char>, B)>,
    report_batch_size: bool,
)
    ensures
        reply_sinks(buffered_replies(parsed, pending, report_batch_size)).to_multiset()
            == str_map::values(pending).to_multiset(),
{
    let tag = size_tag(pending.len(), report_batch_size);
    match parsed {
        Err(e) => lemma_failed_sinks(pending, tag, 502, "decode response: "@ + e@),
        Ok(p) => if p.v != 1 {
            lemma_failed_sinks(
                pending,
                tag,
                502,
                "unsupported response version: "@ + text::decimal_text(p.v as nat),
            );
        } else {
            lemma_answered_sinks(response_items(p.responses@), pending, tag);
        },
    }
}

/// The response that some response items give to the request with an id: that of the first
/// item with the id, or an error.
pub open spec fn response_for(items: Seq<ResponseItemView>, id: Seq<char>) -> response::ResponseView
    decreases items.len(),
{
    if items.len() == 0 {
        response::text_response(502, "missing response record"@)
    } else if items[0].id == id {
        item_response(items[0])
    } else {
        response_for(items.drop_first(), id)
    }
}

/// Each request of a batch is answered by the response with its id, in whatever order the
/// responses come.
pub proof fn lemma_answered_by_id<B>(
    items: Seq<ResponseItemView>,
    pending: Seq<(Seq<char>, B)>,
    tag: Option<usize>,
    n: int,
)
    requires
        str_map::distinct_keys(pending),
        0 <= n < pending.len(),
    ensures
        answered(items, pending, tag).contains(
            (pending[n].1, response::tagged(response_for(items, pending[n].0), tag)),
        ),
    decreases items.len(),
{
    let all = answered(items, pending, tag);
    let reply = (pending[n].1, response::tagged(response_for(items, pending[n].0), tag));
    if items.len() == 0 {
        assert(all[n] == reply);
    } else {
        let id = items[0].id;
        str_map::lemma_key_index(pending, id);
        str_map::lemma_has_key(pending, n);
        match str_map::lookup(pending, id) {
            None => {
                lemma_answered_by_id(items.drop_first(), pending, tag, n);
            },
            Some(tx) => {
                let rest = str_map::without(pending, id);
                let tail = answered(items.drop_first(), rest, tag);
                if pending[n].0 == id {
                    assert(all[0] == reply);
                } else {
                    str_map::lemma_without(pending, id);
                    let k = str_map::key_index(pending, id) as int;
                    let m = if n < k {
                        n
                    } else {
                        n - 1
                    };
                    assert(rest[m] == pending[n]);
                    lemma_answered_by_id(items.drop_first(), rest, tag, m);
                    let j = choose|j: int| 0 <= j < tail.len() && tail[j] == reply;
                    assert(all[j + 1] == reply);
                }
            },
        }
    }
}

} // verus!
