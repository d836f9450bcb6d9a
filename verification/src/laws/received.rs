//! What clients receive of a streamed invocation.
use vstd::prelude::*;

use crate::body;
use crate::laws::responses;
use crate::response;
use crate::str_map;
use crate::stream;
use crate::stream::StreamPending;
use crate::stream::StreamResponseRecord;
use crate::stream::StreamResponseRecordInterleaved;
use crate::stream::StreamResponseRecordLegacy;
use crate::text;

verus! {

/// The bytes that some actions send to the body of a request.
pub open spec fn bytes_in<I, D>(
    actions: Seq<stream::ActionView<I, D>>,
    id: Seq<char>,
) -> Seq<u8>
    decreases actions.len(),
{
    if actions.len() == 0 {
        Seq::empty()
    } else {
        let rest = bytes_in(actions.drop_first(), id);
        match actions[0] {
            stream::ActionView::Send { id: to, bytes, .. } => if to == id {
                bytes + rest
            } else {
                rest
            },
            _ => rest,
        }
    }
}

/// The bytes that are sent to the body of a request over a stream.
pub open spec fn bytes_sent<I, D>(
    steps: Seq<stream::StreamStep<I, D>>,
    id: Seq<char>,
) -> Seq<u8>
    decreases steps.len(),
{
    if steps.len() == 0 {
        Seq::empty()
    } else {
        bytes_in(steps[0].sent, id) + bytes_sent(steps.drop_first(), id)
    }
}

/// The bytes of a chunk record; one without a body has the empty text.
pub open spec fn chunk_bytes(r: StreamResponseRecordInterleaved) -> Seq<u8> {
    let text = if r.body is Some {
        r.body->0@
    } else {
        Seq::empty()
    };
    if r.is_base64_encoded {
        body::base64_bytes(text)->Ok_0
    } else {
        vstd::utf8::encode_utf8(text)
    }
}

/// Whether a record ends the response of its request.
pub open spec fn ends_response(record: StreamResponseRecord) -> bool {
    match record {
        StreamResponseRecord::Legacy(_) => true,
        StreamResponseRecord::Interleaved(r) => r.record_type is End || r.record_type is Error,
    }
}

/// The bytes of the chunk records for a request, in order, up to the first record that ends its
/// response.
pub open spec fn body_of(readings: Seq<stream::Reading>, id: Seq<char>) -> Seq<u8>
    decreases readings.len(),
{
    if readings.len() == 0 {
        Seq::empty()
    } else {
        let rest = body_of(readings.drop_first(), id);
        match readings[0] {
            stream::Reading::Record { record, .. } => if record.request_id() != id {
                rest
            } else if ends_response(record) {
                Seq::empty()
            } else {
                match record {
                    StreamResponseRecord::Interleaved(r) => if r.record_type is Chunk {
                        chunk_bytes(r) + rest
                    } else {
                        rest
                    },
                    StreamResponseRecord::Legacy(_) => Seq::empty(),
                }
            },
            _ => rest,
        }
    }
}

/// Whether a client takes all that is sent to it.
pub open spec fn takes_all(readings: Seq<stream::Reading>, id: Seq<char>) -> bool {
    forall|i: int|
        0 <= i < readings.len() ==> ((#[trigger] readings[i]) matches stream::Reading::Record {
            record,
            head_taken,
            chunk_taken,
        } ==> record.request_id() == id ==> head_taken && chunk_taken)
}

/// A response that a head or a chunk has opened stays open, with its body, where the client takes
/// what is sent; where it does not, the request waits no more.
pub proof fn lemma_open_responses_stay_open<I, D>(
    r: StreamResponseRecordInterleaved,
    pending: Seq<(Seq<char>, StreamPending<I, D>)>,
    tag: Option<usize>,
    head_taken: bool,
    chunk_taken: bool,
)
    requires
        str_map::distinct_keys(pending),
        str_map::has_key(pending, r.id@),
        r.record_type is Head || r.record_type is Chunk,
    ensures
        ({
            let entry = str_map::lookup(pending, r.id@)->0;
            let (outcome, left) = stream::record_step(
                StreamResponseRecord::Interleaved(r),
                pending,
                tag,
            );
            outcome matches Ok(action) ==> {
                let (error, waiting) = stream::carried_out(action, left, head_taken, chunk_taken);
                let gone = (entry.init is Some && !head_taken) || (r.record_type is Chunk
                    && !chunk_taken);
                error is None ==> str_map::lookup(waiting, r.id@) == if gone {
                    None
                } else {
                    Some(StreamPending::<I, D> { init: None, body: entry.body })
                }
            }
        }),
{
    let id = r.id@;
    let record = StreamResponseRecord::Interleaved(r);
    let entry = str_map::lookup(pending, id)->0;
    let others = str_map::without(pending, id);
    let open = StreamPending::<I, D> { init: None, body: entry.body };
    str_map::lemma_without(pending, id);
    str_map::lemma_with(others, id, open);
    str_map::lemma_with(others, id, entry);
}

/// What a record does to the bytes and to the waiting of the request with an id.
proof fn lemma_bytes_of_a_record<I, D>(
    record: StreamResponseRecord,
    pending: Seq<(Seq<char>, StreamPending<I, D>)>,
    tag: Option<usize>,
    head_taken: bool,
    chunk_taken: bool,
    id: Seq<char>,
)
    requires
        str_map::distinct_keys(pending),
        record.request_id() == id ==> head_taken && chunk_taken,
        stream::record_step(record, pending, tag).0 is Ok,
        stream::carried_out(
            stream::record_step(record, pending, tag).0->Ok_0,
            stream::record_step(record, pending, tag).1,
            head_taken,
            chunk_taken,
        ).0 is None,
    ensures
        ({
            let (outcome, left) = stream::record_step(record, pending, tag);
            let action = outcome->Ok_0;
            let waiting = stream::carried_out(action, left, head_taken, chunk_taken).1;
            let sent = bytes_in(stream::sent_for(action, head_taken), id);
            &&& str_map::distinct_keys(waiting)
            &&& if record.request_id() != id || !str_map::has_key(pending, id) {
                &&& sent == Seq::<u8>::empty()
                &&& str_map::has_key(waiting, id) == str_map::has_key(pending, id)
            } else if ends_response(record) {
                &&& sent == Seq::<u8>::empty()
                &&& !str_map::has_key(waiting, id)
            } else {
                &&& str_map::has_key(waiting, id)
                &&& sent == match record {
                    StreamResponseRecord::Interleaved(r) => if r.record_type is Chunk {
                        chunk_bytes(r)
                    } else {
                        Seq::empty()
                    },
                    StreamResponseRecord::Legacy(_) => Seq::empty(),
                }
            }
        }),
{
    let to = record.request_id();
    let (outcome, left) = stream::record_step(record, pending, tag);
    let action = outcome->Ok_0;
    let waiting = stream::carried_out(action, left, head_taken, chunk_taken).1;
    let sent = stream::sent_for(action, head_taken);
    reveal_with_fuel(bytes_in, 3);
    if sent.len() == 2 {
        assert(sent.drop_first()[0] == sent[1]);
    }
    stream::lemma_carried_out(record, pending, tag, head_taken, chunk_taken);
    str_map::lemma_without(pending, to);
    let others = str_map::without(pending, to);
    if let Some(entry) = str_map::lookup(pending, to) {
        let open = StreamPending::<I, D> { init: None, body: entry.body };
        str_map::lemma_with(others, to, open);
        str_map::lemma_with(others, to, entry);
        assert(str_map::lookup(others, id) == str_map::lookup(pending, id) || id == to);
        assert(id != to ==> str_map::lookup(str_map::with(others, to, open), id)
            == str_map::lookup(others, id));
        assert(id != to ==> str_map::lookup(str_map::with(others, to, entry), id)
            == str_map::lookup(others, id));
        if let StreamResponseRecord::Interleaved(r) = record {
            if r.record_type is Chunk {
                assert(chunk_bytes(r) + Seq::<u8>::empty() =~= chunk_bytes(r));
            }
        }
    }
}

/// The body that a client receives over a stream is that of the chunk records for its request, one
/// after another, up to the first record that ends the response: nothing is lost, added or
/// reordered, whatever records for other requests stand between. A request that does not wait
/// receives nothing.
pub proof fn lemma_bodies_arrive_whole<I, D>(
    readings: Seq<stream::Reading>,
    pending: Seq<(Seq<char>, StreamPending<I, D>)>,
    tag: Option<usize>,
    id: Seq<char>,
)
    requires
        str_map::distinct_keys(pending),
        takes_all(readings, id),
        stream::served(readings, pending, tag).error is None,
    ensures
        bytes_sent(stream::served(readings, pending, tag).steps, id) == if str_map::has_key(
            pending,
            id,
        ) {
            body_of(readings, id)
        } else {
            Seq::empty()
        },
    decreases readings.len(),
{
    if readings.len() > 0 {
        let rest = readings.drop_first();
        let s = stream::served(readings, pending, tag);
        assert forall|i: int| 0 <= i < rest.len() implies ((#[trigger] rest[i]) matches stream::Reading::Record {
            record,
            head_taken,
            chunk_taken,
        } ==> record.request_id() == id ==> head_taken && chunk_taken) by {
            assert(rest[i] == readings[i + 1]);
        }
        match readings[0] {
            stream::Reading::Record { record, head_taken, chunk_taken } => {
                let (outcome, left) = stream::record_step(record, pending, tag);
                let action = outcome->Ok_0;
                let waiting = stream::carried_out(action, left, head_taken, chunk_taken).1;
                lemma_bytes_of_a_record(record, pending, tag, head_taken, chunk_taken, id);
                lemma_bodies_arrive_whole(rest, waiting, tag, id);
                let more = stream::served(rest, waiting, tag);
                assert(s.steps.drop_first() =~= more.steps);
                assert(s.steps[0].sent == stream::sent_for(action, head_taken));
                assert(bytes_sent(s.steps, id) =~= bytes_in(s.steps[0].sent, id) + bytes_sent(
                    more.steps,
                    id,
                ));
            },
            _ => lemma_bodies_arrive_whole(rest, pending, tag, id),
        }
    }
}

/// Whether an action opens the response of a request with a status, and with its own sinks.
pub open spec fn opens_with<I, D>(
    action: stream::ActionView<I, D>,
    entry: StreamPending<I, D>,
    id: Seq<char>,
    status: u16,
) -> bool {
    action matches stream::ActionView::Open { init, status: s, id: to, body, .. } && Some(init)
        == entry.init && s == status && to == id && body == entry.body
}

/// A head record opens the response of its request with its status, or with 200 where it has
/// none, and with its headers and cookies. It is an error only where these are not valid.
pub proof fn lemma_heads_are_passed_on<I, D>(
    r: StreamResponseRecordInterleaved,
    pending: Seq<(Seq<char>, StreamPending<I, D>)>,
)
    requires
        r.v == 1,
        r.record_type is Head,
        str_map::lookup(pending, r.id@) matches Some(e) && e.init is Some,
    ensures
        ({
            let status = if r.status_code is Some {
                r.status_code->0
            } else {
                200
            };
            let headers = str_map::text_entries(r.headers@);
            let cookies = text::texts(r.cookies@);
            let entry = str_map::lookup(pending, r.id@)->0;
            let outcome = stream::record_step(
                StreamResponseRecord::Interleaved(r),
                pending,
                None,
            ).0;
            &&& outcome is Ok <==> responses::can_be_answered(
                status,
                headers,
                cookies,
                Seq::empty(),
                false,
            )
            &&& outcome matches Ok(action) ==> {
                &&& opens_with(action, entry, r.id@, status)
                &&& action->Open_next is Keep
                &&& forall|i: int|
                    0 <= i < headers.len() ==> action->Open_headers.dom().contains(
                        text::lower_text((#[trigger] headers[i]).0),
                    )
                &&& cookies.len() == 0 ==> forall|i: int|
                    0 <= i < headers.len() && (forall|j: int|
                        i < j < headers.len() ==> text::lower_text((#[trigger] headers[j]).0)
                            != text::lower_text(headers[i].0))
                        ==> action->Open_headers[text::lower_text((#[trigger] headers[i]).0)]
                        == seq![vstd::utf8::encode_utf8(headers[i].1)]
                &&& cookies.len() > 0 ==> action->Open_headers.dom().contains("set-cookie"@)
                    && responses::cookie_values(cookies).is_suffix_of(
                    action->Open_headers["set-cookie"@],
                )
            }
        }),
{
    let status = if r.status_code is Some {
        r.status_code->0
    } else {
        200
    };
    let headers = str_map::text_entries(r.headers@);
    let cookies = text::texts(r.cookies@);
    responses::lemma_sound_records_make_responses(status, headers, cookies, Seq::empty(), false);
}

/// A whole response reaches its request with its status and its body, where it can be made, and
/// is an error otherwise.
pub proof fn lemma_whole_responses_are_passed_on<I, D>(
    r: StreamResponseRecordLegacy,
    pending: Seq<(Seq<char>, StreamPending<I, D>)>,
    tag: Option<usize>,
)
    requires
        r.v == 1,
        str_map::lookup(pending, r.id@) matches Some(e) && e.init is Some,
    ensures
        ({
            let entry = str_map::lookup(pending, r.id@)->0;
            let outcome = stream::record_step(StreamResponseRecord::Legacy(r), pending, tag).0;
            &&& outcome is Ok <==> responses::can_be_answered(
                r.status_code,
                str_map::text_entries(r.headers@),
                text::texts(r.cookies@),
                r.body@,
                r.is_base64_encoded,
            )
            &&& outcome matches Ok(action) ==> {
                &&& action matches stream::ActionView::Respond { init, response }
                &&& Some(init) == entry.init
                &&& response.status == r.status_code
                &&& responses::is_body_of(response.body, r.body@, r.is_base64_encoded)
                &&& response == response::tagged(
                    response::response_parts(
                        r.status_code,
                        str_map::text_entries(r.headers@),
                        text::texts(r.cookies@),
                        r.body@,
                        r.is_base64_encoded,
                    )->Ok_0,
                    tag,
                )
            }
        }),
{
    responses::lemma_sound_records_make_responses(
        r.status_code,
        str_map::text_entries(r.headers@),
        text::texts(r.cookies@),
        r.body@,
        r.is_base64_encoded,
    );
}

/// An error record answers its request, where its response has not begun, with its status and its
/// message: 502 where it has no status of its own, and `error` where it has no message.
pub proof fn lemma_errors_are_passed_on<I, D>(
    r: StreamResponseRecordInterleaved,
    pending: Seq<(Seq<char>, StreamPending<I, D>)>,
    tag: Option<usize>,
)
    requires
        r.v == 1,
        r.record_type is Error,
        str_map::lookup(pending, r.id@) matches Some(e) && e.init is Some,
    ensures
        ({
            let entry = str_map::lookup(pending, r.id@)->0;
            let outcome = stream::record_step(
                StreamResponseRecord::Interleaved(r),
                pending,
                tag,
            ).0;
            &&& outcome matches Ok(action)
            &&& action matches stream::ActionView::Respond { init, response }
            &&& Some(init) == entry.init
            &&& response.status == if r.status_code is Some && 100 <= r.status_code->0 <= 999 {
                r.status_code->0
            } else {
                502
            }
            &&& response.body == vstd::utf8::encode_utf8(
                if r.message is Some {
                    r.message->0@
                } else {
                    "error"@
                },
            )
        }),
{
}

/// The first chunk or the end of a response that has not begun opens it with 200.
pub proof fn lemma_responses_begin_with_success<I, D>(
    r: StreamResponseRecordInterleaved,
    pending: Seq<(Seq<char>, StreamPending<I, D>)>,
)
    requires
        r.v == 1,
        r.record_type is Chunk || r.record_type is End,
        str_map::lookup(pending, r.id@) matches Some(e) && e.init is Some,
    ensures
        ({
            let entry = str_map::lookup(pending, r.id@)->0;
            let outcome = stream::record_step(
                StreamResponseRecord::Interleaved(r),
                pending,
                None,
            ).0;
            &&& outcome matches Ok(action)
            &&& opens_with(action, entry, r.id@, 200)
            &&& action->Open_headers == Map::<Seq<char>, Seq<Seq<u8>>>::empty()
        }),
{
}

/// A chunk of a response that has begun is sent to the body of its request, where it decodes, and
/// is an error otherwise.
pub proof fn lemma_chunks_are_passed_on<I, D>(
    r: StreamResponseRecordInterleaved,
    pending: Seq<(Seq<char>, StreamPending<I, D>)>,
    tag: Option<usize>,
)
    requires
        r.v == 1,
        r.record_type is Chunk,
        str_map::lookup(pending, r.id@) matches Some(e) && e.init is None,
    ensures
        ({
            let entry = str_map::lookup(pending, r.id@)->0;
            let text = if r.body is Some {
                r.body->0@
            } else {
                Seq::empty()
            };
            let outcome = stream::record_step(
                StreamResponseRecord::Interleaved(r),
                pending,
                tag,
            ).0;
            &&& outcome is Ok <==> (r.is_base64_encoded ==> body::base64_bytes(text) is Ok)
            &&& outcome matches Ok(action) ==> {
                &&& action matches stream::ActionView::Send { id, body, bytes }
                &&& id == r.id@
                &&& body == entry.body
                &&& bytes == chunk_bytes(r)
            }
        }),
{
}

/// Telling the batch size changes nothing of how a response is opened but the header that tells
/// it.
pub proof fn lemma_heads_tell_the_batch_size<I, D>(
    r: StreamResponseRecordInterleaved,
    pending: Seq<(Seq<char>, StreamPending<I, D>)>,
    n: usize,
)
    requires
        r.v == 1,
        !(r.record_type is Error),
        str_map::lookup(pending, r.id@) matches Some(e) && e.init is Some,
    ensures
        ({
            let record = StreamResponseRecord::Interleaved(r);
            let plain = stream::record_step(record, pending, None).0;
            let told = stream::record_step(record, pending, Some(n)).0;
            let name = "x-lpr-batch-size"@;
            &&& plain is Ok <==> told is Ok
            &&& plain matches Ok(a) ==> {
                let b = told->Ok_0;
                &&& a is Open && b is Open
                &&& b->Open_status == a->Open_status
                &&& b->Open_next == a->Open_next
                &&& b->Open_headers.remove(name) == a->Open_headers.remove(name)
                &&& b->Open_headers.dom().contains(name)
                &&& b->Open_headers[name] == seq![
                    vstd::utf8::encode_utf8(text::decimal_text(n as nat)),
                ]
            }
        }),
{
    let record = StreamResponseRecord::Interleaved(r);
    let name = "x-lpr-batch-size"@;
    if let Ok(a) = stream::record_step(record, pending, None).0 {
        let b = stream::record_step(record, pending, Some(n)).0->Ok_0;
        assert(b->Open_headers.remove(name) =~= a->Open_headers.remove(name));
    }
}

/// A record of another version is an error, and changes nothing of who waits.
pub proof fn lemma_other_versions_are_refused<I, D>(
    record: StreamResponseRecord,
    pending: Seq<(Seq<char>, StreamPending<I, D>)>,
    tag: Option<usize>,
)
    requires
        match record {
            StreamResponseRecord::Legacy(r) => r.v != 1,
            StreamResponseRecord::Interleaved(r) => r.v != 1,
        },
    ensures
        stream::record_step(record, pending, tag).0 is Err,
        stream::record_step(record, pending, tag).1 == pending,
{
}

/// A failure answers each request whose response has not begun with its status and its text.
pub proof fn lemma_stream_failures_say_why<I, D>(
    pending: Seq<(Seq<char>, StreamPending<I, D>)>,
    tag: Option<usize>,
    status: u16,
    msg: Seq<char>,
    i: int,
)
    requires
        0 <= i < stream::stream_failed(pending, tag, status, msg).len(),
    ensures
        stream::stream_failed(pending, tag, status, msg)[i].1.status == status,
        stream::stream_failed(pending, tag, status, msg)[i].1.body == vstd::utf8::encode_utf8(msg),
        exists|j: int|
            0 <= j < pending.len() && (#[trigger] pending[j]).1.init == Some(
                stream::stream_failed(pending, tag, status, msg)[i].0,
            ),
    decreases pending.len(),
{
    if pending.len() > 0 {
        let head = stream::stream_failed(pending.drop_last(), tag, status, msg);
        if i < head.len() {
            lemma_stream_failures_say_why(pending.drop_last(), tag, status, msg, i);
            let j = choose|j: int|
                0 <= j < pending.drop_last().len() && (#[trigger] pending.drop_last()[j]).1.init
                    == Some(head[i].0);
            assert(pending[j].1.init == Some(head[i].0));
        } else {
            assert(pending[pending.len() - 1].1.init is Some);
        }
    }
}

} // verus!
