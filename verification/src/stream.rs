//! Streamed invocations: NDJSON records, each for one request of a batch.
use vstd::prelude::*;
use vstd::string::*;

use crate::body;
use crate::buffered;
use crate::http_types;
use crate::lines;
use crate::lines::LineBuffer;
use crate::request::StreamHead;
use crate::response;
use crate::response::RouterResponse;
use crate::str_map;
use crate::str_map::StrMap;
use crate::text;

verus! {

/// A request that waits for a streamed response; `init` is taken once the response has begun.
#[derive(Debug)]
pub struct StreamPending<I, D> {
    pub init: Option<I>,
    pub body: D,
}

/// Whether a JSON text is an object, and whether it has members with the names `first` and
/// `second`, or the text of the error, as `serde_json` reads it.
pub uninterp spec fn json_members(line: Seq<u8>, first: Seq<char>, second: Seq<char>) -> Result<
    (bool, bool, bool),
    Seq<char>,
>;

/// The view of a shape.
pub open spec fn shape_view(r: Result<(bool, bool, bool), String>) -> Result<
    (bool, bool, bool),
    Seq<char>,
> {
    match r {
        Ok(s) => Ok(s),
        Err(e) => Err(e@),
    }
}

/// `serde_json::from_slice` into a `serde_json::Value`, of which `is_object` and `get` of the
/// two names are asked.
#[verifier::external_body]
fn read_members(line: &[u8], first: &str, second: &str) -> (r: Result<(bool, bool, bool), String>)
    ensures
        shape_view(r) == json_members(line@, first@, second@),
{
    match serde_json::from_slice::<serde_json::Value>(line) {
        Ok(v) => Ok((v.is_object(), v.get(first).is_some(), v.get(second).is_some())),
        Err(e) => Err(e.to_string()),
    }
}

/// What a line of a stream is read as.
#[derive(Debug, Clone, Copy, PartialEq, Eq, Structural)]
pub enum RecordShape {
    /// A record without an id, which is dropped.
    Unaddressed,
    /// A whole response.
    Legacy,
    /// A part of a response.
    Interleaved,
}

/// What a line is read as, given whether it is an object, whether it has a type and whether it
/// has an id.
pub open spec fn record_shape(shape: (bool, bool, bool)) -> RecordShape {
    if shape.0 && !shape.2 {
        RecordShape::Unaddressed
    } else if shape.1 {
        RecordShape::Interleaved
    } else {
        RecordShape::Legacy
    }
}

/// What a line is read as.
pub fn classify_shape(is_object: bool, has_type: bool, has_id: bool) -> (r: RecordShape)
    ensures
        r == record_shape((is_object, has_type, has_id)),
{
    if is_object && !has_id {
        RecordShape::Unaddressed
    } else if has_type {
        RecordShape::Interleaved
    } else {
        RecordShape::Legacy
    }
}

/// What is said of a line that cannot be read.
pub fn bad_record(err: &str) -> (r: String)
    ensures
        r@ == "bad ndjson record: "@ + err@,
{
    text::concat("bad ndjson record: ", err)
}

/// What a line of a stream is read as: its members `type` and `id` decide.
pub fn classify_record(line: &[u8]) -> (r: Result<RecordShape, String>)
    ensures
        match json_members(line@, "type"@, "id"@) {
            Ok(s) => r matches Ok(x) && x == record_shape(s),
            Err(e) => r matches Err(m) && m@ == "bad ndjson record: "@ + e,
        },
{
    match read_members(line, "type", "id") {
        Ok((is_object, has_type, has_id)) => Ok(classify_shape(is_object, has_type, has_id)),
        Err(e) => Err(bad_record(e.as_str())),
    }
}

/// A record of a stream.
#[derive(Debug)]
pub enum StreamResponseRecord {
    Legacy(StreamResponseRecordLegacy),
    Interleaved(StreamResponseRecordInterleaved),
}

/// A whole response.
#[derive(Debug)]
pub struct StreamResponseRecordLegacy {
    pub v: u8,
    pub id: String,
    pub status_code: u16,
    pub headers: StrMap<String>,
    pub cookies: Vec<String>,
    pub body: String,
    pub is_base64_encoded: bool,
}

#[derive(Debug, Clone, Copy, PartialEq, Eq, Structural)]
pub enum StreamRecordType {
    Head,
    Chunk,
    End,
    Error,
}

/// A part of a response.
#[derive(Debug)]
pub struct StreamResponseRecordInterleaved {
    pub v: u8,
    pub id: String,
    pub record_type: StreamRecordType,
    pub status_code: Option<u16>,
    pub headers: StrMap<String>,
    pub cookies: Vec<String>,
    pub body: Option<String>,
    pub is_base64_encoded: bool,
    pub message: Option<String>,
}

impl StreamResponseRecord {
    /// The version of a record.
    pub open spec fn version(self) -> u8 {
        match self {
            StreamResponseRecord::Legacy(r) => r.v,
            StreamResponseRecord::Interleaved(r) => r.v,
        }
    }

    /// The id of the request that a record is for.
    pub open spec fn request_id(self) -> Seq<char> {
        match self {
            StreamResponseRecord::Legacy(r) => r.id@,
            StreamResponseRecord::Interleaved(r) => r.id@,
        }
    }

    /// The record has no more headers than a header map is sure to take.
    pub open spec fn headers_fit(self) -> bool {
        match self {
            StreamResponseRecord::Legacy(r) => r.headers@.len() <= response::MAX_RESPONSE_HEADERS,
            StreamResponseRecord::Interleaved(r) => r.headers@.len()
                <= response::MAX_RESPONSE_HEADERS,
        }
    }
}

/// What follows the head of a response.
#[derive(Debug)]
pub enum AfterHead {
    /// The response stays open.
    Keep,
    /// A chunk of the body.
    Chunk { text: String, is_base64_encoded: bool },
    /// The response ends.
    Close,
}

/// What is to be done for a record.
#[derive(Debug)]
pub enum StreamAction<I, D> {
    /// Nothing.
    Idle,
    /// Send a whole response.
    Respond { init: I, response: RouterResponse },
    /// Send the head of a response, and report whether the client took it.
    Open { init: I, head: StreamHead, id: String, body: D, next: AfterHead },
    /// Send a chunk of a body, and report whether the client took it.
    Send { id: String, body: D, bytes: Vec<u8> },
}

/// What follows the head of a response.
#[verifier::ext_equal]
pub enum AfterHeadView {
    Keep,
    Chunk { text: Seq<char>, is_base64_encoded: bool },
    Close,
}

impl View for AfterHead {
    type V = AfterHeadView;

    open spec fn view(&self) -> AfterHeadView {
        match self {
            AfterHead::Keep => AfterHeadView::Keep,
            AfterHead::Chunk { text, is_base64_encoded } => AfterHeadView::Chunk {
                text: text@,
                is_base64_encoded: *is_base64_encoded,
            },
            AfterHead::Close => AfterHeadView::Close,
        }
    }
}

/// What an action says.
#[verifier::ext_equal]
pub enum ActionView<I, D> {
    Idle,
    Respond { init: I, response: response::ResponseView },
    Open {
        init: I,
        status: u16,
        headers: Map<Seq<char>, Seq<Seq<u8>>>,
        id: Seq<char>,
        body: D,
        next: AfterHeadView,
    },
    Send { id: Seq<char>, body: D, bytes: Seq<u8> },
}

impl<I, D> View for StreamAction<I, D> {
    type V = ActionView<I, D>;

    open spec fn view(&self) -> ActionView<I, D> {
        match self {
            StreamAction::Idle => ActionView::Idle,
            StreamAction::Respond { init, response } => ActionView::Respond {
                init: *init,
                response: response@,
            },
            StreamAction::Open { init, head, id, body, next } => ActionView::Open {
                init: *init,
                status: head.status,
                headers: http_types::header_entries(head.headers),
                id: id@,
                body: *body,
                next: next@,
            },
            StreamAction::Send { id, body, bytes } => ActionView::Send {
                id: id@,
                body: *body,
                bytes: bytes@,
            },
        }
    }
}

/// The view of the outcome of a step.
pub open spec fn action_result<I, D>(r: Result<StreamAction<I, D>, String>) -> Result<
    ActionView<I, D>,
    Seq<char>,
> {
    match r {
        Ok(a) => Ok(a@),
        Err(e) => Err(e@),
    }
}

/// The head of a response, where it has not begun; `None` where it has.
pub open spec fn head_action<I, D>(
    entry: StreamPending<I, D>,
    id: Seq<char>,
    status: u16,
    headers: Seq<(Seq<char>, Seq<char>)>,
    cookies: Seq<Seq<char>>,
    next: AfterHeadView,
    tag: Option<usize>,
) -> Result<Option<ActionView<I, D>>, Seq<char>> {
    match entry.init {
        None => Ok(None),
        Some(init) => if !http_types::valid_status(status) {
            Err("bad status code: "@ + "invalid status code"@)
        } else {
            match response::record_headers(headers, cookies) {
                Err(e) => Err("bad response headers: "@ + e),
                Ok(h) => Ok(
                    Some(
                        ActionView::Open {
                            init,
                            status,
                            headers: response::tagged_headers(h, tag),
                            id,
                            body: entry.body,
                            next,
                        },
                    ),
                ),
            }
        },
    }
}

/// A chunk of a body.
pub open spec fn chunk_action<I, D>(
    id: Seq<char>,
    body: D,
    text: Seq<char>,
    is_base64_encoded: bool,
) -> Result<ActionView<I, D>, Seq<char>> {
    match body::decoded_body(text, is_base64_encoded) {
        Ok(bytes) => Ok(ActionView::Send { id, body, bytes }),
        Err(e) => Err("bad chunk body: "@ + e),
    }
}

/// An optional text, or a text in its place.
pub open spec fn text_or(value: Option<String>, default: Seq<char>) -> Seq<char> {
    match value {
        Some(v) => v@,
        None => default,
    }
}

/// An optional number, or a number in its place.
pub open spec fn number_or(value: Option<u16>, default: u16) -> u16 {
    match value {
        Some(v) => v,
        None => default,
    }
}

/// What is to be done for a record whose request waits with `entry`, and the entry that keeps
/// waiting.
pub open spec fn entry_step<I, D>(
    record: StreamResponseRecord,
    entry: StreamPending<I, D>,
    tag: Option<usize>,
) -> Result<(ActionView<I, D>, Option<StreamPending<I, D>>), Seq<char>> {
    match record {
        StreamResponseRecord::Legacy(r) => match response::response_parts(
            r.status_code,
            str_map::text_entries(r.headers@),
            text::texts(r.cookies@),
            r.body@,
            r.is_base64_encoded,
        ) {
            Err(e) => Err("bad response: "@ + e),
            Ok(resp) => match entry.init {
                Some(init) => Ok(
                    (ActionView::Respond { init, response: response::tagged(resp, tag) }, None),
                ),
                None => Ok((ActionView::Idle, None)),
            },
        },
        StreamResponseRecord::Interleaved(r) => match r.record_type {
            StreamRecordType::Head => match head_action(
                entry,
                r.id@,
                number_or(r.status_code, 200),
                str_map::text_entries(r.headers@),
                text::texts(r.cookies@),
                AfterHeadView::Keep,
                tag,
            ) {
                Err(e) => Err(e),
                Ok(Some(a)) => Ok((a, None)),
                Ok(None) => Ok((ActionView::Idle, Some(entry))),
            },
            StreamRecordType::Chunk => match head_action(
                entry,
                r.id@,
                200,
                Seq::empty(),
                Seq::empty(),
                AfterHeadView::Chunk {
                    text: text_or(r.body, Seq::empty()),
                    is_base64_encoded: r.is_base64_encoded,
                },
                tag,
            ) {
                Err(e) => Err(e),
                Ok(Some(a)) => Ok((a, None)),
                Ok(None) => match chunk_action(
                    r.id@,
                    entry.body,
                    text_or(r.body, Seq::empty()),
                    r.is_base64_encoded,
                ) {
                    Ok(a) => Ok((a, None)),
                    Err(e) => Err(e),
                },
            },
            StreamRecordType::End => match head_action(
                entry,
                r.id@,
                200,
                Seq::empty(),
                Seq::empty(),
                AfterHeadView::Close,
                tag,
            ) {
                Err(e) => Err(e),
                Ok(Some(a)) => Ok((a, None)),
                Ok(None) => Ok((ActionView::Idle, None)),
            },
            StreamRecordType::Error => match entry.init {
                None => Ok((ActionView::Idle, None)),
                Some(init) => {
                    let status = number_or(r.status_code, 502);
                    let resp = response::text_response(
                        if http_types::valid_status(status) {
                            status
                        } else {
                            502
                        },
                        text_or(r.message, "error"@),
                    );
                    Ok((ActionView::Respond { init, response: response::tagged(resp, tag) }, None))
                },
            },
        },
    }
}

/// What is to be done for a record, and the requests that keep waiting. An error fails all of
/// those.
pub open spec fn record_step<I, D>(
    record: StreamResponseRecord,
    pending: Seq<(Seq<char>, StreamPending<I, D>)>,
    tag: Option<usize>,
) -> (Result<ActionView<I, D>, Seq<char>>, Seq<(Seq<char>, StreamPending<I, D>)>) {
    if record.version() != 1 {
        (
            Err("unsupported record version: "@ + text::decimal_text(record.version() as nat)),
            pending,
        )
    } else {
        let id = record.request_id();
        match str_map::lookup(pending, id) {
            None => (Ok(ActionView::Idle), pending),
            Some(entry) => {
                let others = str_map::without(pending, id);
                match entry_step(record, entry, tag) {
                    Err(e) => (Err(e), others),
                    Ok((a, None)) => (Ok(a), others),
                    Ok((a, Some(kept))) => (Ok(a), str_map::with(others, id, kept)),
                }
            },
        }
    }
}

/// What is to be done once the head of a response was sent, and the entry that keeps waiting.
pub open spec fn after_head_step<I, D>(
    id: Seq<char>,
    body: D,
    next: AfterHeadView,
    taken: bool,
) -> (Result<ActionView<I, D>, Seq<char>>, Option<StreamPending<I, D>>) {
    if !taken {
        (Ok(ActionView::Idle), None)
    } else {
        match next {
            AfterHeadView::Keep => (
                Ok(ActionView::Idle),
                Some(StreamPending { init: None, body }),
            ),
            AfterHeadView::Chunk { text, is_base64_encoded } => (
                chunk_action(id, body, text, is_base64_encoded),
                None,
            ),
            AfterHeadView::Close => (Ok(ActionView::Idle), None),
        }
    }
}

/// The requests that keep waiting, with one more where there is one.
pub open spec fn with_kept<I, D>(
    pending: Seq<(Seq<char>, StreamPending<I, D>)>,
    id: Seq<char>,
    kept: Option<StreamPending<I, D>>,
) -> Seq<(Seq<char>, StreamPending<I, D>)> {
    match kept {
        Some(e) => str_map::with(pending, id, e),
        None => pending,
    }
}

/// The requests that keep waiting once a chunk was sent: with the one that it was for, where
/// the client took it.
pub open spec fn with_sent<I, D>(
    pending: Seq<(Seq<char>, StreamPending<I, D>)>,
    id: Seq<char>,
    body: D,
    taken: bool,
) -> Seq<(Seq<char>, StreamPending<I, D>)> {
    if taken {
        str_map::with(pending, id, StreamPending { init: None, body })
    } else {
        pending
    }
}

/// The head of a response, where it has not begun: the sink is taken, and the entry gives its
/// body to the action. Otherwise the entry comes back.
fn send_stream_head<I, D>(
    entry: StreamPending<I, D>,
    id: &String,
    status_code: u16,
    headers: &StrMap<String>,
    cookies: &Vec<String>,
    next: AfterHead,
    tag: Option<usize>,
) -> (r: Result<Result<StreamAction<I, D>, D>, String>)
    requires
        headers@.len() <= response::MAX_RESPONSE_HEADERS,
    ensures
        match head_action(
            entry,
            id@,
            status_code,
            str_map::text_entries(headers@),
            text::texts(cookies@),
            next@,
            tag,
        ) {
            Err(e) => r matches Err(m) && m@ == e,
            Ok(Some(a)) => r matches Ok(Ok(x)) && x@ == a,
            Ok(None) => r matches Ok(Err(body)) && body == entry.body,
        },
{
    let StreamPending { init, body } = entry;
    let init = match init {
        Some(i) => i,
        None => {
            return Ok(Err(body));
        },
    };
    let status = match http_types::status_code(status_code) {
        Ok(s) => s,
        Err(e) => {
            return Err(text::concat("bad status code: ", e.as_str()));
        },
    };
    let mut headers = match response::response_headers(headers, cookies) {
        Ok(h) => h,
        Err(e) => {
            return Err(text::concat("bad response headers: ", e.as_str()));
        },
    };
    response::tag_headers(&mut headers, tag);
    Ok(
        Ok(
            StreamAction::Open {
                init,
                head: StreamHead { status, headers },
                id: id.clone(),
                body,
                next,
            },
        ),
    )
}

/// The same head without headers and with the status of success.
fn send_default_head<I, D>(
    entry: StreamPending<I, D>,
    id: &String,
    next: AfterHead,
    tag: Option<usize>,
) -> (r: Result<Result<StreamAction<I, D>, D>, String>)
    ensures
        match head_action(entry, id@, 200, Seq::empty(), Seq::empty(), next@, tag) {
            Err(e) => r matches Err(m) && m@ == e,
            Ok(Some(a)) => r matches Ok(Ok(x)) && x@ == a,
            Ok(None) => r matches Ok(Err(body)) && body == entry.body,
        },
{
    let headers: StrMap<String> = StrMap::new();
    let cookies: Vec<String> = Vec::new();
    proof {
        assert(str_map::text_entries(headers@) =~= Seq::<(Seq<char>, Seq<char>)>::empty());
        assert(text::texts(cookies@) =~= Seq::<Seq<char>>::empty());
    }
    send_stream_head(entry, id, 200, &headers, &cookies, next, tag)
}

fn send_chunk<I, D>(id: String, body: D, text: &str, is_base64_encoded: bool) -> (r: Result<
    StreamAction<I, D>,
    String,
>)
    ensures
        action_result(r) == chunk_action::<I, D>(id@, body, text@, is_base64_encoded),
{
    match body::decode_body_bytes(text, is_base64_encoded) {
        Ok(bytes) => Ok(StreamAction::Send { id, body, bytes }),
        Err(e) => Err(text::concat("bad chunk body: ", e.as_str())),
    }
}

fn or_text(value: Option<String>, default: &str) -> (r: String)
    ensures
        r@ == text_or(value, default@),
{
    match value {
        Some(v) => v,
        None => default.to_owned(),
    }
}

fn or_number(value: Option<u16>, default: u16) -> (r: u16)
    ensures
        r == number_or(value, default),
{
    match value {
        Some(v) => v,
        None => default,
    }
}

/// The outcome of an entry: what is to be done, and the entry that keeps waiting.
type EntryOutcome<I, D> = Result<(StreamAction<I, D>, Option<StreamPending<I, D>>), String>;

/// The view of the outcome of an entry.
pub open spec fn entry_outcome<I, D>(
    r: Result<(StreamAction<I, D>, Option<StreamPending<I, D>>), String>,
) -> Result<(ActionView<I, D>, Option<StreamPending<I, D>>), Seq<char>> {
    match r {
        Ok((a, kept)) => Ok((a@, kept)),
        Err(e) => Err(e@),
    }
}

fn legacy_step<I, D>(
    record: StreamResponseRecordLegacy,
    entry: StreamPending<I, D>,
    tag: Option<usize>,
) -> (r: EntryOutcome<I, D>)
    requires
        record.headers@.len() <= response::MAX_RESPONSE_HEADERS,
    ensures
        entry_outcome(r) == entry_step(StreamResponseRecord::Legacy(record), entry, tag),
{
    let mut resp = match response::build_router_response_parts(
        record.status_code,
        &record.headers,
        &record.cookies,
        record.body.as_str(),
        record.is_base64_encoded,
    ) {
        Ok(r) => r,
        Err(e) => {
            return Err(text::concat("bad response: ", e.as_str()));
        },
    };
    let ghost plain = resp@;
    response::tag_headers(&mut resp.headers, tag);
    assert(resp@ =~= response::tagged(plain, tag));
    match entry.init {
        Some(init) => Ok((StreamAction::Respond { init, response: resp }, None)),
        None => Ok((StreamAction::Idle, None)),
    }
}

fn interleaved_step<I, D>(
    record: StreamResponseRecordInterleaved,
    entry: StreamPending<I, D>,
    tag: Option<usize>,
) -> (r: EntryOutcome<I, D>)
    requires
        record.headers@.len() <= response::MAX_RESPONSE_HEADERS,
    ensures
        entry_outcome(r) == entry_step(StreamResponseRecord::Interleaved(record), entry, tag),
{
    proof {
        reveal_strlit("");
        assert(""@ =~= Seq::<char>::empty());
    }
    match record.record_type {
        StreamRecordType::Head => {
            let status_code = or_number(record.status_code, 200);
            match send_stream_head(
                entry,
                &record.id,
                status_code,
                &record.headers,
                &record.cookies,
                AfterHead::Keep,
                tag,
            ) {
                Err(e) => Err(e),
                Ok(Ok(a)) => Ok((a, None)),
                Ok(Err(body)) => Ok((StreamAction::Idle, Some(StreamPending { init: None, body }))),
            }
        },
        StreamRecordType::Chunk => {
            let text = or_text(record.body, "");
            if entry.init.is_some() {
                let next = AfterHead::Chunk {
                    text,
                    is_base64_encoded: record.is_base64_encoded,
                };
                match send_default_head(entry, &record.id, next, tag) {
                    Err(e) => Err(e),
                    Ok(Ok(a)) => Ok((a, None)),
                    Ok(Err(_)) => Ok((StreamAction::Idle, None)),
                }
            } else {
                match send_chunk(record.id, entry.body, text.as_str(), record.is_base64_encoded) {
                    Ok(a) => Ok((a, None)),
                    Err(e) => Err(e),
                }
            }
        },
        StreamRecordType::End => {
            match send_default_head(entry, &record.id, AfterHead::Close, tag) {
                Err(e) => Err(e),
                Ok(Ok(a)) => Ok((a, None)),
                Ok(Err(_)) => Ok((StreamAction::Idle, None)),
            }
        },
        StreamRecordType::Error => {
            match entry.init {
                None => Ok((StreamAction::Idle, None)),
                Some(init) => {
                    let code = or_number(record.status_code, 502);
                    let status: u16 = match http_types::status_code(code) {
                        Ok(s) => s,
                        Err(_) => 502,
                    };
                    let msg = or_text(record.message, "error");
                    let resp = buffered::tagged_text(status, msg.as_str(), tag);
                    Ok((StreamAction::Respond { init, response: resp }, None))
                },
            }
        },
    }
}

/// What is to be done for a record. Requests that wait for other records keep waiting; on an
/// error the request of the record does not.
pub fn dispatch_stream_record<I, D>(
    record: StreamResponseRecord,
    pending: &mut StrMap<StreamPending<I, D>>,
    tag: Option<usize>,
) -> (r: Result<StreamAction<I, D>, String>)
    requires
        record.headers_fit(),
    ensures
        (action_result(r), final(pending)@) == record_step(record, old(pending)@, tag),
        old(pending).wf() ==> final(pending).wf(),
{
    let ghost start = pending@;
    let version: u8 = match &record {
        StreamResponseRecord::Legacy(r) => r.v,
        StreamResponseRecord::Interleaved(r) => r.v,
    };
    if version != 1 {
        let n = text::decimal(version as u64);
        return Err(text::concat("unsupported record version: ", n.as_str()));
    }
    let id = match &record {
        StreamResponseRecord::Legacy(r) => r.id.clone(),
        StreamResponseRecord::Interleaved(r) => r.id.clone(),
    };
    proof {
        str_map::lemma_key_index(start, id@);
    }
    let entry = match pending.remove(id.as_str()) {
        Some(e) => e,
        None => {
            return Ok(StreamAction::Idle);
        },
    };
    let outcome = match record {
        StreamResponseRecord::Legacy(r) => legacy_step(r, entry, tag),
        StreamResponseRecord::Interleaved(r) => interleaved_step(r, entry, tag),
    };
    match outcome {
        Err(e) => Err(e),
        Ok((action, kept)) => {
            if let Some(e) = kept {
                pending.insert(id, e);
            }
            Ok(action)
        },
    }
}

/// The texts for the requests whose responses have not begun, in order.
pub open spec fn stream_failed<I, D>(
    pending: Seq<(Seq<char>, StreamPending<I, D>)>,
    tag: Option<usize>,
    status: u16,
    msg: Seq<char>,
) -> Seq<(I, response::ResponseView)>
    decreases pending.len(),
{
    if pending.len() == 0 {
        Seq::empty()
    } else {
        let head = stream_failed(pending.drop_last(), tag, status, msg);
        match pending.last().1.init {
            Some(init) => head.push(
                (init, response::tagged(response::text_response(status, msg), tag)),
            ),
            None => head,
        }
    }
}

/// Answers every request whose response has not begun with the same text. The bodies of the
/// others end here.
pub fn fail_all_stream<I, D>(
    pending: StrMap<StreamPending<I, D>>,
    tag: Option<usize>,
    status: u16,
    msg: &str,
) -> (r: Vec<(I, RouterResponse)>)
    ensures
        buffered::reply_views(r@) == stream_failed(pending@, tag, status, msg@),
{
    let ghost all = pending@;
    let entries = pending.into_values();
    let mut out: Vec<(I, RouterResponse)> = Vec::new();
    proof {
        assert(all.take(0) =~= Seq::<(Seq<char>, StreamPending<I, D>)>::empty());
        assert(buffered::reply_views(out@) =~= Seq::<(I, response::ResponseView)>::empty());
    }
    for entry in it: entries
        invariant
            it.seq() == str_map::values(all),
            buffered::reply_views(out@) == stream_failed(
                all.take(it.index() as int),
                tag,
                status,
                msg@,
            ),
    {
        let ghost n = it.index() as int;
        let ghost before = buffered::reply_views(out@);
        proof {
            assert(all.take(n + 1).drop_last() =~= all.take(n));
            assert(all.take(n + 1).last() == all[n]);
            assert(entry == all[n].1);
        }
        if let Some(init) = entry.init {
            let resp = buffered::tagged_text(status, msg, tag);
            let ghost reply = (init, resp@);
            out.push((init, resp));
            assert(buffered::reply_views(out@) =~= before.push(reply));
        }
    }
    assert(all.take(all.len() as int) =~= all);
    out
}

/// A record touches no request but its own.
pub proof fn lemma_record_touches_its_own_request<I, D>(
    record: StreamResponseRecord,
    pending: Seq<(Seq<char>, StreamPending<I, D>)>,
    tag: Option<usize>,
    k: Seq<char>,
)
    requires
        str_map::distinct_keys(pending),
        k != record.request_id(),
    ensures
        str_map::lookup(record_step(record, pending, tag).1, k) == str_map::lookup(pending, k),
{
    let id = record.request_id();
    str_map::lemma_without(pending, id);
    let others = str_map::without(pending, id);
    if let Some(entry) = str_map::lookup(pending, id) {
        match entry_step(record, entry, tag) {
            Ok((_, Some(kept))) => str_map::lemma_with(others, id, kept),
            _ => {},
        }
    }
}

/// A record for an unknown request is dropped.
pub proof fn lemma_unknown_ids_are_dropped<I, D>(
    record: StreamResponseRecord,
    pending: Seq<(Seq<char>, StreamPending<I, D>)>,
    tag: Option<usize>,
)
    requires
        record.version() == 1,
        !str_map::has_key(pending, record.request_id()),
    ensures
        record_step(record, pending, tag).0 == Ok::<ActionView<I, D>, Seq<char>>(ActionView::Idle),
        record_step(record, pending, tag).1 == pending,
{
}

/// The sink that an action uses to begin a response.
pub open spec fn begun_with<I, D>(action: ActionView<I, D>) -> Option<I> {
    match action {
        ActionView::Respond { init, .. } => Some(init),
        ActionView::Open { init, .. } => Some(init),
        _ => None,
    }
}

/// A response is begun at most once: an action that begins one uses the sink of the request of
/// its record, the request does not keep waiting, and where it waits again once the head was
/// sent, it waits without a sink.
pub proof fn lemma_response_begins_once<I, D>(
    record: StreamResponseRecord,
    pending: Seq<(Seq<char>, StreamPending<I, D>)>,
    tag: Option<usize>,
    taken: bool,
)
    requires
        str_map::distinct_keys(pending),
    ensures
        record_step(record, pending, tag).0 matches Ok(action) ==> {
            &&& begun_with(action) matches Some(init) ==> {
                &&& str_map::lookup(pending, record.request_id()) matches Some(entry)
                    && entry.init == Some(init)
                &&& !str_map::has_key(record_step(record, pending, tag).1, record.request_id())
            }
            &&& action matches ActionView::Open { id, body, next, .. } ==> {
                &&& id == record.request_id()
                &&& after_head_step::<I, D>(id, body, next, taken).1 matches Some(entry)
                    ==> entry.init is None
                &&& after_head_step::<I, D>(id, body, next, taken).0 matches Ok(a) ==> begun_with(
                    a,
                ) is None
            }
        },
{
    str_map::lemma_without(pending, record.request_id());
}

/// A request whose response has begun gets no second head, and no other response.
pub proof fn lemma_no_second_head<I, D>(
    record: StreamResponseRecord,
    entry: StreamPending<I, D>,
    tag: Option<usize>,
)
    requires
        entry.init is None,
    ensures
        entry_step(record, entry, tag) matches Ok((action, kept)) ==> begun_with(action) is None && (
        kept matches Some(e) ==> e == entry),
{
}

/// Without a head, the first chunk and the end of a response give one: the status of success
/// and no headers but the batch size, where it is asked for.
pub proof fn lemma_default_head<I, D>(
    record: StreamResponseRecordInterleaved,
    entry: StreamPending<I, D>,
    tag: Option<usize>,
)
    requires
        entry.init is Some,
        record.record_type is Chunk || record.record_type is End,
    ensures
        entry_step(StreamResponseRecord::Interleaved(record), entry, tag) matches Ok((action, kept))
            && kept is None && (action matches ActionView::Open { init, status, headers, .. }
            && Some(init) == entry.init && status == 200 && headers == response::tagged_headers(
            http_types::no_headers(),
            tag,
        )),
{
}

/// The sinks of the requests whose responses have not begun, in order.
pub open spec fn open_sinks<I, D>(pending: Seq<(Seq<char>, StreamPending<I, D>)>) -> Seq<I>
    decreases pending.len(),
{
    if pending.len() == 0 {
        Seq::empty()
    } else {
        let head = open_sinks(pending.drop_last());
        match pending.last().1.init {
            Some(init) => head.push(init),
            None => head,
        }
    }
}

/// One sink, or none.
pub open spec fn sink_bag<I>(init: Option<I>) -> vstd::multiset::Multiset<I> {
    match init {
        Some(i) => vstd::multiset::Multiset::singleton(i),
        None => vstd::multiset::Multiset::empty(),
    }
}

/// Taking an entry out takes its sink out.
pub proof fn lemma_open_sinks_without<I, D>(pending: Seq<(Seq<char>, StreamPending<I, D>)>, n: int)
    requires
        0 <= n < pending.len(),
    ensures
        open_sinks(pending).to_multiset() == open_sinks(pending.remove(n)).to_multiset().add(
            sink_bag(pending[n].1.init),
        ),
    decreases pending.len(),
{
    broadcast use vstd::seq_lib::group_to_multiset_ensures;

    let last = pending.last().1.init;
    let head = pending.drop_last();
    if n == pending.len() - 1 {
        assert(pending.remove(n) =~= head);
    } else {
        lemma_open_sinks_without(head, n);
        assert(pending.remove(n).drop_last() =~= head.remove(n));
        assert(pending.remove(n).last() == pending.last());
    }
    assert(open_sinks(pending).to_multiset() =~= open_sinks(pending.remove(n)).to_multiset().add(
        sink_bag(pending[n].1.init),
    ));
}

/// A record that is no error loses no sink: each is still waiting, but for the one with which
/// the action begins a response.
pub proof fn lemma_no_sink_is_lost<I, D>(
    record: StreamResponseRecord,
    pending: Seq<(Seq<char>, StreamPending<I, D>)>,
    tag: Option<usize>,
)
    requires
        str_map::distinct_keys(pending),
    ensures
        record_step(record, pending, tag).0 matches Ok(action) ==> open_sinks(
            pending,
        ).to_multiset() == open_sinks(record_step(record, pending, tag).1).to_multiset().add(
            sink_bag(begun_with(action)),
        ),
{
    broadcast use vstd::seq_lib::group_to_multiset_ensures;

    let id = record.request_id();
    let (outcome, after) = record_step(record, pending, tag);
    str_map::lemma_key_index(pending, id);
    str_map::lemma_without(pending, id);
    if let Ok(action) = outcome {
        match str_map::lookup(pending, id) {
            None => {
                assert(open_sinks(pending).to_multiset() =~= open_sinks(after).to_multiset().add(
                    sink_bag(begun_with(action)),
                ));
            },
            Some(entry) => {
                let n = str_map::key_index(pending, id) as int;
                lemma_open_sinks_without(pending, n);
                let others = str_map::without(pending, id);
                match entry_step(record, entry, tag) {
                    Ok((_, Some(kept))) => {
                        str_map::lemma_key_index(others, id);
                        assert(after.drop_last() =~= others);
                        assert(kept.init is None);
                    },
                    _ => {},
                }
                assert(open_sinks(pending).to_multiset() =~= open_sinks(after).to_multiset().add(
                    sink_bag(begun_with(action)),
                ));
            },
        }
    }
}

/// A failure answers every request whose response has not begun, each once.
pub proof fn lemma_failure_answers_everyone<I, D>(
    pending: Seq<(Seq<char>, StreamPending<I, D>)>,
    tag: Option<usize>,
    status: u16,
    msg: Seq<char>,
)
    ensures
        buffered::reply_sinks(stream_failed(pending, tag, status, msg)) == open_sinks(pending),
    decreases pending.len(),
{
    if pending.len() > 0 {
        lemma_failure_answers_everyone(pending.drop_last(), tag, status, msg);
    }
    assert(buffered::reply_sinks(stream_failed(pending, tag, status, msg)) =~= open_sinks(pending));
}

/// The requests that wait once the action for a record was carried out, and the error with
/// which it ends; `head_taken` and `chunk_taken` tell whether the client took what was sent.
pub open spec fn carried_out<I, D>(
    action: ActionView<I, D>,
    pending: Seq<(Seq<char>, StreamPending<I, D>)>,
    head_taken: bool,
    chunk_taken: bool,
) -> (Option<Seq<char>>, Seq<(Seq<char>, StreamPending<I, D>)>) {
    match action {
        ActionView::Open { id, body, next, .. } => {
            let (then, kept) = after_head_step::<I, D>(id, body, next, head_taken);
            let waiting = with_kept(pending, id, kept);
            match then {
                Err(e) => (Some(e), waiting),
                Ok(ActionView::Send { id, body, .. }) => (
                    None,
                    with_sent(waiting, id, body, chunk_taken),
                ),
                Ok(_) => (None, waiting),
            }
        },
        ActionView::Send { id, body, .. } => (None, with_sent(pending, id, body, chunk_taken)),
        _ => (None, pending),
    }
}

/// What is sent to clients where an action is carried out, in order.
pub open spec fn sent_for<I, D>(action: ActionView<I, D>, head_taken: bool) -> Seq<
    ActionView<I, D>,
> {
    match action {
        ActionView::Idle => Seq::empty(),
        ActionView::Open { id, body, next, .. } => match after_head_step::<I, D>(
            id,
            body,
            next,
            head_taken,
        ).0 {
            Ok(ActionView::Send { id, body, bytes }) => seq![
                action,
                ActionView::Send { id, body, bytes },
            ],
            _ => seq![action],
        },
        _ => seq![action],
    }
}

/// What is made of a line of a stream.
pub enum Reading {
    /// A record, and whether the client takes what is sent for it: the head, and the chunk.
    Record { record: StreamResponseRecord, head_taken: bool, chunk_taken: bool },
    /// Nothing, for want of an id.
    Unaddressed,
    /// An error, which fails the requests that wait.
    Unreadable { error: Seq<char> },
}

/// What was done for a record: what was sent to clients, and the requests that wait then. The
/// body of a request that waited before and does not any more is closed.
#[verifier::ext_equal]
pub struct StreamStep<I, D> {
    pub sent: Seq<ActionView<I, D>>,
    pub waiting: Seq<(Seq<char>, StreamPending<I, D>)>,
}

/// What became of the requests of a batch.
#[verifier::ext_equal]
pub struct Served<I, D> {
    /// The sinks with which responses were begun, in order.
    pub begun: Seq<I>,
    /// What was done for each record, in order.
    pub steps: Seq<StreamStep<I, D>>,
    /// The requests that still wait.
    pub waiting: Seq<(Seq<char>, StreamPending<I, D>)>,
    /// The sink of the request whose record was at fault.
    pub lost: Option<I>,
    /// The error of the line or record that was at fault.
    pub error: Option<Seq<char>>,
}

/// The requests of a batch before anything was done, or where an error came first.
pub open spec fn not_served<I, D>(
    pending: Seq<(Seq<char>, StreamPending<I, D>)>,
    error: Option<Seq<char>>,
) -> Served<I, D> {
    Served { begun: Seq::empty(), steps: Seq::empty(), waiting: pending, lost: None, error }
}

/// What becomes of the requests of a batch with what is made of the lines of a stream, up to
/// the first fault.
pub open spec fn served<I, D>(
    readings: Seq<Reading>,
    pending: Seq<(Seq<char>, StreamPending<I, D>)>,
    tag: Option<usize>,
) -> Served<I, D>
    decreases readings.len(),
{
    if readings.len() == 0 {
        not_served(pending, None)
    } else {
        match readings[0] {
            Reading::Unaddressed => served(readings.drop_first(), pending, tag),
            Reading::Unreadable { error } => not_served(pending, Some(error)),
            Reading::Record { record, head_taken, chunk_taken } => {
                let (outcome, left) = record_step(record, pending, tag);
                match outcome {
                    Err(e) => Served {
                        lost: if record.version() != 1 {
                            None
                        } else {
                            match str_map::lookup(pending, record.request_id()) {
                                Some(entry) => entry.init,
                                None => None,
                            }
                        },
                        ..not_served(left, Some(e))
                    },
                    Ok(action) => {
                        let begun = match begun_with(action) {
                            Some(init) => seq![init],
                            None => Seq::empty(),
                        };
                        let (error, waiting) = carried_out(action, left, head_taken, chunk_taken);
                        let steps = seq![
                            StreamStep { sent: sent_for(action, head_taken), waiting },
                        ];
                        if error is Some {
                            Served { begun, steps, waiting, lost: None, error }
                        } else {
                            let more = served(readings.drop_first(), waiting, tag);
                            Served {
                                begun: begun + more.begun,
                                steps: steps + more.steps,
                                ..more
                            }
                        }
                    },
                }
            },
        }
    }
}

/// An entry whose response has begun adds no sink.
proof fn lemma_begun_adds_no_sink<I, D>(
    pending: Seq<(Seq<char>, StreamPending<I, D>)>,
    id: Seq<char>,
    entry: StreamPending<I, D>,
)
    requires
        str_map::distinct_keys(pending),
        !str_map::has_key(pending, id),
        entry.init is None,
    ensures
        str_map::distinct_keys(str_map::with(pending, id, entry)),
        open_sinks(str_map::with(pending, id, entry)) == open_sinks(pending),
{
    str_map::lemma_with(pending, id, entry);
    assert(pending.push((id, entry)).drop_last() =~= pending);
}

/// Carrying an action out changes nothing of which sinks wait.
pub proof fn lemma_carried_out<I, D>(
    record: StreamResponseRecord,
    pending: Seq<(Seq<char>, StreamPending<I, D>)>,
    tag: Option<usize>,
    head_taken: bool,
    chunk_taken: bool,
)
    requires
        str_map::distinct_keys(pending),
        record_step(record, pending, tag).0 is Ok,
    ensures
        ({
            let (outcome, left) = record_step(record, pending, tag);
            let waiting = carried_out(outcome->Ok_0, left, head_taken, chunk_taken).1;
            &&& str_map::distinct_keys(left)
            &&& str_map::distinct_keys(waiting)
            &&& open_sinks(waiting) == open_sinks(left)
        }),
{
    let id = record.request_id();
    let (outcome, left) = record_step(record, pending, tag);
    str_map::lemma_without(pending, id);
    let others = str_map::without(pending, id);
    if let Some(entry) = str_map::lookup(pending, id) {
        if let Ok((_, Some(kept))) = entry_step(record, entry, tag) {
            str_map::lemma_with(others, id, kept);
        }
    }
    match outcome->Ok_0 {
        ActionView::Open { body, .. } => {
            lemma_begun_adds_no_sink(left, id, StreamPending { init: None, body });
        },
        ActionView::Send { body, .. } => {
            lemma_begun_adds_no_sink(left, id, StreamPending { init: None, body });
        },
        _ => {},
    }
}

/// A whole response, an end and an error close the response of their request: whatever the
/// client took, the request waits for no further record.
pub proof fn lemma_end_closes_the_response<I, D>(
    record: StreamResponseRecord,
    pending: Seq<(Seq<char>, StreamPending<I, D>)>,
    tag: Option<usize>,
    head_taken: bool,
    chunk_taken: bool,
)
    requires
        str_map::distinct_keys(pending),
        match record {
            StreamResponseRecord::Legacy(_) => true,
            StreamResponseRecord::Interleaved(r) => r.record_type is End || r.record_type is Error,
        },
    ensures
        ({
            let (outcome, left) = record_step(record, pending, tag);
            outcome matches Ok(action) ==> !str_map::has_key(
                carried_out(action, left, head_taken, chunk_taken).1,
                record.request_id(),
            )
        }),
{
    str_map::lemma_without(pending, record.request_id());
}

/// Over a whole stream every request of a batch is answered exactly once: each sink begins one
/// response, or still waits, and is then answered at the end of the stream. Only a record at
/// fault loses the sink of its own request.
pub proof fn lemma_stream_answers_everyone_once<I, D>(
    readings: Seq<Reading>,
    pending: Seq<(Seq<char>, StreamPending<I, D>)>,
    tag: Option<usize>,
)
    requires
        str_map::distinct_keys(pending),
    ensures
        ({
            let s = served(readings, pending, tag);
            &&& str_map::distinct_keys(s.waiting)
            &&& open_sinks(pending).to_multiset() == s.begun.to_multiset().add(
                open_sinks(s.waiting).to_multiset(),
            ).add(sink_bag(s.lost))
            &&& s.lost is Some ==> s.error is Some
        }),
    decreases readings.len(),
{
    broadcast use vstd::seq_lib::group_to_multiset_ensures;

    let s = served(readings, pending, tag);
    if readings.len() > 0 {
        match readings[0] {
            Reading::Unaddressed => {
                lemma_stream_answers_everyone_once(readings.drop_first(), pending, tag);
            },
            Reading::Unreadable { .. } => {},
            Reading::Record { record, head_taken, chunk_taken } => {
                let (outcome, left) = record_step(record, pending, tag);
                let id = record.request_id();
                match outcome {
                    Err(_) => {
                        str_map::lemma_key_index(pending, id);
                        str_map::lemma_without(pending, id);
                        if record.version() == 1 {
                            lemma_open_sinks_without(
                                pending,
                                str_map::key_index(pending, id) as int,
                            );
                        }
                    },
                    Ok(action) => {
                        lemma_no_sink_is_lost(record, pending, tag);
                        lemma_carried_out(record, pending, tag, head_taken, chunk_taken);
                        let begun = match begun_with(action) {
                            Some(init) => seq![init],
                            None => Seq::empty(),
                        };
                        assert(begun.to_multiset() =~= sink_bag(begun_with(action))) by {
                            if let Some(init) = begun_with(action) {
                                assert(begun =~= Seq::empty().push(init));
                            }
                        }
                        let (error, waiting) = carried_out(action, left, head_taken, chunk_taken);
                        if error is None {
                            let more = served(readings.drop_first(), waiting, tag);
                            lemma_stream_answers_everyone_once(readings.drop_first(), waiting, tag);
                            vstd::seq_lib::lemma_multiset_commutative(begun, more.begun);
                        }
                    },
                }
            },
        }
    }
    assert(open_sinks(pending).to_multiset() =~= s.begun.to_multiset().add(
        open_sinks(s.waiting).to_multiset(),
    ).add(sink_bag(s.lost)));
}

/// What became of the requests of a batch with two parts of a stream: the second one counts
/// only where the first one had no fault.
pub open spec fn followed_by<I, D>(first: Served<I, D>, second: Served<I, D>) -> Served<I, D> {
    if first.error is Some {
        first
    } else {
        Served {
            begun: first.begun + second.begun,
            steps: first.steps + second.steps,
            ..second
        }
    }
}

/// A stream may be served in parts.
proof fn lemma_served_in_parts<I, D>(
    a: Seq<Reading>,
    b: Seq<Reading>,
    pending: Seq<(Seq<char>, StreamPending<I, D>)>,
    tag: Option<usize>,
)
    ensures
        served(a + b, pending, tag) == followed_by(
            served(a, pending, tag),
            served(b, served(a, pending, tag).waiting, tag),
        ),
    decreases a.len(),
{
    let whole = served(a + b, pending, tag);
    let first = served(a, pending, tag);
    let parts = followed_by(first, served(b, first.waiting, tag));
    if a.len() == 0 {
        assert(a + b =~= b);
    } else {
        assert((a + b).drop_first() =~= a.drop_first() + b);
        match a[0] {
            Reading::Unaddressed => lemma_served_in_parts(a.drop_first(), b, pending, tag),
            Reading::Unreadable { .. } => {},
            Reading::Record { record, head_taken, chunk_taken } => {
                let (outcome, left) = record_step(record, pending, tag);
                if let Ok(action) = outcome {
                    let (error, waiting) = carried_out(action, left, head_taken, chunk_taken);
                    if error is None {
                        lemma_served_in_parts(a.drop_first(), b, waiting, tag);
                    }
                }
            },
        }
    }
    assert(whole.begun =~= parts.begun);
    assert(whole.steps =~= parts.steps);
}

/// What is made of some lines, where `read` tells what is made of one.
pub open spec fn readings_of(
    lines: Seq<Seq<u8>>,
    read: spec_fn(Seq<u8>) -> Reading,
) -> Seq<Reading> {
    Seq::new(lines.len(), |i: int| read(lines[i]))
}

/// What becomes of the requests of a batch with the chunks of a stream behind the bytes of which
/// no line was made yet: the lines of each chunk are served when it comes, and what is left is
/// served at the end of the stream.
pub open spec fn streamed<I, D>(
    chunks: Seq<Seq<u8>>,
    left: Seq<u8>,
    read: spec_fn(Seq<u8>) -> Reading,
    pending: Seq<(Seq<char>, StreamPending<I, D>)>,
    tag: Option<usize>,
) -> Served<I, D>
    decreases chunks.len(),
{
    if chunks.len() == 0 {
        served(readings_of(lines_to_come(left, true), read), pending, tag)
    } else {
        let bytes = left + chunks[0];
        if bytes.len() > lines::MAX_BUFFER_BYTES {
            not_served(pending, Some("response stream too large"@))
        } else {
            let first = served(readings_of(lines_to_come(bytes, false), read), pending, tag);
            followed_by(
                first,
                streamed(chunks.drop_first(), lines::rest(bytes), read, first.waiting, tag),
            )
        }
    }
}

/// What each request of a batch receives depends on nothing but the lines that all bytes of the
/// stream give together, where they are not too many for the buffer.
pub proof fn lemma_lines_decide_what_is_received<I, D>(
    chunks: Seq<Seq<u8>>,
    left: Seq<u8>,
    read: spec_fn(Seq<u8>) -> Reading,
    pending: Seq<(Seq<char>, StreamPending<I, D>)>,
    tag: Option<usize>,
)
    requires
        left.len() + lines::joined(chunks).len() <= lines::MAX_BUFFER_BYTES,
    ensures
        streamed(chunks, left, read, pending, tag) == served(
            readings_of(lines::all_lines(left + lines::joined(chunks)), read),
            pending,
            tag,
        ),
    decreases chunks.len(),
{
    if chunks.len() == 0 {
        assert(left + lines::joined(chunks) =~= left);
    } else {
        let bytes = left + chunks[0];
        let more = lines::joined(chunks.drop_first());
        let first = lines::lines(bytes);
        let last = lines::all_lines(lines::rest(bytes) + more);
        assert(left + lines::joined(chunks) =~= bytes + more);
        lines::lemma_rest_holds_no_line(bytes);
        lines::lemma_all_lines_of_two_parts(bytes, more);
        assert(readings_of(first + last, read) =~= readings_of(first, read) + readings_of(
            last,
            read,
        ));
        lemma_served_in_parts(readings_of(first, read), readings_of(last, read), pending, tag);
        lemma_lines_decide_what_is_received(
            chunks.drop_first(),
            lines::rest(bytes),
            read,
            served(readings_of(first, read), pending, tag).waiting,
            tag,
        );
    }
}

/// What each request of a batch receives does not depend on where the bytes of the stream are
/// cut into chunks.
pub proof fn lemma_cuts_change_nothing<I, D>(
    chunks: Seq<Seq<u8>>,
    others: Seq<Seq<u8>>,
    read: spec_fn(Seq<u8>) -> Reading,
    pending: Seq<(Seq<char>, StreamPending<I, D>)>,
    tag: Option<usize>,
)
    requires
        lines::joined(chunks) == lines::joined(others),
        lines::joined(chunks).len() <= lines::MAX_BUFFER_BYTES,
    ensures
        streamed(chunks, Seq::empty(), read, pending, tag) == streamed(
            others,
            Seq::empty(),
            read,
            pending,
            tag,
        ),
{
    lemma_lines_decide_what_is_received(chunks, Seq::empty(), read, pending, tag);
    lemma_lines_decide_what_is_received(others, Seq::empty(), read, pending, tag);
}

/// What each request of a batch receives does not depend on whether lines end in a line feed
/// alone or behind a carriage return, on empty lines, or on the last line feed.
pub proof fn lemma_framing_changes_nothing<I, D>(
    chunks: Seq<Seq<u8>>,
    others: Seq<Seq<u8>>,
    read: spec_fn(Seq<u8>) -> Reading,
    pending: Seq<(Seq<char>, StreamPending<I, D>)>,
    tag: Option<usize>,
)
    requires
        lines::framed_otherwise(lines::joined(chunks), lines::joined(others)),
        lines::joined(chunks).len() <= lines::MAX_BUFFER_BYTES,
        lines::joined(others).len() <= lines::MAX_BUFFER_BYTES,
    ensures
        streamed(chunks, Seq::empty(), read, pending, tag) == streamed(
            others,
            Seq::empty(),
            read,
            pending,
            tag,
        ),
{
    let none = Seq::<u8>::empty();
    assert(none + lines::joined(chunks) =~= lines::joined(chunks));
    assert(none + lines::joined(others) =~= lines::joined(others));
    lines::lemma_framing_keeps_the_lines(lines::joined(chunks), lines::joined(others));
    lemma_lines_decide_what_is_received(chunks, none, read, pending, tag);
    lemma_lines_decide_what_is_received(others, none, read, pending, tag);
}

/// The lines that are still to come out of some bytes.
pub open spec fn lines_to_come(bytes: Seq<u8>, closed: bool) -> Seq<Seq<u8>> {
    if closed {
        lines::all_lines(bytes)
    } else {
        lines::lines(bytes)
    }
}

/// Takes the responses to the requests of a batch out of a stream.
#[derive(Debug)]
pub struct StreamDemux<I, D> {
    /// The bytes of which no record was made yet.
    pub lines: LineBuffer,
    /// The requests that wait for records.
    pub pending: StrMap<StreamPending<I, D>>,
    /// The batch size that responses tell, where they do.
    pub tag: Option<usize>,
    /// Whether the stream has ended.
    pub closed: bool,
}

impl<I, D> StreamDemux<I, D> {
    pub open spec fn wf(&self) -> bool {
        self.lines.wf() && self.pending.wf()
    }

    /// Starts with the requests of a batch.
    pub fn new(pending: StrMap<StreamPending<I, D>>, report_batch_size: bool) -> (r: Self)
        requires
            pending.wf(),
        ensures
            r.wf(),
            r.lines@.len() == 0,
            r.pending == pending,
            r.tag == buffered::size_tag(pending@.len(), report_batch_size),
            !r.closed,
    {
        let tag = buffered::batch_size_tag(&pending, report_batch_size);
        StreamDemux { lines: LineBuffer::new(), pending, tag, closed: false }
    }

    /// Takes a chunk of the stream in, or its error. An error that comes back fails all
    /// requests that wait.
    pub fn receive(&mut self, chunk: Result<Vec<u8>, String>) -> (r: Result<(), String>)
        requires
            old(self).wf(),
        ensures
            final(self).wf(),
            final(self).pending == old(self).pending,
            final(self).tag == old(self).tag,
            final(self).closed == old(self).closed,
            match chunk {
                Err(e) => r matches Err(m) && m@ == "response stream error: "@ + e@
                    && final(self).lines == old(self).lines,
                Ok(bytes) => {
                    &&& final(self).lines@ == old(self).lines@ + bytes@
                    &&& if old(self).lines@.len() + bytes@.len() > lines::MAX_BUFFER_BYTES {
                        r matches Err(m) && m@ == "response stream too large"@
                    } else {
                        r is Ok
                    }
                },
            },
            chunk matches Ok(bytes) ==> (r is Ok <==> old(self).lines@.len() + bytes@.len()
                <= 8_388_608),
    {
        match chunk {
            Err(e) => Err(text::concat("response stream error: ", e.as_str())),
            Ok(bytes) => if self.lines.push(bytes.as_slice()) {
                Ok(())
            } else {
                Err("response stream too large".to_owned())
            },
        }
    }

    /// Takes the end of the stream in.
    pub fn close(&mut self)
        requires
            old(self).wf(),
        ensures
            final(self).wf(),
            final(self).lines == old(self).lines,
            final(self).pending == old(self).pending,
            final(self).tag == old(self).tag,
            final(self).closed,
    {
        self.closed = true;
    }

    /// The next line of the stream. The last one may go without its line feed.
    pub fn next_line(&mut self) -> (r: Option<Vec<u8>>)
        requires
            old(self).wf(),
        ensures
            final(self).wf(),
            final(self).pending == old(self).pending,
            final(self).tag == old(self).tag,
            final(self).closed == old(self).closed,
            match r {
                Some(line) => lines_to_come(old(self).lines@, old(self).closed) == seq![line@]
                    + lines_to_come(final(self).lines@, final(self).closed),
                None => lines_to_come(old(self).lines@, old(self).closed).len() == 0,
            },
            !old(self).closed ==> lines::rest(final(self).lines@) == lines::rest(old(self).lines@),
            !old(self).closed && r is None ==> final(self).lines@ == lines::rest(old(self).lines@),
    {
        let ghost all = self.lines@;
        match self.lines.next_line() {
            Some(line) => {
                proof {
                    let now = self.lines@;
                    let tail = lines::without_line_end(lines::rest(now));
                    assert(seq![line@] + lines::lines(now).push(tail) =~= (seq![line@]
                        + lines::lines(now)).push(tail));
                }
                Some(line)
            },
            None => {
                if !self.closed {
                    return None;
                }
                proof {
                    lines::lemma_rest_holds_no_line(all);
                }
                let tail = self.lines.tail();
                proof {
                    let none = Seq::<u8>::empty();
                    assert(lines::lines(none) =~= Seq::<Seq<u8>>::empty());
                    assert(lines::all_lines(none) =~= Seq::<Seq<u8>>::empty());
                    assert(tail is Some ==> lines::all_lines(all) =~= seq![tail->0@]);
                }
                tail
            },
        }
    }

    /// What is to be done for a record. An error fails all requests that wait.
    pub fn dispatch(&mut self, record: StreamResponseRecord) -> (r: Result<
        StreamAction<I, D>,
        String,
    >)
        requires
            old(self).wf(),
            record.headers_fit(),
        ensures
            final(self).wf(),
            final(self).lines == old(self).lines,
            final(self).tag == old(self).tag,
            final(self).closed == old(self).closed,
            (action_result(r), final(self).pending@) == record_step(
                record,
                old(self).pending@,
                old(self).tag,
            ),
    {
        dispatch_stream_record(record, &mut self.pending, self.tag)
    }

    /// What is to be done once the head of a response was sent, and whether the client took it
    /// is known. An error fails all requests that wait.
    pub fn head_sent(&mut self, id: String, body: D, next: AfterHead, taken: bool) -> (r: Result<
        StreamAction<I, D>,
        String,
    >)
        requires
            old(self).wf(),
        ensures
            final(self).wf(),
            final(self).lines == old(self).lines,
            final(self).tag == old(self).tag,
            final(self).closed == old(self).closed,
            action_result(r) == after_head_step::<I, D>(id@, body, next@, taken).0,
            final(self).pending@ == with_kept(
                old(self).pending@,
                id@,
                after_head_step::<I, D>(id@, body, next@, taken).1,
            ),
    {
        if !taken {
            return Ok(StreamAction::Idle);
        }
        match next {
            AfterHead::Keep => {
                self.pending.insert(id, StreamPending { init: None, body });
                Ok(StreamAction::Idle)
            },
            AfterHead::Chunk { text, is_base64_encoded } => send_chunk(
                id,
                body,
                text.as_str(),
                is_base64_encoded,
            ),
            AfterHead::Close => Ok(StreamAction::Idle),
        }
    }

    /// Takes in whether the client took a chunk: its request keeps waiting where it did.
    pub fn chunk_sent(&mut self, id: String, body: D, taken: bool)
        requires
            old(self).wf(),
        ensures
            final(self).wf(),
            final(self).lines == old(self).lines,
            final(self).tag == old(self).tag,
            final(self).closed == old(self).closed,
            final(self).pending@ == with_sent(old(self).pending@, id@, body, taken),
    {
        if taken {
            self.pending.insert(id, StreamPending { init: None, body });
        }
    }

    /// Fails all requests that wait.
    pub fn fail(self, msg: &str) -> (r: Vec<(I, RouterResponse)>)
        ensures
            buffered::reply_views(r@) == stream_failed(self.pending@, self.tag, 502, msg@),
    {
        fail_all_stream(self.pending, self.tag, 502, msg)
    }

    /// Fails all requests that wait at the end of the stream.
    pub fn finish(self) -> (r: Vec<(I, RouterResponse)>)
        ensures
            buffered::reply_views(r@) == stream_failed(
                self.pending@,
                self.tag,
                502,
                "missing response record"@,
            ),
    {
        self.fail("missing response record")
    }
}

} // verus!
