//! What an invocation of Lambda came back with.
use vstd::prelude::*;
use vstd::string::*;

use crate::json;
use crate::text;

verus! {

/// What is said of a function that failed.
pub open spec fn function_error_text(error: Seq<char>, function_name: Seq<char>) -> Seq<char> {
    "lambda function error ("@ + error + ") for "@ + function_name
}

/// The payload of a buffered invocation, which may be empty, or the error of its function.
pub fn buffered_payload(
    function_error: Option<String>,
    payload: Option<Vec<u8>>,
    function_name: &str,
) -> (r: Result<Vec<u8>, String>)
    ensures
        match function_error {
            Some(e) => r matches Err(m) && m@ == function_error_text(e@, function_name@),
            None => r matches Ok(b) && b@ == match payload {
                Some(p) => p@,
                None => Seq::empty(),
            },
        },
{
    if let Some(e) = function_error {
        let mut msg = "lambda function error (".to_owned();
        msg.append(e.as_str());
        msg.append(") for ");
        msg.append(function_name);
        return Err(msg);
    }
    match payload {
        Some(p) => Ok(p),
        None => Ok(Vec::new()),
    }
}

/// What is said of a streamed invocation that did not start.
pub open spec fn start_error_text(function_name: Seq<char>, status: i32) -> Seq<char> {
    "InvokeWithResponseStream failed for "@ + function_name + " (status "@ + json::integer(
        status as int,
    ) + ")"@
}

/// Whether a streamed invocation started.
pub fn stream_started(status: i32, function_name: &str) -> (r: Result<(), String>)
    ensures
        r is Ok <==> status == 200,
        r matches Err(m) ==> m@ == start_error_text(function_name@, status),
{
    if status == 200 {
        return Ok(());
    }
    let mut msg = "InvokeWithResponseStream failed for ".to_owned();
    msg.append(function_name);
    msg.append(" (status ");
    let code = json::write_integer(status as i64);
    msg.append(code.as_str());
    msg.append(")");
    Err(msg)
}

/// An event of a streamed invocation.
#[derive(Debug)]
pub enum StreamEvent {
    /// A chunk of the payload.
    Chunk(Option<Vec<u8>>),
    /// The invocation is complete.
    Complete { error_code: Option<String>, error_details: Option<String> },
    /// An event of another kind.
    Other,
    /// There are no further events.
    Ended,
    /// Receiving an event failed.
    Failed(String),
}

/// What is to be done about an event.
#[derive(Debug)]
pub enum PumpStep {
    /// Receive the next event.
    Receive,
    /// Hand a chunk on, and report whether the receiver took it.
    Forward(Vec<u8>),
    /// Hand the error on, where there is one, and stop. Where `drain` is set, the events that
    /// are left are received first, so that the connection can close cleanly.
    Finish { error: Option<String>, drain: bool },
}

/// Hands the chunks of a streamed invocation on.
///
/// A pump that drains still receives the events that are left once its receiver is gone, so
/// that the stream of the connection is not reset.
#[derive(Debug)]
pub struct EventPump {
    /// Whether the events that are left are received.
    pub drains: bool,
    /// Whether the receiver still takes chunks.
    pub can_send: bool,
}

/// What is said of an event that could not be received.
pub open spec fn receive_error_text(err: Seq<char>) -> Seq<char> {
    "event stream recv: "@ + err
}

/// What is said of an invocation that failed while it streamed.
pub open spec fn stream_error_text(code: Seq<char>, details: Option<String>) -> Seq<char> {
    "lambda stream error ("@ + code + "): "@ + match details {
        Some(d) => d@,
        None => Seq::empty(),
    }
}

/// What a step says.
#[verifier::ext_equal]
pub enum PumpView {
    Receive,
    Forward(Seq<u8>),
    Finish { error: Option<Seq<char>>, drain: bool },
}

impl View for PumpStep {
    type V = PumpView;

    open spec fn view(&self) -> PumpView {
        match self {
            PumpStep::Receive => PumpView::Receive,
            PumpStep::Forward(bytes) => PumpView::Forward(bytes@),
            PumpStep::Finish { error, drain } => PumpView::Finish {
                error: text::opt_text(*error),
                drain: *drain,
            },
        }
    }
}

/// Whether an event is the last one of a stream.
pub open spec fn is_last(event: StreamEvent) -> bool {
    event is Ended || event is Failed || event is Complete
}

/// The error that an event tells of.
pub open spec fn event_error(event: StreamEvent) -> Option<Seq<char>> {
    match event {
        StreamEvent::Failed(err) => Some(receive_error_text(err@)),
        StreamEvent::Complete { error_code: Some(code), error_details } => Some(
            stream_error_text(code@, error_details),
        ),
        _ => None,
    }
}

/// What is to be done about an event.
pub open spec fn pump_step(drains: bool, can_send: bool, event: StreamEvent) -> PumpView {
    match event {
        StreamEvent::Chunk(Some(bytes)) => if can_send {
            PumpView::Forward(bytes@)
        } else {
            PumpView::Receive
        },
        StreamEvent::Chunk(None) => PumpView::Receive,
        StreamEvent::Other => PumpView::Receive,
        _ => PumpView::Finish {
            error: if can_send {
                event_error(event)
            } else {
                None
            },
            drain: drains && event is Complete,
        },
    }
}

/// What is to be done once a chunk was handed on.
pub open spec fn after_forward(drains: bool, taken: bool) -> PumpView {
    if taken || drains {
        PumpView::Receive
    } else {
        PumpView::Finish { error: None, drain: false }
    }
}

/// What a receiver got out of a stream.
#[verifier::ext_equal]
pub struct Pumped {
    /// The chunks that it took, in order.
    pub chunks: Seq<Seq<u8>>,
    /// The error behind them.
    pub error: Option<Seq<char>>,
    /// How many events were received.
    pub events: nat,
}

/// What a receiver that takes `takes` chunks, and is gone then, gets out of some events.
pub open spec fn pumped(
    events: Seq<StreamEvent>,
    drains: bool,
    can_send: bool,
    takes: nat,
) -> Pumped
    decreases events.len(),
{
    if events.len() == 0 {
        Pumped { chunks: Seq::empty(), error: None, events: 0 }
    } else {
        let rest = events.drop_first();
        match pump_step(drains, can_send, events[0]) {
            PumpView::Receive => {
                let more = pumped(rest, drains, can_send, takes);
                Pumped { events: more.events + 1, ..more }
            },
            PumpView::Finish { error, .. } => Pumped { chunks: Seq::empty(), error, events: 1 },
            PumpView::Forward(bytes) => {
                let taken = takes > 0;
                if after_forward(drains, taken) is Receive {
                    let more = pumped(
                        rest,
                        drains,
                        can_send && taken,
                        if taken {
                            (takes - 1) as nat
                        } else {
                            0
                        },
                    );
                    Pumped {
                        chunks: if taken {
                            seq![bytes] + more.chunks
                        } else {
                            more.chunks
                        },
                        error: more.error,
                        events: more.events + 1,
                    }
                } else {
                    Pumped { chunks: Seq::empty(), error: None, events: 1 }
                }
            },
        }
    }
}

/// The events of a stream, up to its last one.
pub open spec fn up_to_last(events: Seq<StreamEvent>) -> Seq<StreamEvent>
    decreases events.len(),
{
    if events.len() == 0 {
        events
    } else if is_last(events[0]) {
        events.take(1)
    } else {
        seq![events[0]] + up_to_last(events.drop_first())
    }
}

/// The chunks among some events, in order.
pub open spec fn chunks_of(events: Seq<StreamEvent>) -> Seq<Seq<u8>>
    decreases events.len(),
{
    if events.len() == 0 {
        Seq::empty()
    } else {
        match events[0] {
            StreamEvent::Chunk(Some(bytes)) => seq![bytes@] + chunks_of(events.drop_first()),
            _ => chunks_of(events.drop_first()),
        }
    }
}

/// The error of the last one of some events.
pub open spec fn last_error(events: Seq<StreamEvent>) -> Option<Seq<char>> {
    if events.len() == 0 {
        None
    } else {
        event_error(events.last())
    }
}

/// A receiver gets the chunks of a stream in order, up to its last event or as many as it takes,
/// and then at most one error, that of the last event, and nothing behind it. One that is gone
/// gets no error. Where it takes all chunks, or the pump drains, every event is received.
pub proof fn lemma_chunks_are_handed_on_in_order(
    events: Seq<StreamEvent>,
    drains: bool,
    can_send: bool,
    takes: nat,
)
    ensures
        ({
            let all = up_to_last(events);
            let chunks = chunks_of(all);
            let p = pumped(events, drains, can_send, takes);
            let stays = can_send && chunks.len() <= takes;
            &&& p.chunks == if !can_send {
                Seq::empty()
            } else if stays {
                chunks
            } else {
                chunks.take(takes as int)
            }
            &&& p.error == if stays {
                last_error(all)
            } else {
                None
            }
            &&& stays || drains || !can_send ==> p.events == all.len()
        }),
    decreases events.len(),
{
    if events.len() > 0 {
        let rest = events.drop_first();
        let all = up_to_last(events);
        let more = up_to_last(rest);
        let p = pumped(events, drains, can_send, takes);
        if is_last(events[0]) {
            assert(all =~= seq![events[0]]);
            assert(all.drop_first() =~= Seq::<StreamEvent>::empty());
            reveal_with_fuel(chunks_of, 2);
        } else {
            assert(all.drop_first() =~= more);
            if more.len() == 0 {
                assert(all =~= seq![events[0]]);
            } else {
                assert(all.last() == more.last());
            }
            match pump_step(drains, can_send, events[0]) {
                PumpView::Forward(bytes) => {
                    if takes > 0 {
                        lemma_chunks_are_handed_on_in_order(
                            rest,
                            drains,
                            can_send,
                            (takes - 1) as nat,
                        );
                        if chunks_of(all).len() > takes {
                            assert(p.chunks =~= chunks_of(all).take(takes as int));
                        }
                    } else {
                        lemma_chunks_are_handed_on_in_order(rest, drains, false, 0);
                        assert(p.chunks =~= chunks_of(all).take(0));
                    }
                },
                _ => lemma_chunks_are_handed_on_in_order(rest, drains, can_send, takes),
            }
        }
    }
}

/// Nothing is handed on once the receiver is gone: no chunk, and no error either.
pub proof fn lemma_nothing_is_sent_to_nobody(drains: bool, event: StreamEvent)
    ensures
        pump_step(drains, false, event) !is Forward,
        pump_step(drains, false, event) matches PumpView::Finish { error, .. } ==> error is None,
{
}

impl EventPump {
    /// A pump whose receiver is there.
    pub fn new(drains: bool) -> (r: Self)
        ensures
            r.drains == drains,
            r.can_send,
    {
        EventPump { drains, can_send: true }
    }

    /// What is to be done about an event.
    pub fn event(&self, event: StreamEvent) -> (r: PumpStep)
        ensures
            r@ == pump_step(self.drains, self.can_send, event),
    {
        match event {
            StreamEvent::Ended => PumpStep::Finish { error: None, drain: false },
            StreamEvent::Failed(err) => {
                let error = if self.can_send {
                    Some(text::concat("event stream recv: ", err.as_str()))
                } else {
                    None
                };
                PumpStep::Finish { error, drain: false }
            },
            StreamEvent::Chunk(Some(bytes)) => if self.can_send {
                PumpStep::Forward(bytes)
            } else {
                PumpStep::Receive
            },
            StreamEvent::Chunk(None) => PumpStep::Receive,
            StreamEvent::Other => PumpStep::Receive,
            StreamEvent::Complete { error_code, error_details } => {
                let error = match error_code {
                    Some(code) => if self.can_send {
                        let mut msg = "lambda stream error (".to_owned();
                        msg.append(code.as_str());
                        msg.append("): ");
                        if let Some(d) = &error_details {
                            msg.append(d.as_str());
                        }
                        assert(msg@ =~= stream_error_text(code@, error_details));
                        Some(msg)
                    } else {
                        None
                    },
                    None => None,
                };
                PumpStep::Finish { error, drain: self.drains }
            },
        }
    }

    /// Takes in whether the receiver took a chunk, and says what is to be done next.
    pub fn forwarded(&mut self, taken: bool) -> (r: PumpStep)
        ensures
            final(self).drains == old(self).drains,
            final(self).can_send == (old(self).can_send && taken),
            r@ == after_forward(old(self).drains, taken),
    {
        self.can_send = self.can_send && taken;
        if taken || self.drains {
            PumpStep::Receive
        } else {
            PumpStep::Finish { error: None, drain: false }
        }
    }
}

} // verus!
