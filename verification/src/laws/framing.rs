//! How a stream is cut into lines, and how it ends.
use vstd::prelude::*;

use crate::lambda;
use crate::lambda::StreamEvent;
use crate::lines;
use crate::stream;
use crate::stream::RecordShape;

verus! {

/// Lines, each with a line feed behind it.
pub open spec fn written(contents: Seq<Seq<u8>>) -> Seq<u8>
    decreases contents.len(),
{
    if contents.len() == 0 {
        Seq::empty()
    } else {
        contents[0] + seq![10u8] + written(contents.drop_first())
    }
}

/// Whether bytes can be the content of a line: there are some, none is a line feed, and the last
/// one is no carriage return.
pub open spec fn is_content(line: Seq<u8>) -> bool {
    line.len() > 0 && !line.contains(10u8) && line.last() != 13
}

/// The first line ends where the first line feed is.
proof fn lemma_first_end(line: Seq<u8>, more: Seq<u8>)
    requires
        !line.contains(10u8),
    ensures
        lines::line_len(line) == line.len(),
        lines::line_len(line + seq![10u8] + more) == line.len(),
{
    lines::lemma_line_len(line);
    let s = line + seq![10u8] + more;
    lines::lemma_line_len(s);
    let n = lines::line_len(s) as int;
    if n < line.len() {
        assert(line.contains(line[n]));
        assert(s[n] == line[n]);
    }
    assert(s[line.len() as int] == 10);
    let k = lines::line_len(line) as int;
    if k < line.len() {
        assert(line.contains(line[k]));
    }
}

/// Lines that were written come out again: the same ones, in order, and nothing is left. What
/// comes behind them without a line feed is left, and is the last line once the stream has ended.
pub proof fn lemma_lines_come_out_again(contents: Seq<Seq<u8>>, last: Seq<u8>)
    requires
        forall|i: int| 0 <= i < contents.len() ==> is_content(#[trigger] contents[i]),
        is_content(last),
    ensures
        lines::lines(written(contents)) == contents,
        lines::rest(written(contents)).len() == 0,
        lines::all_lines(written(contents)) == contents,
        lines::lines(written(contents) + last) == contents,
        lines::rest(written(contents) + last) == last,
        lines::all_lines(written(contents) + last) == contents.push(last),
    decreases contents.len(),
{
    let s = written(contents);
    if contents.len() == 0 {
        assert(s + last =~= last);
        lemma_first_end(last, Seq::empty());
        assert(lines::lines(s) =~= contents);
        assert(lines::lines(last) =~= contents);
        assert(lines::without_line_end(last) == last) by {
            assert(last.contains(last.last()));
        }
        assert(lines::all_lines(last) =~= contents.push(last));
    } else {
        let rest = contents.drop_first();
        let more = written(rest);
        assert forall|i: int| 0 <= i < rest.len() implies is_content(#[trigger] rest[i]) by {
            assert(rest[i] == contents[i + 1]);
        }
        lemma_lines_come_out_again(rest, last);
        let line = contents[0];
        assert(is_content(line));
        lemma_first_end(line, more);
        lemma_first_end(line, more + last);
        assert(s + last =~= line + seq![10u8] + (more + last));
        assert(s.take(line.len() as int) =~= line);
        assert(s.skip(line.len() as int + 1) =~= more);
        assert((s + last).take(line.len() as int) =~= line);
        assert((s + last).skip(line.len() as int + 1) =~= more + last);
        assert(seq![line] + rest =~= contents);
        assert(seq![line] + rest.push(last) =~= contents.push(last));
        assert(lines::without_line_end(last) == last) by {
            assert(last.contains(last.last()));
        }
    }
}

/// A carriage return before a line feed belongs to the line end, and an empty line is none.
pub proof fn lemma_line_ends(line: Seq<u8>, more: Seq<u8>)
    requires
        is_content(line),
    ensures
        lines::lines(line + seq![13u8, 10u8] + more) == seq![line] + lines::lines(more),
        lines::rest(line + seq![13u8, 10u8] + more) == lines::rest(more),
        lines::lines(seq![10u8] + more) == lines::lines(more),
        lines::lines(seq![13u8, 10u8] + more) == lines::lines(more),
{
    let with_cr = line.push(13);
    let s = line + seq![13u8, 10u8] + more;
    assert(s =~= with_cr + seq![10u8] + more);
    assert(!with_cr.contains(10u8)) by {
        if with_cr.contains(10u8) {
            let i = with_cr.index_of(10u8);
            if i < line.len() {
                assert(line.contains(line[i]));
            }
        }
    }
    lemma_first_end(with_cr, more);
    assert(s.take(line.len() as int + 1) =~= with_cr);
    assert(s.skip(line.len() as int + 2) =~= more);
    assert(with_cr.drop_last() =~= line);

    let a = seq![10u8] + more;
    assert(a =~= Seq::<u8>::empty() + seq![10u8] + more);
    lemma_first_end(Seq::empty(), more);
    assert(a.take(0) =~= Seq::<u8>::empty());
    assert(a.skip(1) =~= more);

    let b = seq![13u8, 10u8] + more;
    let cr = seq![13u8];
    assert(b =~= cr + seq![10u8] + more);
    assert(!cr.contains(10u8));
    lemma_first_end(cr, more);
    assert(b.take(1) =~= cr);
    assert(b.skip(2) =~= more);
    assert(cr.drop_last() =~= Seq::<u8>::empty());
}

/// A line that is an object without an id is for nobody. Of the others, one with a type is a part
/// of a response, and one without is a whole response.
pub proof fn lemma_records_are_told_apart(is_object: bool, has_type: bool, has_id: bool)
    ensures
        stream::record_shape((is_object, has_type, has_id)) is Unaddressed <==> is_object && !has_id,
        has_id ==> (stream::record_shape((is_object, has_type, has_id)) is Interleaved <==> has_type),
        has_id ==> (stream::record_shape((is_object, has_type, has_id)) is Legacy <==> !has_type),
        !is_object ==> stream::record_shape((is_object, has_type, has_id)) == if has_type {
            RecordShape::Interleaved
        } else {
            RecordShape::Legacy
        },
{
}

/// A chunk is handed on as it is while there is a receiver, and an event without bytes is passed
/// over.
pub proof fn lemma_chunks_are_handed_on(drains: bool, event: StreamEvent)
    ensures
        event matches StreamEvent::Chunk(Some(bytes)) ==> lambda::pump_step(drains, true, event)
            == lambda::PumpView::Forward(bytes@),
        event matches StreamEvent::Chunk(_) ==> lambda::pump_step(drains, false, event) is Receive,
        event == StreamEvent::Chunk(None) || event is Other ==> lambda::pump_step(
            drains,
            true,
            event,
        ) is Receive,
        lambda::after_forward(drains, true) is Receive,
        lambda::after_forward(true, false) is Receive,
        lambda::after_forward(false, false) == (lambda::PumpView::Finish {
            error: None,
            drain: false,
        }),
{
}

/// A stream ends with its last event. A receiver is told of an error and of no error where there
/// is none, and what is left is received where the pump drains and the invocation is complete.
pub proof fn lemma_streams_end(drains: bool, event: StreamEvent)
    ensures
        event is Ended ==> lambda::pump_step(drains, true, event) == (lambda::PumpView::Finish {
            error: None,
            drain: false,
        }),
        event matches StreamEvent::Failed(err) ==> lambda::pump_step(drains, true, event) == (
        lambda::PumpView::Finish { error: Some("event stream recv: "@ + err@), drain: false }),
        event matches StreamEvent::Complete { error_code, error_details } ==> {
            &&& error_code is None ==> lambda::pump_step(drains, true, event) == (
            lambda::PumpView::Finish { error: None, drain: drains })
            &&& error_code matches Some(code) ==> lambda::pump_step(drains, true, event) == (
            lambda::PumpView::Finish {
                error: Some(
                    "lambda stream error ("@ + code@ + "): "@ + (match error_details {
                        Some(d) => d@,
                        None => Seq::empty(),
                    }),
                ),
                drain: drains,
            })
        },
        event is Ended || event is Failed || event is Complete ==> lambda::pump_step(
            drains,
            false,
            event,
        ) is Finish,
{
}

} // verus!
