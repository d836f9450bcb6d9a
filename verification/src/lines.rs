//! Lines out of a stream of bytes that comes in chunks.
use vstd::prelude::*;
use vstd::slice::*;

verus! {

/// The most bytes that are kept while a line is incomplete.
pub const MAX_BUFFER_BYTES: usize = 8 * 1024 * 1024;

/// The number of bytes before the first line feed, or all of them.
pub open spec fn line_len(s: Seq<u8>) -> nat
    decreases s.len(),
{
    if s.len() == 0 || s[0] == 10 {
        0
    } else {
        1 + line_len(s.drop_first())
    }
}

/// Whether there is a line feed.
pub open spec fn has_line(s: Seq<u8>) -> bool {
    line_len(s) < s.len()
}

/// The bytes behind the first line feed.
pub open spec fn after_line(s: Seq<u8>) -> Seq<u8> {
    s.skip(line_len(s) as int + 1)
}

/// A line without the carriage return at its end.
pub open spec fn without_cr(line: Seq<u8>) -> Seq<u8> {
    if line.len() > 0 && line.last() == 13 {
        line.drop_last()
    } else {
        line
    }
}

/// The first line, without its line feed and the carriage return before it.
pub open spec fn first_line(s: Seq<u8>) -> Seq<u8> {
    without_cr(s.take(line_len(s) as int))
}

/// The lines that end in a line feed, without those that are empty.
pub open spec fn lines(s: Seq<u8>) -> Seq<Seq<u8>>
    decreases s.len(),
{
    if !has_line(s) {
        Seq::empty()
    } else {
        let tail = lines(after_line(s));
        if first_line(s).len() == 0 {
            tail
        } else {
            seq![first_line(s)] + tail
        }
    }
}

/// The bytes behind the last line feed.
pub open spec fn rest(s: Seq<u8>) -> Seq<u8>
    decreases s.len(),
{
    if !has_line(s) {
        s
    } else {
        rest(after_line(s))
    }
}

/// Bytes without the line feeds and carriage returns at their end.
pub open spec fn without_line_end(s: Seq<u8>) -> Seq<u8>
    decreases s.len(),
{
    if s.len() > 0 && (s.last() == 10 || s.last() == 13) {
        without_line_end(s.drop_last())
    } else {
        s
    }
}

/// All lines of a stream that has ended: the last one may go without a line feed.
pub open spec fn all_lines(s: Seq<u8>) -> Seq<Seq<u8>> {
    let tail = without_line_end(rest(s));
    if tail.len() == 0 {
        lines(s)
    } else {
        lines(s).push(tail)
    }
}

/// The first line ends at the first line feed.
pub proof fn lemma_line_len(s: Seq<u8>)
    ensures
        line_len(s) <= s.len(),
        has_line(s) ==> s[line_len(s) as int] == 10,
        forall|i: int| 0 <= i < line_len(s) ==> s[i] != 10,
    decreases s.len(),
{
    if s.len() > 0 && s[0] != 10 {
        lemma_line_len(s.drop_first());
        assert forall|i: int| 0 <= i < line_len(s) implies s[i] != 10 by {
            if i > 0 {
                assert(s.drop_first()[i - 1] == s[i]);
            }
        }
    }
}

/// A line feed that is the first one is where the first line ends.
proof fn lemma_line_len_is(s: Seq<u8>, n: int)
    requires
        0 <= n <= s.len(),
        n < s.len() ==> s[n] == 10,
        forall|i: int| 0 <= i < n ==> s[i] != 10,
    ensures
        line_len(s) == n,
{
    lemma_line_len(s);
    if line_len(s) < n {
        assert(s[line_len(s) as int] != 10);
    }
}

/// What more bytes behind a stream change of its first line: nothing, where there is one.
proof fn lemma_first_line_stays(s: Seq<u8>, more: Seq<u8>)
    requires
        has_line(s),
    ensures
        has_line(s + more),
        first_line(s + more) == first_line(s),
        after_line(s + more) == after_line(s) + more,
{
    lemma_line_len(s);
    let n = line_len(s) as int;
    assert((s + more)[n] == 10);
    lemma_line_len_is(s + more, n);
    assert((s + more).take(n) =~= s.take(n));
    assert((s + more).skip(n + 1) =~= s.skip(n + 1) + more);
}

/// The lines of a stream do not depend on how it is cut into chunks: those of the first bytes,
/// and those of what is left of them together with the other bytes, are those of all bytes.
pub proof fn lemma_lines_do_not_depend_on_chunks(s: Seq<u8>, more: Seq<u8>)
    ensures
        lines(s + more) == lines(s) + lines(rest(s) + more),
        rest(s + more) == rest(rest(s) + more),
    decreases s.len(),
{
    if has_line(s) {
        lemma_first_line_stays(s, more);
        lemma_lines_do_not_depend_on_chunks(after_line(s), more);
        assert(lines(s + more) =~= lines(s) + lines(rest(s) + more));
    } else {
        assert(lines(s) + lines(s + more) =~= lines(s + more));
    }
}

/// What is left of a stream holds no line.
pub proof fn lemma_rest_holds_no_line(s: Seq<u8>)
    ensures
        !has_line(rest(s)),
        lines(rest(s)).len() == 0,
        rest(s).len() <= s.len(),
    decreases s.len(),
{
    if has_line(s) {
        lemma_rest_holds_no_line(after_line(s));
    }
}

/// Chunks one after another.
pub open spec fn joined(chunks: Seq<Seq<u8>>) -> Seq<u8>
    decreases chunks.len(),
{
    if chunks.len() == 0 {
        Seq::empty()
    } else {
        chunks[0] + joined(chunks.drop_first())
    }
}

/// The lines of a whole stream are those of its first bytes, and then all of what is left of
/// them together with the other bytes.
pub proof fn lemma_all_lines_of_two_parts(s: Seq<u8>, more: Seq<u8>)
    ensures
        all_lines(s + more) == lines(s) + all_lines(rest(s) + more),
{
    lemma_lines_do_not_depend_on_chunks(s, more);
    assert(all_lines(s + more) =~= lines(s) + all_lines(rest(s) + more));
}

/// A stream with a carriage return before each line feed: one is put where there is none.
pub open spec fn with_crlf(s: Seq<u8>) -> Seq<u8>
    decreases s.len(),
{
    if !has_line(s) {
        s
    } else {
        without_cr(s.take(line_len(s) as int)) + seq![13u8, 10u8] + with_crlf(after_line(s))
    }
}

/// Whether a line may start at a position.
pub open spec fn starts_line(s: Seq<u8>, n: int) -> bool {
    0 <= n <= s.len() && (n == 0 || s[n - 1] == 10)
}

/// A line end: a line feed, alone or behind a carriage return.
pub open spec fn line_end(cr: bool) -> Seq<u8> {
    if cr {
        seq![13u8, 10u8]
    } else {
        seq![10u8]
    }
}

/// A stream with an empty line put in at a position.
pub open spec fn with_empty_line(s: Seq<u8>, n: int, cr: bool) -> Seq<u8> {
    s.take(n) + line_end(cr) + s.skip(n)
}

/// Whether a line end behind a stream leaves no carriage return at the end of its last line:
/// one is taken for a part of the line end, and no more.
pub open spec fn may_be_ended(s: Seq<u8>, cr: bool) -> bool {
    let line = rest(s);
    let n = line.len() as int;
    if cr {
        n == 0 || line[n - 1] != 13
    } else {
        n < 2 || line[n - 1] != 13 || line[n - 2] != 13
    }
}

/// Whether a stream is another one with other line ends, with one more empty line, or without
/// the last line end.
pub open spec fn framed_otherwise(s: Seq<u8>, other: Seq<u8>) -> bool {
    ||| other == with_crlf(s)
    ||| exists|n: int, cr: bool|
        starts_line(s, n) && other == #[trigger] with_empty_line(s, n, cr)
    ||| exists|cr: bool| s == other + #[trigger] line_end(cr) && may_be_ended(other, cr)
}

proof fn lemma_crlf_keeps_the_lines(s: Seq<u8>)
    ensures
        lines(with_crlf(s)) == lines(s),
        rest(with_crlf(s)) == rest(s),
    decreases s.len(),
{
    if has_line(s) {
        lemma_line_len(s);
        let c = with_crlf(s);
        let line = without_cr(s.take(line_len(s) as int));
        let n = line.len() as int + 1;
        assert(c[n] == 10);
        lemma_line_len_is(c, n);
        assert(c.take(n) =~= line.push(13));
        assert(line.push(13).drop_last() =~= line);
        assert(c.skip(n + 1) =~= with_crlf(after_line(s)));
        lemma_crlf_keeps_the_lines(after_line(s));
    }
}

proof fn lemma_nothing_is_left_behind_a_line_feed(s: Seq<u8>)
    requires
        s.len() == 0 || s.last() == 10,
    ensures
        rest(s) == Seq::<u8>::empty(),
    decreases s.len(),
{
    lemma_line_len(s);
    if s.len() == 0 {
        assert(s =~= Seq::<u8>::empty());
    } else {
        assert(has_line(s)) by {
            if line_len(s) == s.len() {
                assert(s[s.len() - 1] != 10);
            }
        }
        let next = after_line(s);
        if next.len() > 0 {
            assert(next.last() == s.last());
        }
        lemma_nothing_is_left_behind_a_line_feed(next);
    }
}

/// A line that a line end closes.
proof fn lemma_closed_line(line: Seq<u8>, cr: bool, more: Seq<u8>)
    requires
        !has_line(line),
    ensures
        ({
            let s = line + line_end(cr) + more;
            let shown = without_cr(line + (if cr {
                seq![13u8]
            } else {
                Seq::empty()
            }));
            &&& rest(s) == rest(more)
            &&& lines(s) == if shown.len() == 0 {
                lines(more)
            } else {
                seq![shown] + lines(more)
            }
        }),
{
    let s = line + line_end(cr) + more;
    let body = line + (if cr {
        seq![13u8]
    } else {
        Seq::empty()
    });
    lemma_line_len(line);
    let n = body.len() as int;
    assert(s[n] == 10);
    lemma_line_len_is(s, n);
    assert(s.take(n) =~= body);
    assert(s.skip(n + 1) =~= more);
}

/// Other line ends, empty lines and a missing last line end change nothing of the lines of a
/// stream.
pub proof fn lemma_framing_keeps_the_lines(s: Seq<u8>, other: Seq<u8>)
    requires
        framed_otherwise(s, other),
    ensures
        all_lines(other) == all_lines(s),
{
    let none = Seq::<u8>::empty();
    if other == with_crlf(s) {
        lemma_crlf_keeps_the_lines(s);
    } else if exists|n: int, cr: bool|
        starts_line(s, n) && other == #[trigger] with_empty_line(s, n, cr) {
        let (n, cr) = choose|n: int, cr: bool|
            starts_line(s, n) && other == #[trigger] with_empty_line(s, n, cr);
        let a = s.take(n);
        let b = s.skip(n);
        assert(a + b =~= s);
        assert(a + (line_end(cr) + b) =~= other);
        lemma_nothing_is_left_behind_a_line_feed(a);
        lemma_all_lines_of_two_parts(a, b);
        lemma_all_lines_of_two_parts(a, line_end(cr) + b);
        assert(none + b =~= b);
        assert(none + (line_end(cr) + b) =~= none + line_end(cr) + b);
        lemma_closed_line(none, cr, b);
        assert(without_cr(none + (if cr {
            seq![13u8]
        } else {
            none
        })).len() == 0);
    } else {
        let cr = choose|cr: bool| s == other + #[trigger] line_end(cr) && may_be_ended(other, cr);
        let t = rest(other);
        lemma_rest_holds_no_line(other);
        lemma_all_lines_of_two_parts(other, line_end(cr));
        lemma_closed_line(t, cr, none);
        lemma_line_len(t);
        reveal_with_fuel(without_line_end, 3);
        assert(t.push(13).drop_last() =~= t);
        assert(t + seq![13u8] =~= t.push(13));
        assert(t + none =~= t);
        assert(t + line_end(cr) + none =~= t + line_end(cr));
        assert(all_lines(s) =~= all_lines(other));
    }
}

/// The bytes of a stream that are not yet handed out as lines.
#[derive(Debug)]
pub struct LineBuffer {
    buffer: Vec<u8>,
    start: usize,
}

impl View for LineBuffer {
    type V = Seq<u8>;

    closed spec fn view(&self) -> Seq<u8> {
        self.buffer@.skip(self.start as int)
    }
}

impl LineBuffer {
    /// What was handed out lies within the buffer.
    pub closed spec fn wf(&self) -> bool {
        self.start <= self.buffer@.len()
    }

    /// A buffer without bytes.
    pub fn new() -> (r: Self)
        ensures
            r.wf(),
            r@ == Seq::<u8>::empty(),
    {
        let r = LineBuffer { buffer: Vec::new(), start: 0 };
        assert(r@ =~= Seq::<u8>::empty());
        r
    }

    /// Adds a chunk, and tells whether the buffer is within its limit.
    pub fn push(&mut self, chunk: &[u8]) -> (r: bool)
        requires
            old(self).wf(),
        ensures
            final(self).wf(),
            final(self)@ == old(self)@ + chunk@,
            r == (final(self)@.len() <= MAX_BUFFER_BYTES),
    {
        let ghost before = self@;
        if self.start > 0 {
            let kept = self.buffer.split_off(self.start);
            assert(kept@ =~= before);
            self.buffer = kept;
            self.start = 0;
        }
        self.buffer.extend_from_slice(chunk);
        assert(self@ =~= before + chunk@);
        self.buffer.len() <= MAX_BUFFER_BYTES
    }

    /// Takes the next line out.
    pub fn next_line(&mut self) -> (r: Option<Vec<u8>>)
        requires
            old(self).wf(),
        ensures
            final(self).wf(),
            rest(final(self)@) == rest(old(self)@),
            match r {
                Some(line) => lines(old(self)@) == seq![line@] + lines(final(self)@),
                None => lines(old(self)@).len() == 0 && final(self)@ == rest(old(self)@),
            },
    {
        let ghost all = self@;
        loop
            invariant
                self.wf(),
                rest(self@) == rest(all),
                lines(self@) == lines(all),
                all == old(self)@,
            decreases self@.len(),
        {
            let ghost now = self@;
            let bytes = slice_subrange(self.buffer.as_slice(), self.start, self.buffer.len());
            assert(bytes@ =~= now);
            let n: usize = match memchr::memchr(10, bytes) {
                Some(n) => n,
                None => {
                    proof {
                        lemma_line_len_is(now, now.len() as int);
                    }
                    return None;
                },
            };
            proof {
                lemma_line_len_is(now, n as int);
            }
            let mut end: usize = n;
            if end > 0 && bytes[end - 1] == 13 {
                end = end - 1;
            }
            let line = slice_to_vec(slice_subrange(bytes, 0, end));
            assert(line@ =~= first_line(now));
            self.start = self.start + n + 1;
            assert(self@ =~= after_line(now));
            if line.len() > 0 {
                return Some(line);
            }
        }
    }

    /// What is left at the end of the stream, without line ends.
    pub fn tail(&mut self) -> (r: Option<Vec<u8>>)
        requires
            old(self).wf(),
        ensures
            final(self).wf(),
            final(self)@ == Seq::<u8>::empty(),
            match r {
                Some(line) => line@.len() > 0 && line@ == without_line_end(old(self)@),
                None => without_line_end(old(self)@).len() == 0,
            },
    {
        let ghost all = self@;
        let mut end: usize = self.buffer.len();
        assert(self.buffer@.subrange(self.start as int, end as int) =~= all);
        while end > self.start && (self.buffer[end - 1] == 10 || self.buffer[end - 1] == 13)
            invariant
                self.start <= end <= self.buffer@.len(),
                without_line_end(all) == without_line_end(
                    self.buffer@.subrange(self.start as int, end as int),
                ),
            decreases end,
        {
            let ghost s = self.buffer@.subrange(self.start as int, end as int);
            assert(s.drop_last() =~= self.buffer@.subrange(self.start as int, end - 1));
            end = end - 1;
        }
        let ghost s = self.buffer@.subrange(self.start as int, end as int);
        assert(without_line_end(s) == s);
        let line = slice_to_vec(slice_subrange(self.buffer.as_slice(), self.start, end));
        self.start = self.buffer.len();
        assert(self@ =~= Seq::<u8>::empty());
        if line.len() > 0 {
            Some(line)
        } else {
            None
        }
    }
}

} // verus!
