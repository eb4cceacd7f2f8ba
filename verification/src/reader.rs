//! The buffer between a byte source and the input grammar.

use crate::error::TerminalError;
use crate::input::{lemma_parse_bounds, lemma_parse_extends, parse, parse_input, TerminalInput};
use vstd::prelude::*;
use vstd::slice::slice_subrange;

verus! {

/// The next event in a buffer of input and the bytes that stay behind it.
/// Bytes that the grammar drops are passed over; where the bytes at hand
/// decide nothing, there is no event and they all stay.
pub open spec fn next_event(buffer: Seq<u8>) -> (Option<TerminalInput>, Seq<u8>)
    decreases buffer.len(),
{
    let taken = parse(buffer).1;
    if 0 < taken <= buffer.len() {
        if parse(buffer).0.is_none() {
            next_event(buffer.skip(taken))
        } else {
            (parse(buffer).0, buffer.skip(taken))
        }
    } else {
        (None, buffer)
    }
}

/// Reads input events out of the bytes of a source. The reader owns the
/// source and the bytes that were read from it and not yet consumed.
#[derive(Debug)]
pub struct InputReader<R> {
    inner: R,
    buf: Vec<u8>,
}

impl<R> InputReader<R> {
    /// The bytes that were handed in and that no event has consumed yet.
    pub closed spec fn buffered(&self) -> Seq<u8> {
        self.buf@
    }

    /// The byte source that the reader owns.
    pub closed spec fn source(&self) -> R {
        self.inner
    }

    /// Makes a reader that owns `inner` and holds no bytes yet.
    pub fn new(inner: R) -> (reader: Self)
        ensures
            reader.buffered() == Seq::<u8>::empty(),
            reader.source() == inner,
    {
        Self { inner, buf: Vec::new() }
    }

    /// The source that the reader owns.
    pub fn inner(&self) -> (inner: &R)
        ensures
            *inner == self.source(),
    {
        &self.inner
    }

    /// The source that the reader owns, to read from.
    pub fn inner_mut(&mut self) -> (inner: &mut R)
        ensures
            *inner == old(self).source(),
            final(self).source() == *final(inner),
            final(self).buffered() == old(self).buffered(),
    {
        &mut self.inner
    }

    /// Takes the next event out of the bytes at hand, without reading.
    /// Returns `None` where they hold no complete event; they then stay for
    /// the next call, less what the grammar drops.
    pub fn read_input_from_buf(&mut self) -> (input: Option<TerminalInput>)
        ensures
            input == next_event(old(self).buffered()).0,
            final(self).buffered() == next_event(old(self).buffered()).1,
            final(self).source() == old(self).source(),
    {
        let mut start: usize = 0;
        let mut input: Option<TerminalInput> = None;
        assert(self.buf@.skip(0) =~= self.buf@);
        loop
            invariant_except_break
                start <= self.buf@.len(),
                input.is_none(),
                next_event(self.buf@) == next_event(self.buf@.skip(start as int)),
            invariant
                self.buf@ == old(self).buf@,
                self.inner == old(self).inner,
                start <= self.buf@.len(),
            ensures
                input == next_event(self.buf@).0,
                self.buf@.skip(start as int) == next_event(self.buf@).1,
            decreases self.buf@.len() - start,
        {
            let rest = slice_subrange(self.buf.as_slice(), start, self.buf.len());
            assert(rest@ =~= self.buf@.skip(start as int));
            let (found, taken) = parse_input(rest);
            if taken == 0 {
                break ;
            }
            assert(rest@.skip(taken as int) =~= self.buf@.skip(start + taken));
            start += taken;
            if found.is_some() {
                input = found;
                break ;
            }
        }
        let rest = self.buf.split_off(start);
        assert(rest@ =~= old(self).buf@.skip(start as int));
        self.buf = rest;
        input
    }

    /// Takes in the bytes that one read of the source gave, and then the next
    /// event out of the bytes at hand. A read that gave no bytes is the end
    /// of the input, which is an error.
    pub fn read_input(&mut self, fresh: &[u8]) -> (result: Result<
        Option<TerminalInput>,
        TerminalError,
    >)
        ensures
            final(self).source() == old(self).source(),
            fresh@.len() == 0 ==> result == Err::<Option<TerminalInput>, TerminalError>(
                TerminalError::UnexpectedEof,
            ) && final(self).buffered() == old(self).buffered(),
            fresh@.len() > 0 ==> result == Ok::<Option<TerminalInput>, TerminalError>(
                next_event(old(self).buffered() + fresh@).0,
            ) && final(self).buffered() == next_event(old(self).buffered() + fresh@).1,
    {
        if fresh.len() == 0 {
            return Err(TerminalError::UnexpectedEof);
        }
        let mut i: usize = 0;
        while i < fresh.len()
            invariant
                i <= fresh@.len(),
                self.inner == old(self).inner,
                self.buf@ == old(self).buf@ + fresh@.take(i as int),
            decreases fresh@.len() - i,
        {
            self.buf.push(fresh[i]);
            assert(self.buf@ =~= old(self).buf@ + fresh@.take(i + 1));
            i += 1;
        }
        assert(fresh@.take(i as int) =~= fresh@);
        Ok(self.read_input_from_buf())
    }
}

/// All the events that a buffer of input holds, in their order.
pub open spec fn all_events(buffer: Seq<u8>) -> Seq<TerminalInput>
    decreases buffer.len(),
{
    let next = next_event(buffer);
    if next.0.is_some() && next.1.len() < buffer.len() {
        seq![next.0.unwrap()] + all_events(next.1)
    } else {
        Seq::empty()
    }
}

/// Chunks of bytes, joined into one run.
pub open spec fn joined(chunks: Seq<Seq<u8>>) -> Seq<u8>
    decreases chunks.len(),
{
    if chunks.len() == 0 {
        Seq::empty()
    } else {
        chunks[0] + joined(chunks.skip(1))
    }
}

/// The bytes of an event in front of a buffer give that event and leave the rest.
pub proof fn lemma_next_event_of_encoding(first: Seq<u8>, event: TerminalInput, rest: Seq<u8>)
    requires
        parse(first) == (Some(event), first.len() as int),
    ensures
        next_event(first + rest) == (Some(event), rest),
{
    lemma_parse_bounds(first);
    lemma_parse_extends(first, rest);
    assert((first + rest).skip(first.len() as int) =~= rest);
}

/// The law of completeness: where each chunk of bytes is the whole form of
/// an event, the chunks joined hold exactly those events, in their order.
pub proof fn lemma_reader_gives_events(chunks: Seq<Seq<u8>>, events: Seq<TerminalInput>)
    requires
        chunks.len() == events.len(),
        forall|i: int|
            0 <= i < chunks.len() ==> parse(#[trigger] chunks[i]) == (
                Some(events[i]),
                chunks[i].len() as int,
            ),
    ensures
        all_events(joined(chunks)) == events,
    decreases chunks.len(),
{
    if chunks.len() == 0 {
        assert(all_events(joined(chunks)) =~= events);
    } else {
        let rest = joined(chunks.skip(1));
        assert forall|i: int| 0 <= i < chunks.skip(1).len() implies parse(
            #[trigger] chunks.skip(1)[i],
        ) == (Some(events.skip(1)[i]), chunks.skip(1)[i].len() as int) by {
            assert(chunks.skip(1)[i] == chunks[i + 1]);
        }
        lemma_reader_gives_events(chunks.skip(1), events.skip(1));
        lemma_parse_bounds(chunks[0]);
        lemma_next_event_of_encoding(chunks[0], events[0], rest);
        assert(all_events(joined(chunks)) =~= events);
    }
}

} // verus!
