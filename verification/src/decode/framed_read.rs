//! The buffered frame reader: it owns a fixed buffer, takes in what a byte
//! source delivers and hands out whole messages one at a time.
//!
//! The reader performs no input itself. Its driver asks it what to do, reads
//! from the source into the free region when told to, and reports how that
//! went; every decision is taken here.

use crate::codec::split_frame;
use crate::decode::error::FramedReadError;
use crate::payload::decode_payload;
use crate::wire::{status, FrameStatus};
use core::marker::PhantomData;
use vstd::prelude::*;

verus! {

/// A reader of frames from the byte source `R`, decoding messages of type `M`.
pub struct FramedRead<'a, R, M> {
    reader: R,
    buf: &'a mut [u8],
    cursor: usize,
    has_errored: bool,
    _phantom: PhantomData<M>,
}

/// What a request for the next element of the sequence of messages comes to.
#[derive(Debug)]
pub enum Pull<M, E> {
    /// No whole frame is buffered: read from the source, report the outcome
    /// with `fill_buf`, and ask again.
    Fill,
    /// The next element.
    Item(Result<M, FramedReadError<E>>),
    /// The sequence has ended: an error was yielded before.
    Done,
}

/// How a stream ends for a reader whose free region holds `free` bytes when
/// the source delivers nothing: with room left the source has closed, and with
/// none the frame at the front cannot fit the buffer.
pub open spec fn end_of_stream<E>(free: nat) -> FramedReadError<E> {
    if free == 0 {
        FramedReadError::BufferIsFull
    } else {
        FramedReadError::ReadZero
    }
}

/// What the fill step makes of a read into a free region of `free` bytes: the
/// source's error is passed on, a read of nothing is the end of the stream,
/// and anything else is progress.
pub open spec fn fill_outcome<E>(free: nat, read: Result<usize, E>) -> Result<
    (),
    FramedReadError<E>,
> {
    match read {
        Err(error) => Err(FramedReadError::Io(error)),
        Ok(n) => if n != 0 {
            Ok(())
        } else {
            Err(end_of_stream(free))
        },
    }
}

/// Moves the bytes of `buf` from `from` up to `end` to the front, in their
/// order, and leaves the length of `buf` as it is. What stands behind them
/// afterwards is of no account.
fn shift_down(buf: &mut [u8], from: usize, end: usize)
    requires
        from <= end <= old(buf)@.len(),
    ensures
        final(buf)@.len() == old(buf)@.len(),
        final(buf)@.take(end - from) == old(buf)@.subrange(from as int, end as int),
{
    let count: usize = end - from;
    let mut i: usize = 0;
    while i < count
        invariant
            count == end - from,
            from <= end <= buf@.len(),
            buf@.len() == old(buf)@.len(),
            i <= count,
            forall|j: int| 0 <= j < i ==> buf@[j] == old(buf)@[j + from],
            forall|j: int| i <= j < buf@.len() ==> buf@[j] == old(buf)@[j],
        decreases count - i,
    {
        let byte: u8 = buf[i + from];
        buf[i] = byte;
        i += 1;
    }
    assert(buf@.take(end - from) =~= old(buf)@.subrange(from as int, end as int));
}

impl<'a, R, M> AsRef<R> for FramedRead<'a, R, M> {
    fn as_ref(&self) -> (reader: &R)
        ensures
            *reader == self.reader(),
    {
        &self.reader
    }
}

impl<'a, R, M> AsMut<R> for FramedRead<'a, R, M> {
    fn as_mut(&mut self) -> (reader: &mut R)
        ensures
            *reader == old(self).reader(),
            final(self).reader() == *final(reader),
            final(self).wf() == old(self).wf(),
            final(self).buffered() == old(self).buffered(),
            final(self).free() == old(self).free(),
            final(self).has_errored() == old(self).has_errored(),
    {
        &mut self.reader
    }
}

impl<'a, R, M> FramedRead<'a, R, M> {
    /// The reader is well formed: what it counts as buffered lies inside its
    /// buffer. Every reader made by `new` is, and every method keeps it so.
    pub closed spec fn wf(self) -> bool {
        self.cursor <= self.buf@.len()
    }

    /// The byte source.
    pub closed spec fn reader(self) -> R {
        self.reader
    }

    /// The unconsumed bytes of the stream seen so far, oldest first.
    pub closed spec fn buffered(self) -> Seq<u8> {
        self.buf@.take(self.cursor as int)
    }

    /// The free region behind them, which the next read fills from its front.
    pub closed spec fn free(self) -> Seq<u8> {
        self.buf@.skip(self.cursor as int)
    }

    /// Whether an error has been reported.
    pub closed spec fn has_errored(self) -> bool {
        self.has_errored
    }

    /// The size of the buffer.
    pub open spec fn capacity(self) -> nat {
        self.buffered().len() + self.free().len()
    }

    /// A reader over `reader` that buffers in `buf`, with nothing buffered yet.
    pub fn new(reader: R, buf: &'a mut [u8]) -> (framed: Self)
        ensures
            framed.wf(),
            framed.reader() == reader,
            framed.buffered() == Seq::<u8>::empty(),
            framed.free() == old(buf)@,
            !framed.has_errored(),
    {
        let framed = Self { reader, buf, cursor: 0, has_errored: false, _phantom: PhantomData };
        assert(framed.buf@.take(0) =~= Seq::<u8>::empty());
        assert(framed.buf@.skip(0) =~= framed.buf@);
        framed
    }

    /// Gives the byte source back and drops what is buffered.
    pub fn into_inner(self) -> (reader: R)
        ensures
            reader == self.reader(),
    {
        self.reader
    }

    /// The number of buffered bytes.
    pub fn cursor(&self) -> (n: usize)
        requires
            self.wf(),
        ensures
            n == self.buffered().len(),
    {
        self.cursor
    }

    /// Whether an error has been reported, which ends the sequence of messages.
    pub fn is_done(&self) -> (done: bool)
        ensures
            done == self.has_errored(),
    {
        self.has_errored
    }

    /// The byte source and the free region, for the driver to read from the
    /// one into the other. The buffered bytes stay out of reach.
    pub fn parts(&mut self) -> (parts: (&mut R, &mut [u8]))
        requires
            old(self).wf(),
        ensures
            final(self).wf(),
            *parts.0 == old(self).reader(),
            parts.1@ == old(self).free(),
            final(self).reader() == *final(parts.0),
            final(self).free() == final(parts.1)@,
            final(self).buffered() == old(self).buffered(),
            final(self).has_errored() == old(self).has_errored(),
    {
        let (_, tail) = self.buf.split_at_mut(self.cursor);
        (&mut self.reader, tail)
    }

    /// The fill step. `read` is the outcome of the driver's read into the
    /// free region: the number of bytes that the source put at its front, or
    /// the source's error.
    ///
    /// Bytes that arrived join the buffered ones. A read of nothing ends the
    /// stream: with room left the source has closed, with none the frame at
    /// the front cannot fit the buffer. Every error marks the reader.
    pub fn fill_buf<E>(&mut self, read: Result<usize, E>) -> (r: Result<(), FramedReadError<E>>)
        requires
            old(self).wf(),
            read matches Ok(n) ==> n <= old(self).free().len(),
        ensures
            final(self).wf(),
            final(self).reader() == old(self).reader(),
            r == fill_outcome(old(self).free().len(), read),
            match r {
                Ok(_) => {
                    &&& final(self).buffered() == old(self).buffered() + old(self).free().take(
                        read->Ok_0 as int,
                    )
                    &&& final(self).free() == old(self).free().skip(read->Ok_0 as int)
                    &&& final(self).has_errored() == old(self).has_errored()
                },
                Err(_) => {
                    &&& final(self).buffered() == old(self).buffered()
                    &&& final(self).free() == old(self).free()
                    &&& final(self).has_errored()
                },
            },
    {
        match read {
            Err(error) => {
                self.has_errored = true;
                Err(FramedReadError::Io(error))
            },
            Ok(n) => {
                if n == 0 {
                    self.has_errored = true;
                    if self.cursor == self.buf.len() {
                        return Err(FramedReadError::BufferIsFull);
                    }
                    return Err(FramedReadError::ReadZero);
                }
                assert(self.free().len() == self.buf@.len() - self.cursor);
                assert(self.buf@.len() == self.buf.len());
                self.cursor += n;
                assert(self.buffered() =~= old(self).buffered() + old(self).free().take(n as int));
                assert(self.free() =~= old(self).free().skip(n as int));
                Ok(())
            },
        }
    }

    /// Takes the frame of `len` bytes off the front of the buffer once the
    /// serializer has answered for its payload: `decoded` is that answer.
    ///
    /// A message leaves with its frame, and what was buffered behind the frame
    /// moves to the front. An error leaves the buffer as it is and marks the
    /// reader.
    pub fn complete_frame<E>(
        &mut self,
        len: usize,
        decoded: Result<M, bincode::error::DecodeError>,
    ) -> (r: Result<M, FramedReadError<E>>)
        requires
            old(self).wf(),
            status(old(self).buffered()) == FrameStatus::Complete(len),
        ensures
            final(self).wf(),
            final(self).reader() == old(self).reader(),
            final(self).capacity() == old(self).capacity(),
            match decoded {
                Ok(message) => {
                    &&& r == Ok::<M, FramedReadError<E>>(message)
                    &&& final(self).buffered() == old(self).buffered().skip(len as int)
                    &&& final(self).has_errored() == old(self).has_errored()
                },
                Err(error) => {
                    &&& r == Err::<M, FramedReadError<E>>(FramedReadError::Decode(error))
                    &&& final(self).buffered() == old(self).buffered()
                    &&& final(self).free() == old(self).free()
                    &&& final(self).has_errored()
                },
            },
    {
        match decoded {
            Err(error) => {
                self.has_errored = true;
                Err(FramedReadError::Decode(error))
            },
            Ok(message) => {
                let end: usize = self.cursor;
                shift_down(self.buf, len, end);
                self.cursor = end - len;
                assert(self.buffered() =~= old(self).buffered().skip(len as int));
                Ok(message)
            },
        }
    }
}

impl<'a, R, M: bincode::Decode> FramedRead<'a, R, M> {
    /// Hands out the message of the frame at the front of the buffer, if a
    /// whole frame is buffered. `Ok(None)` says that the frame is incomplete:
    /// the driver reads more and reports it with `fill_buf`, then asks again.
    ///
    /// A header that declares fewer than four bytes is an error, and so is a
    /// payload that the serializer refuses; both leave the buffer as it is and
    /// mark the reader.
    pub fn read_frame<E>(&mut self) -> (r: Result<Option<M>, FramedReadError<E>>)
        requires
            old(self).wf(),
        ensures
            final(self).wf(),
            final(self).reader() == old(self).reader(),
            final(self).capacity() == old(self).capacity(),
            match status(old(self).buffered()) {
                FrameStatus::NeedHeader | FrameStatus::NeedBody(_) => {
                    &&& r == Ok::<Option<M>, FramedReadError<E>>(None)
                    &&& final(self).buffered() == old(self).buffered()
                    &&& final(self).free() == old(self).free()
                    &&& final(self).has_errored() == old(self).has_errored()
                },
                FrameStatus::Invalid => {
                    &&& r == Err::<Option<M>, FramedReadError<E>>(
                        FramedReadError::InvalidFrameSize,
                    )
                    &&& final(self).buffered() == old(self).buffered()
                    &&& final(self).free() == old(self).free()
                    &&& final(self).has_errored()
                },
                FrameStatus::Complete(len) => {
                    ||| {
                        &&& r matches Ok(Some(_))
                        &&& final(self).buffered() == old(self).buffered().skip(len as int)
                        &&& final(self).has_errored() == old(self).has_errored()
                    }
                    ||| {
                        &&& r matches Err(FramedReadError::Decode(_))
                        &&& final(self).buffered() == old(self).buffered()
                        &&& final(self).free() == old(self).free()
                        &&& final(self).has_errored()
                    }
                },
            },
    {
        let front = vstd::slice::slice_subrange(self.buf, 0, self.cursor);
        match split_frame(front) {
            Ok(None) => Ok(None),
            Err(_) => {
                self.has_errored = true;
                Err(FramedReadError::InvalidFrameSize)
            },
            Ok(Some((payload, len))) => {
                let decoded = decode_payload(payload);
                match self.complete_frame(len, decoded) {
                    Ok(message) => Ok(Some(message)),
                    Err(error) => Err(error),
                }
            },
        }
    }

    /// One request for the next element of the sequence of messages.
    ///
    /// Once an error has been reported, by this reader's `fill_buf` or
    /// `read_frame` or in answer to a request, the sequence has ended and
    /// every request gives `Done` and changes nothing. Before that a request is one
    /// `read_frame`: a message or an error is the next element, and an
    /// incomplete frame asks the driver to fill.
    pub fn pull_next<E>(&mut self) -> (p: Pull<M, E>)
        requires
            old(self).wf(),
        ensures
            final(self).wf(),
            final(self).reader() == old(self).reader(),
            final(self).capacity() == old(self).capacity(),
            old(self).has_errored() ==> {
                &&& p is Done
                &&& final(self).buffered() == old(self).buffered()
                &&& final(self).free() == old(self).free()
                &&& final(self).has_errored()
            },
            !old(self).has_errored() ==> match status(old(self).buffered()) {
                FrameStatus::NeedHeader | FrameStatus::NeedBody(_) => {
                    &&& p is Fill
                    &&& final(self).buffered() == old(self).buffered()
                    &&& final(self).free() == old(self).free()
                    &&& !final(self).has_errored()
                },
                FrameStatus::Invalid => {
                    &&& p == Pull::<M, E>::Item(Err(FramedReadError::InvalidFrameSize))
                    &&& final(self).buffered() == old(self).buffered()
                    &&& final(self).free() == old(self).free()
                    &&& final(self).has_errored()
                },
                FrameStatus::Complete(len) => {
                    ||| {
                        &&& p matches Pull::Item(Ok(_))
                        &&& final(self).buffered() == old(self).buffered().skip(len as int)
                        &&& !final(self).has_errored()
                    }
                    ||| {
                        &&& p matches Pull::Item(Err(FramedReadError::Decode(_)))
                        &&& final(self).buffered() == old(self).buffered()
                        &&& final(self).free() == old(self).free()
                        &&& final(self).has_errored()
                    }
                },
            },
    {
        if self.has_errored {
            return Pull::Done;
        }
        match self.read_frame() {
            Ok(None) => Pull::Fill,
            Ok(Some(message)) => Pull::Item(Ok(message)),
            Err(error) => Pull::Item(Err(error)),
        }
    }
}

} // verus!
