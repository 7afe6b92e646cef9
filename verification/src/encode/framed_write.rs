//! The buffered frame writer: it owns a fixed buffer, encodes one message at a
//! time into it and hands the frame to its driver, which pushes it to the sink.
//!
//! The writer performs no output itself, and nothing carries over from one
//! frame to the next.

use crate::codec::seal_frame;
use crate::encode::error::FramedWriteError;
use crate::payload::encode_payload;
use crate::wire::{
    header_of, lemma_declared_len_prefix, lemma_header_round_trip, status, FrameStatus,
    HEADER_LEN, MAX_FRAME_LEN,
};
use core::marker::PhantomData;
use vstd::prelude::*;

verus! {

/// A writer of frames to the byte sink `W`, encoding messages of type `M`.
pub struct FramedWrite<'a, W, M> {
    writer: W,
    buf: &'a mut [u8],
    _phantom: PhantomData<M>,
}

/// What the writer reports once the sink has answered for a frame: the sink's
/// error is passed on, and nothing else can go wrong.
pub open spec fn sent_outcome<E>(pushed: Result<(), E>) -> Result<(), FramedWriteError<E>> {
    match pushed {
        Ok(_) => Ok(()),
        Err(error) => Err(FramedWriteError::Io(error)),
    }
}

impl<'a, W, M> AsRef<W> for FramedWrite<'a, W, M> {
    fn as_ref(&self) -> (writer: &W)
        ensures
            *writer == self.writer(),
    {
        &self.writer
    }
}

impl<'a, W, M> AsMut<W> for FramedWrite<'a, W, M> {
    fn as_mut(&mut self) -> (writer: &mut W)
        ensures
            *writer == old(self).writer(),
            final(self).writer() == *final(writer),
            final(self).storage() == old(self).storage(),
    {
        &mut self.writer
    }
}

impl<'a, W, M> FramedWrite<'a, W, M> {
    /// The byte sink.
    pub closed spec fn writer(self) -> W {
        self.writer
    }

    /// The bytes of the buffer.
    pub closed spec fn storage(self) -> Seq<u8> {
        self.buf@
    }

    /// A writer over `writer` that encodes in `buf`.
    pub fn new(writer: W, buf: &'a mut [u8]) -> (framed: Self)
        ensures
            framed.writer() == writer,
            framed.storage() == old(buf)@,
    {
        Self { writer, buf, _phantom: PhantomData }
    }

    /// Gives the byte sink back.
    pub fn into_inner(self) -> (writer: W)
        ensures
            writer == self.writer(),
    {
        self.writer
    }

    /// Turns the sink's answer for the frame that was handed out into the
    /// writer's.
    pub fn sent<E>(&self, pushed: Result<(), E>) -> (r: Result<(), FramedWriteError<E>>)
        ensures
            r == sent_outcome(pushed),
    {
        match pushed {
            Ok(_) => Ok(()),
            Err(error) => Err(FramedWriteError::Io(error)),
        }
    }
}

impl<'a, W, M: bincode::Encode> FramedWrite<'a, W, M> {
    /// Encodes `message` as one frame at the front of the buffer and hands out
    /// the sink together with the frame's bytes, which the driver pushes to
    /// the sink whole.
    ///
    /// Every failure comes before any output: a buffer without room for the
    /// header, a message that the serializer refuses or that does not fit, a
    /// frame too long for the length field.
    pub fn write_frame<E>(&mut self, message: &M) -> (r: Result<
        (&mut W, &[u8]),
        FramedWriteError<E>,
    >)
        ensures
            final(self).storage().len() == old(self).storage().len(),
            r is Err ==> final(self).writer() == old(self).writer(),
            r is Err && r->Err_0 is BufferTooShort <==> old(self).storage().len() < 4,
            r is Err ==> !(r->Err_0 is Io),
            r is Err && r->Err_0 is MessageTooLarge ==> old(self).storage().len() > MAX_FRAME_LEN,
            r matches Ok((sink, frame)) ==> {
                &&& *sink == old(self).writer()
                &&& final(self).writer() == *final(sink)
                &&& 4 <= frame@.len() <= old(self).storage().len()
                &&& frame@ == final(self).storage().take(frame@.len() as int)
                &&& status(frame@) == FrameStatus::Complete(frame@.len() as usize)
                &&& final(self).storage().skip(frame@.len() as int) == old(self).storage().skip(
                    frame@.len() as int,
                )
            },
    {
        if self.buf.len() < HEADER_LEN {
            return Err(FramedWriteError::BufferTooShort);
        }
        let written = {
            let (_, tail) = self.buf.split_at_mut(HEADER_LEN);
            encode_payload(message, tail)
        };
        let ghost mid = self.buf@;
        match seal_frame(self.buf, written) {
            Err(error) => Err(FramedWriteError::from_encode(error)),
            Ok(len) => {
                let frame = vstd::slice::slice_subrange(self.buf, 0, len);
                proof {
                    let n = (len - 4) as int;
                    lemma_header_round_trip(len as nat);
                    lemma_declared_len_prefix(header_of(len as nat), mid.subrange(4, len as int));
                    assert(frame@ =~= header_of(len as nat) + mid.subrange(4, len as int));
                    assert(mid.skip(4).skip(n) =~= old(self).storage().skip(4).skip(n));
                    assert(self.buf@.skip(len as int) =~= mid.skip(4).skip(n));
                    assert(old(self).storage().skip(len as int) =~= old(self).storage().skip(
                        4,
                    ).skip(n));
                }
                Ok((&mut self.writer, frame))
            },
        }
    }
}

} // verus!
