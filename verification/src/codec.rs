//! The wire codec: one message to one frame's bytes and back, on slices that
//! the caller provides.

use crate::payload::{decode_payload, encode_payload};
use crate::wire::{
    frame_status, header_of, lemma_declared_len_prefix, lemma_header_round_trip, payload_of,
    status, write_header, FrameStatus, HEADER_LEN, MAX_FRAME_LEN,
};
use core::marker::PhantomData;
use vstd::prelude::*;

verus! {

/// The codec for messages of type `M`. It holds no state.
pub struct Codec<M> {
    _phantom: PhantomData<M>,
}

/// Why a message could not be put into a frame.
#[derive(Debug)]
#[non_exhaustive]
pub enum FrameEncodeError {
    /// The destination has no room for the four-byte header.
    InputBufferTooSmall,
    /// The serializer refused the message, or ran out of room for it.
    Encode(bincode::error::EncodeError),
    /// Header and payload together are more than the length field can spell.
    MessageTooBig,
}

/// Why the bytes of a whole frame gave no message.
#[derive(Debug)]
pub enum FrameDecodeError {
    /// The header declares a frame shorter than the header.
    InvalidFrameSize,
    /// The serializer refused the payload, be it for what the payload holds
    /// or because it claims more than `DECODE_LIMIT` bytes.
    Decode(bincode::error::DecodeError),
}

/// How many bytes the owner of a buffer still has to supply.
#[derive(Clone, Copy, Debug, PartialEq, Eq, Structural)]
pub enum NeedBytes {
    /// The header is not complete, so the frame's size is not known.
    Unknown,
    /// The frame is this many bytes long in all, and fewer are present.
    Known(usize),
}

/// The outcome of one decode attempt on a buffer that the caller manages.
#[derive(Debug)]
pub enum Decoded<M> {
    /// No whole frame is present yet.
    NeedBytes(NeedBytes),
    /// A message, and the number of bytes that its frame took.
    Frame(M, usize),
}

/// What sealing makes of the serializer's answer: its error is wrapped, a
/// payload too long for the length field is refused, and otherwise the frame's
/// length is the payload's plus the header's.
pub open spec fn sealed(written: Result<usize, bincode::error::EncodeError>) -> Result<
    usize,
    FrameEncodeError,
> {
    match written {
        Err(error) => Err(FrameEncodeError::Encode(error)),
        Ok(n) => if n + 4 > MAX_FRAME_LEN {
            Err(FrameEncodeError::MessageTooBig)
        } else {
            Ok((n + 4) as usize)
        },
    }
}

/// What a frame's bytes are cut into before the serializer sees them: nothing
/// while the frame is incomplete, an error for an impossible header, else the
/// payload and the frame's length.
pub open spec fn split(bytes: Seq<u8>) -> Result<Option<(Seq<u8>, usize)>, FrameDecodeError> {
    match status(bytes) {
        FrameStatus::NeedHeader => Ok(None),
        FrameStatus::NeedBody(_) => Ok(None),
        FrameStatus::Invalid => Err(FrameDecodeError::InvalidFrameSize),
        FrameStatus::Complete(len) => Ok(Some((payload_of(bytes), len))),
    }
}

/// Completes the frame in `dst` once the serializer has answered: `written` is
/// its answer for the payload that starts right behind the header's place.
/// The header is written only when the frame is good, so that a failure leaves
/// `dst` as it was.
pub fn seal_frame(dst: &mut [u8], written: Result<usize, bincode::error::EncodeError>) -> (r:
    Result<usize, FrameEncodeError>)
    requires
        old(dst)@.len() >= 4,
        written matches Ok(n) ==> n + 4 <= old(dst)@.len(),
    ensures
        r == sealed(written),
        r matches Ok(len) ==> final(dst)@ == header_of(len as nat) + old(dst)@.skip(4),
        r is Err ==> final(dst)@ == old(dst)@,
{
    match written {
        Err(error) => Err(FrameEncodeError::Encode(error)),
        Ok(n) => {
            if n > MAX_FRAME_LEN - HEADER_LEN {
                return Err(FrameEncodeError::MessageTooBig);
            }
            let len: usize = n + HEADER_LEN;
            write_header(dst, len as u32);
            Ok(len)
        },
    }
}

/// Cuts the frame at the front of `src` into its payload and its length.
pub fn split_frame(src: &[u8]) -> (r: Result<Option<(&[u8], usize)>, FrameDecodeError>)
    ensures
        match split(src@) {
            Ok(None) => r == Ok::<Option<(&[u8], usize)>, FrameDecodeError>(None),
            Err(error) => r == Err::<Option<(&[u8], usize)>, FrameDecodeError>(error),
            Ok(Some((payload, len))) => r matches Ok(Some((p, n))) && p@ == payload && n == len,
        },
{
    match frame_status(src) {
        FrameStatus::NeedHeader => Ok(None),
        FrameStatus::NeedBody(_) => Ok(None),
        FrameStatus::Invalid => Err(FrameDecodeError::InvalidFrameSize),
        FrameStatus::Complete(len) => {
            let payload = vstd::slice::slice_subrange(src, HEADER_LEN, len);
            Ok(Some((payload, len)))
        },
    }
}

/// Turns the serializer's answer for a frame of `len` bytes into the codec's:
/// the message with the bytes that its frame took, or the wrapped error.
pub fn finish_decode<M>(len: usize, decoded: Result<M, bincode::error::DecodeError>) -> (r: Result<
    Option<(M, usize)>,
    FrameDecodeError,
>)
    ensures
        r == match decoded {
            Ok(message) => Ok(Some((message, len))),
            Err(error) => Err(FrameDecodeError::Decode(error)),
        },
{
    match decoded {
        Ok(message) => Ok(Some((message, len))),
        Err(error) => Err(FrameDecodeError::Decode(error)),
    }
}

impl<M> Codec<M> {
    /// A codec; it carries no state.
    #[inline]
    pub fn new() -> (codec: Self) {
        Self { _phantom: PhantomData }
    }
}

impl<M> Default for Codec<M> {
    fn default() -> (codec: Self) {
        Self::new()
    }
}

impl<M: bincode::Encode> Codec<M> {
    /// Encodes `item` as one frame at the front of `dst` and returns the
    /// frame's length.
    ///
    /// The payload is serialized behind the header's place first and the header
    /// is written last, so on every failure the first four bytes of `dst` are
    /// the ones that were there. On success the bytes behind the frame are
    /// untouched.
    pub fn encode(&mut self, item: M, dst: &mut [u8]) -> (r: Result<usize, FrameEncodeError>)
        ensures
            final(dst)@.len() == old(dst)@.len(),
            r is Err && r->Err_0 is InputBufferTooSmall <==> old(dst)@.len() < 4,
            old(dst)@.len() < 4 ==> final(dst)@ == old(dst)@,
            r is Err ==> final(dst)@.take(4) == old(dst)@.take(4),
            r is Err && r->Err_0 is MessageTooBig ==> old(dst)@.len() > MAX_FRAME_LEN,
            r matches Ok(len) ==> {
                &&& 4 <= len <= old(dst)@.len()
                &&& len <= MAX_FRAME_LEN
                &&& final(dst)@.take(4) == header_of(len as nat)
                &&& final(dst)@.skip(len as int) == old(dst)@.skip(len as int)
                &&& status(final(dst)@) == FrameStatus::Complete(len)
            },
    {
        if dst.len() < HEADER_LEN {
            return Err(FrameEncodeError::InputBufferTooSmall);
        }
        let written = {
            let (_, tail) = dst.split_at_mut(HEADER_LEN);
            encode_payload(item, tail)
        };
        let ghost mid = dst@;
        assert(mid.take(4) =~= old(dst)@.take(4));
        let r = seal_frame(dst, written);
        proof {
            if let Ok(len) = r {
                let n = (len - 4) as int;
                lemma_header_round_trip(len as nat);
                assert(dst@.take(4) =~= header_of(len as nat));
                assert(mid.skip(4).skip(n) =~= old(dst)@.skip(4).skip(n));
                assert(dst@.skip(len as int) =~= mid.skip(4).skip(n));
                assert(old(dst)@.skip(len as int) =~= old(dst)@.skip(4).skip(n));
                lemma_declared_len_prefix(header_of(len as nat), mid.skip(4));
            }
        }
        r
    }
}

impl<M: bincode::Decode> Codec<M> {
    /// Decodes the frame at the front of `src`, if a whole one is there, and
    /// returns the message with the number of bytes that the frame took.
    ///
    /// `Ok(None)` says that more bytes are needed. `src` is only read.
    pub fn decode_owned(&mut self, src: &mut [u8]) -> (r: Result<Option<(M, usize)>, FrameDecodeError>)
        ensures
            final(src)@ == old(src)@,
            match status(old(src)@) {
                FrameStatus::NeedHeader => r == Ok::<Option<(M, usize)>, FrameDecodeError>(None),
                FrameStatus::NeedBody(_) => r == Ok::<Option<(M, usize)>, FrameDecodeError>(None),
                FrameStatus::Invalid => r == Err::<Option<(M, usize)>, FrameDecodeError>(
                    FrameDecodeError::InvalidFrameSize,
                ),
                FrameStatus::Complete(len) => (r matches Ok(Some((_, n))) && n == len) || (r is Err
                    && r->Err_0 is Decode),
            },
    {
        match split_frame(src) {
            Err(error) => Err(error),
            Ok(None) => Ok(None),
            Ok(Some((payload, len))) => finish_decode(len, decode_payload(payload)),
        }
    }

    /// Decodes from a buffer that the caller owns and manages, and tells the
    /// caller what to do next: fetch more bytes, as many as are known to be
    /// missing, or take the message and move on by the bytes that it took.
    /// Nothing is kept between calls.
    pub fn decode_into(&mut self, src: &[u8]) -> (r: Result<Decoded<M>, FrameDecodeError>)
        ensures
            match status(src@) {
                FrameStatus::NeedHeader => r == Ok::<Decoded<M>, FrameDecodeError>(
                    Decoded::NeedBytes(NeedBytes::Unknown),
                ),
                FrameStatus::NeedBody(len) => r == Ok::<Decoded<M>, FrameDecodeError>(
                    Decoded::NeedBytes(NeedBytes::Known(len)),
                ),
                FrameStatus::Invalid => r == Err::<Decoded<M>, FrameDecodeError>(
                    FrameDecodeError::InvalidFrameSize,
                ),
                FrameStatus::Complete(len) => (r matches Ok(Decoded::Frame(_, n)) && n == len) || (
                r is Err && r->Err_0 is Decode),
            },
    {
        match frame_status(src) {
            FrameStatus::NeedHeader => Ok(Decoded::NeedBytes(NeedBytes::Unknown)),
            FrameStatus::NeedBody(len) => Ok(Decoded::NeedBytes(NeedBytes::Known(len))),
            FrameStatus::Invalid => Err(FrameDecodeError::InvalidFrameSize),
            FrameStatus::Complete(len) => {
                let payload = vstd::slice::slice_subrange(src, HEADER_LEN, len);
                match decode_payload(payload) {
                    Ok(message) => Ok(Decoded::Frame(message, len)),
                    Err(error) => Err(FrameDecodeError::Decode(error)),
                }
            },
        }
    }
}

} // verus!
