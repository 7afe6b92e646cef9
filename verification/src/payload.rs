//! The payload serializer. Messages are turned into bytes and back by `bincode`
//! in its standard configuration, with a limit on what a payload may claim when
//! it is decoded; the framing code never looks inside a payload.

use vstd::prelude::*;

verus! {

/// `bincode::error::EncodeError`, carried through unread.
#[verifier::external_type_specification]
#[verifier::external_body]
pub struct ExEncodeError(bincode::error::EncodeError);

/// `bincode::error::DecodeError`, carried through unread.
#[verifier::external_type_specification]
#[verifier::external_body]
pub struct ExDecodeError(bincode::error::DecodeError);

/// Calls `bincode::encode_into_slice` with the standard configuration.
///
/// Believed of it: the slice keeps its length; on success the count returned is
/// at most that length, and the bytes from that count on are the ones that were
/// there before, since the encoder writes from the front and never past what
/// it reports. Nothing is claimed about which bytes it writes, nor about when
/// it fails.
#[verifier::external_body]
pub(crate) fn encode_payload<T: bincode::Encode>(item: T, dst: &mut [u8]) -> (written: Result<
    usize,
    bincode::error::EncodeError,
>)
    ensures
        final(dst)@.len() == old(dst)@.len(),
        written matches Ok(n) ==> n <= old(dst)@.len() && final(dst)@.skip(n as int) == old(
            dst,
        )@.skip(n as int),
{
    bincode::encode_into_slice(item, dst, bincode::config::standard())
}

/// The most bytes that the decoding of one payload may claim, for what it
/// reads and for the containers that it sets up. A payload that declares more,
/// such as a string or a list with an absurd length, is refused with the
/// serializer's error before anything is set up for it. The bound is small
/// enough for the size of any one container to stay below the largest size
/// of an allocation on machines of 32 bits as well.
pub const DECODE_LIMIT: usize = 0x1000_0000;

/// Calls `bincode::decode_from_slice` with the standard configuration, limited
/// to `DECODE_LIMIT` bytes, and keeps the message, dropping the count of bytes
/// that the decoder read.
///
/// The limit changes nothing on the wire. With it the decoder accounts for the
/// length that a payload declares for a container before it reserves room for
/// the container, and answers a length beyond the limit with an error where
/// it would otherwise ask std for a capacity that std refuses by panicking.
///
/// Nothing is believed of the outcome. The message type's own decoding code
/// runs inside the call.
#[verifier::external_body]
pub(crate) fn decode_payload<M: bincode::Decode>(src: &[u8]) -> (decoded: Result<
    M,
    bincode::error::DecodeError,
>) {
    let config = bincode::config::standard().with_limit::<DECODE_LIMIT>();
    match bincode::decode_from_slice(src, config) {
        Ok((message, _)) => Ok(message),
        Err(error) => Err(error),
    }
}

} // verus!
