//! The wire format: every frame is a four-byte big-endian length followed by a
//! payload, and the length counts the whole frame, its own four bytes included.

use vstd::prelude::*;

verus! {

/// Bytes taken by the length field at the front of every frame.
pub const HEADER_LEN: usize = 4;

/// The largest length that the four-byte field can spell.
pub const MAX_FRAME_LEN: usize = 0xffff_ffff;

/// The number spelled by the first four bytes of `bytes`, most significant first.
pub open spec fn declared_len(bytes: Seq<u8>) -> nat
    recommends
        bytes.len() >= 4,
{
    (bytes[0] as nat) * 0x100_0000 + (bytes[1] as nat) * 0x1_0000 + (bytes[2] as nat) * 0x100
        + (bytes[3] as nat)
}

/// The four bytes that spell `len`, most significant first.
pub open spec fn header_of(len: nat) -> Seq<u8>
    recommends
        len <= MAX_FRAME_LEN,
{
    seq![
        (len / 0x100_0000 % 0x100) as u8,
        (len / 0x1_0000 % 0x100) as u8,
        (len / 0x100 % 0x100) as u8,
        (len % 0x100) as u8,
    ]
}

/// The frame that carries `payload`: its header, then the payload itself.
pub open spec fn frame_of(payload: Seq<u8>) -> Seq<u8>
    recommends
        payload.len() + 4 <= MAX_FRAME_LEN,
{
    header_of(payload.len() + 4) + payload
}

/// What the bytes at the front of a stream amount to.
#[derive(Clone, Copy, Debug, PartialEq, Eq, Structural)]
pub enum FrameStatus {
    /// Fewer than four bytes: the frame's size is not known yet.
    NeedHeader,
    /// The header declares a frame of this many bytes, and fewer are present.
    NeedBody(usize),
    /// The header declares fewer than four bytes, less than the header itself.
    Invalid,
    /// A whole frame of this many bytes stands at the front.
    Complete(usize),
}

/// The status of the bytes `bytes`, read from their front.
pub open spec fn status(bytes: Seq<u8>) -> FrameStatus {
    if bytes.len() < 4 {
        FrameStatus::NeedHeader
    } else if bytes.len() < declared_len(bytes) {
        FrameStatus::NeedBody(declared_len(bytes) as usize)
    } else if declared_len(bytes) < 4 {
        FrameStatus::Invalid
    } else {
        FrameStatus::Complete(declared_len(bytes) as usize)
    }
}

/// The payload of the frame at the front of `bytes`, where `status` finds one.
pub open spec fn payload_of(bytes: Seq<u8>) -> Seq<u8>
    recommends
        status(bytes) is Complete,
{
    bytes.subrange(4, declared_len(bytes) as int)
}

/// Spelling a length and reading it back gives the length.
pub proof fn lemma_header_round_trip(len: nat)
    requires
        len <= MAX_FRAME_LEN,
    ensures
        header_of(len).len() == 4,
        declared_len(header_of(len)) == len,
{
}

/// Only the first four bytes decide the declared length.
pub proof fn lemma_declared_len_prefix(bytes: Seq<u8>, more: Seq<u8>)
    requires
        bytes.len() >= 4,
    ensures
        declared_len(bytes + more) == declared_len(bytes),
{
}

/// Reads the length field at the front of `src`.
pub fn read_header(src: &[u8]) -> (len: u32)
    requires
        src@.len() >= 4,
    ensures
        len == declared_len(src@),
{
    let b0: u32 = src[0] as u32;
    let b1: u32 = src[1] as u32;
    let b2: u32 = src[2] as u32;
    let b3: u32 = src[3] as u32;
    b0 * 0x100_0000 + b1 * 0x1_0000 + b2 * 0x100 + b3
}

/// Writes `len` into the length field at the front of `dst` and leaves the rest alone.
pub fn write_header(dst: &mut [u8], len: u32)
    requires
        old(dst)@.len() >= 4,
    ensures
        final(dst)@ == header_of(len as nat) + old(dst)@.skip(4),
{
    dst[0] = (len / 0x100_0000) as u8;
    dst[1] = (len / 0x1_0000 % 0x100) as u8;
    dst[2] = (len / 0x100 % 0x100) as u8;
    dst[3] = (len % 0x100) as u8;
    assert(dst@ =~= header_of(len as nat) + old(dst)@.skip(4));
}

/// Tells what stands at the front of `src`: nothing yet, part of a frame, a
/// header that cannot be, or a whole frame.
pub fn frame_status(src: &[u8]) -> (st: FrameStatus)
    ensures
        st == status(src@),
{
    if src.len() < HEADER_LEN {
        return FrameStatus::NeedHeader;
    }
    let declared: usize = read_header(src) as usize;
    if src.len() < declared {
        FrameStatus::NeedBody(declared)
    } else if declared < HEADER_LEN {
        FrameStatus::Invalid
    } else {
        FrameStatus::Complete(declared)
    }
}

} // verus!
