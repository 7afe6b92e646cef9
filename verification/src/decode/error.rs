//! Why a frame could not be read.

use vstd::prelude::*;

verus! {

/// Why a frame could not be read. `E` is the byte source's own error.
#[derive(Debug)]
pub enum FramedReadError<E> {
    /// The byte source failed.
    Io(E),
    /// The serializer refused the payload of a whole frame, be it for what
    /// the payload holds or because it claims more than `DECODE_LIMIT` bytes.
    Decode(bincode::error::DecodeError),
    /// The byte source ended while the buffer still had room.
    ReadZero,
    /// The buffer is full and still holds no whole frame.
    BufferIsFull,
    /// The header declares a frame shorter than the header.
    InvalidFrameSize,
}

impl<E> FramedReadError<E> {
    /// What the error says, in words.
    pub fn message(&self) -> (text: &'static str)
        ensures
            text@ == match self {
                FramedReadError::Io(_) => "IO error"@,
                FramedReadError::Decode(_) => "Decode error"@,
                FramedReadError::ReadZero => "Read zero bytes"@,
                FramedReadError::BufferIsFull => "Buffer is full"@,
                FramedReadError::InvalidFrameSize => "Invalid frame size"@,
            },
    {
        match self {
            FramedReadError::Io(_) => "IO error",
            FramedReadError::Decode(_) => "Decode error",
            FramedReadError::ReadZero => "Read zero bytes",
            FramedReadError::BufferIsFull => "Buffer is full",
            FramedReadError::InvalidFrameSize => "Invalid frame size",
        }
    }
}

} // verus!
