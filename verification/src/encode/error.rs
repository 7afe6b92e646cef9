//! Why a frame could not be written.

use crate::codec::FrameEncodeError;
use vstd::prelude::*;

verus! {

/// Why a frame could not be written. `E` is the byte sink's own error.
#[derive(Debug)]
pub enum FramedWriteError<E> {
    /// The byte sink failed.
    Io(E),
    /// The serializer refused the message, or ran out of room for it.
    Encode(bincode::error::EncodeError),
    /// The buffer has no room for the four-byte header.
    BufferTooShort,
    /// Header and payload together are more than the length field can spell.
    MessageTooLarge,
}

/// The writer's error for each error of the codec.
pub open spec fn write_error<E>(error: FrameEncodeError) -> FramedWriteError<E> {
    match error {
        FrameEncodeError::InputBufferTooSmall => FramedWriteError::BufferTooShort,
        FrameEncodeError::Encode(inner) => FramedWriteError::Encode(inner),
        FrameEncodeError::MessageTooBig => FramedWriteError::MessageTooLarge,
    }
}

impl<E> FramedWriteError<E> {
    /// The writer's error for an error of the codec.
    pub fn from_encode(error: FrameEncodeError) -> (r: Self)
        ensures
            r == write_error::<E>(error),
    {
        match error {
            FrameEncodeError::InputBufferTooSmall => FramedWriteError::BufferTooShort,
            FrameEncodeError::Encode(inner) => FramedWriteError::Encode(inner),
            FrameEncodeError::MessageTooBig => FramedWriteError::MessageTooLarge,
        }
    }

    /// What the error says, in words.
    pub fn message(&self) -> (text: &'static str)
        ensures
            text@ == match self {
                FramedWriteError::Io(_) => "IO error"@,
                FramedWriteError::Encode(_) => "Encode error"@,
                FramedWriteError::BufferTooShort => "Buffer is too short"@,
                FramedWriteError::MessageTooLarge => "Message is too large"@,
            },
    {
        match self {
            FramedWriteError::Io(_) => "IO error",
            FramedWriteError::Encode(_) => "Encode error",
            FramedWriteError::BufferTooShort => "Buffer is too short",
            FramedWriteError::MessageTooLarge => "Message is too large",
        }
    }
}

} // verus!
