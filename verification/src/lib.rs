//! Length-delimited message framing over caller-supplied, fixed-size buffers.
//!
//! A frame is a four-byte big-endian length, which counts the whole frame,
//! followed by a payload. The codec turns one message into one frame and back;
//! the reader and the writer do so on a buffer of their own, and leave the
//! transport to a driver: they say what to read or write, the driver does it
//! and reports back.

pub mod codec;
pub mod decode;
pub mod demo;
pub mod embedded_io;
pub mod encode;
pub mod futures_io;
pub mod payload;
pub mod stream;
pub mod wire;

pub use codec::Codec;
pub use decode::{FramedRead, FramedReadError};
pub use encode::{FramedWrite, FramedWriteError};
