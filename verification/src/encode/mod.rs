//! Writing frames: the writer that owns a fixed buffer, and its errors.

pub mod error;
pub mod framed_write;

pub use error::FramedWriteError;
pub use framed_write::FramedWrite;
