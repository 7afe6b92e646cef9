//! Reading frames: the reader that owns a fixed buffer, and its errors.

pub mod error;
pub mod framed_read;

pub use error::FramedReadError;
pub use framed_read::{FramedRead, Pull};
