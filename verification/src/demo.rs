//! A small message type for demonstrations.

use vstd::prelude::*;

verus! {

/// The messages of the demonstration protocol.
#[derive(Debug, Clone, PartialEq)]
pub enum DemoMessage {
    /// A request to answer, with its number.
    Ping(u32),
    /// The answer to the request of that number.
    Pong(u32),
    /// A reading.
    Measurement(i64),
}

} // verus!
