//! A buffered, incremental frame transport for a line protocol.
//!
//! Bytes arrive from a stream in chunks that do not line up with message
//! boundaries. A [`connection::Connection`] gathers them in a sliding window,
//! asks the protocol codec whether the window starts with a whole frame, hands
//! that frame out and keeps the bytes behind it for the next one. The write
//! side turns one frame into the bytes that go on the wire.

pub mod decimal;
pub mod unit;
pub mod writer;
pub mod buffer;
pub mod codec;
pub mod guard;
pub mod connection;
pub mod laws;
