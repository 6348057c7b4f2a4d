//! A verified binary codec for the frames of a QUIC-like transport
//! protocol: decoding attacker-controlled wire bytes into typed frame
//! values, encoding frame values back to bytes, and computing the exact
//! wire length of a frame without encoding it. The bounds-checked byte
//! cursor the codec reads from and writes to is the `octets` crate,
//! consumed through a small trusted interface.

use vstd::prelude::*;

mod cursor;
pub mod frame;
pub mod laws;
pub mod varint;
pub mod wire;

verus! {

/// A structural decoding or encoding failure. Both kinds are fatal for
/// the enclosing packet: after either, frame boundaries in the buffer
/// can no longer be trusted.
#[derive(Clone, Copy, Debug, PartialEq, Eq)]
pub enum Error {
    /// The leading type discriminant matches no known frame variant.
    UnknownFrame,
    /// A field needed more bytes than the buffer has remaining.
    BufferTooShort,
}

} // verus!
