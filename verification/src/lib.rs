//! WebSocket frame codec: decodes client frames from raw bytes (header and
//! length parsing, payload unmasking, fragmentation reassembly, close-code
//! validation), encodes server responses, and answers the opening handshake.

use vstd::prelude::*;

pub mod cursor;
pub mod frame;
pub mod laws;
pub mod request;
pub mod wire;

pub use frame::Frame;
pub use frame::FragmentedMessage;
pub use frame::StatusCode;
pub use frame::VecExt;
pub use request::Request;

verus! {

/// Transport-level input failure: the buffer ran out of bytes at one of the
/// four stages of reading a frame, or a handshake request was not UTF-8.
/// These are recoverable ("need more bytes" / "abort handshake"), as opposed
/// to protocol violations, which decode to a `Frame::Close` value.
#[derive(Debug, Clone, Copy, PartialEq, Eq, Structural)]
pub enum IOFailure {
    /// Fewer than 2 bytes remained for the fixed frame header.
    TruncatedHeader,
    /// The extended (16- or 64-bit) payload length was cut short.
    TruncatedLength,
    /// Fewer than 4 bytes remained for the mask key.
    TruncatedMask,
    /// Fewer bytes remained than the declared payload length.
    TruncatedPayload,
    /// A handshake request was not valid UTF-8.
    InvalidUtf8,
}

} // verus!
