//! Decoder for recorded game sessions ("demos"): a binary container of
//! fixed little-endian records, varint-framed message streams and a nested
//! user-message sub-protocol, delivered to an observer as typed events.

use vstd::prelude::*;

pub mod catalog;
pub mod events;
pub mod format;
pub mod framing;
pub mod parser;
pub mod text;
pub mod varint;
pub mod wire;

pub use events::{parse_dem_file, Dispatcher, EventHandler, UserMessageDecoder, UserMessageEventHandler};
pub use parser::{parse_events, Event, Termination};
pub use varint::read_varuint;

verus! {

/// Why a parse stopped before the container's end.
#[derive(Debug, Clone, PartialEq, Eq)]
pub enum DemoError {
    /// The byte stream ended before a required read.
    Truncated,
    /// A varint still carried a continuation bit in its fifth byte.
    InvalidVarint,
    /// Bytes that should be text (or a boolean flag) are not.
    InvalidEncoding,
    /// A message body is not a well-formed wire message.
    MalformedMessage,
    /// A region's declared size does not exactly cover its contents.
    FrameMismatch,
    /// A message kind code that neither container catalog knows.
    UnknownMessageKind(u32),
    /// A container command that this decoder does not handle.
    UnsupportedCommand(u8),
    /// An observer returned an error; it is passed on unchanged.
    ObserverFailure(String),
}

} // verus!
