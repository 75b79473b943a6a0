//! Error kinds reported by the transport core.

use vstd::prelude::*;

verus! {

/// Everything that can go wrong inside the transport core.
///
/// Malformed input never terminates a connection by itself; the protocol
/// violations do, and each of them maps to the code carried by the closing
/// frame (see [`Error::code`]).
#[derive(Debug, Clone, Copy, PartialEq, Eq, Structural)]
pub enum Error {
    /// A frame could not be decoded: unknown type byte, or a field that
    /// runs past the end of the buffer.
    MalformedFrame,
    /// Stream data that contradicts bytes already buffered at the same offset.
    StreamDataConflict,
    /// A final size that contradicts an earlier one, or data beyond it.
    FinalSizeViolation,
    /// More data than the flow-control limit allows.
    FlowControlViolation,
    /// A connection-id sequence number reused with different contents.
    DuplicateSequence,
    /// More simultaneously active peer connection ids than the table admits.
    ConnectionIdLimit,
    /// A stream id that does not name a stream usable for the operation.
    InvalidStreamId,
    /// The addressed side of the stream is closed.
    StreamClosed,
    /// The connection is closed.
    ConnectionClosed,
}

/// Shorthand for results of the transport core.
pub type Res<T> = Result<T, Error>;

impl Error {
    /// The code that announces the error to the peer in a closing frame:
    /// `0x3` for flow control, `0x5` for the state of a stream, `0x6` for
    /// the final size, `0x7` for the encoding of a frame, `0x9` for the
    /// limit of connection ids, `0xa` for any other violation of the
    /// protocol, and `0x0` where there is nothing to announce.
    pub open spec fn spec_code(self) -> u16 {
        match self {
            Error::FlowControlViolation => 0x3,
            Error::InvalidStreamId => 0x5,
            Error::StreamClosed => 0x5,
            Error::FinalSizeViolation => 0x6,
            Error::MalformedFrame => 0x7,
            Error::ConnectionIdLimit => 0x9,
            Error::StreamDataConflict => 0xa,
            Error::DuplicateSequence => 0xa,
            Error::ConnectionClosed => 0x0,
        }
    }

    /// The code that announces the error to the peer in a closing frame.
    #[verifier::when_used_as_spec(spec_code)]
    pub fn code(self) -> (c: u16)
        ensures
            c == self.spec_code(),
    {
        match self {
            Error::FlowControlViolation => 0x3,
            Error::InvalidStreamId => 0x5,
            Error::StreamClosed => 0x5,
            Error::FinalSizeViolation => 0x6,
            Error::MalformedFrame => 0x7,
            Error::ConnectionIdLimit => 0x9,
            Error::StreamDataConflict => 0xa,
            Error::DuplicateSequence => 0xa,
            Error::ConnectionClosed => 0x0,
        }
    }

    /// Whether the error is a protocol violation, which closes the connection.
    pub open spec fn spec_is_protocol_violation(self) -> bool {
        match self {
            Error::FlowControlViolation
            | Error::FinalSizeViolation
            | Error::StreamDataConflict
            | Error::InvalidStreamId
            | Error::DuplicateSequence
            | Error::ConnectionIdLimit => true,
            _ => false,
        }
    }

    /// Whether the error is a protocol violation, which closes the connection.
    #[verifier::when_used_as_spec(spec_is_protocol_violation)]
    pub fn is_protocol_violation(self) -> (b: bool)
        ensures
            b == self.spec_is_protocol_violation(),
    {
        match self {
            Error::FlowControlViolation
            | Error::FinalSizeViolation
            | Error::StreamDataConflict
            | Error::InvalidStreamId
            | Error::DuplicateSequence
            | Error::ConnectionIdLimit => true,
            _ => false,
        }
    }
}

} // verus!
