//! Protocol frames and their wire format.
//!
//! A frame is a type byte followed by fields that depend on the type:
//! variable-length integers, 16-bit error codes, and opaque byte strings
//! that are either of fixed size or preceded by their length. The wire
//! format is stated here twice as a function on byte sequences, once for
//! each direction: [`frame_bytes`] says what a frame looks like on the
//! wire, [`parse_frame`] which frame, if any, stands at a position of a
//! buffer.

use vstd::prelude::*;
use crate::varint::VARINT_MAX;
use crate::varint::be_bytes;
use crate::varint::be_value;
use crate::varint::parse_varint;
use crate::varint::varint_bytes;

verus! {

// The type byte of each frame. Stream frames take the eight types from
// `FRAME_TYPE_STREAM` to `FRAME_TYPE_STREAM_MAX`; the three low bits say
// which fields follow.
pub const FRAME_TYPE_PADDING: u8 = 0x00;
pub const FRAME_TYPE_PING: u8 = 0x01;
pub const FRAME_TYPE_ACK: u8 = 0x02;
pub const FRAME_TYPE_RESET_STREAM: u8 = 0x04;
pub const FRAME_TYPE_STOP_SENDING: u8 = 0x05;
pub const FRAME_TYPE_CRYPTO: u8 = 0x06;
pub const FRAME_TYPE_NEW_TOKEN: u8 = 0x07;
pub const FRAME_TYPE_STREAM: u8 = 0x08;
pub const FRAME_TYPE_STREAM_MAX: u8 = 0x0f;
pub const FRAME_TYPE_MAX_DATA: u8 = 0x10;
pub const FRAME_TYPE_MAX_STREAM_DATA: u8 = 0x11;
pub const FRAME_TYPE_MAX_STREAMS_BIDI: u8 = 0x12;
pub const FRAME_TYPE_MAX_STREAMS_UNIDI: u8 = 0x13;
pub const FRAME_TYPE_DATA_BLOCKED: u8 = 0x14;
pub const FRAME_TYPE_STREAM_DATA_BLOCKED: u8 = 0x15;
pub const FRAME_TYPE_STREAMS_BLOCKED_BIDI: u8 = 0x16;
pub const FRAME_TYPE_STREAMS_BLOCKED_UNIDI: u8 = 0x17;
pub const FRAME_TYPE_NEW_CONNECTION_ID: u8 = 0x18;
pub const FRAME_TYPE_RETIRE_CONNECTION_ID: u8 = 0x19;
pub const FRAME_TYPE_PATH_CHALLENGE: u8 = 0x1a;
pub const FRAME_TYPE_PATH_RESPONSE: u8 = 0x1b;
pub const FRAME_TYPE_CONNECTION_CLOSE_TRANSPORT: u8 = 0x1c;
pub const FRAME_TYPE_CONNECTION_CLOSE_APPLICATION: u8 = 0x1d;

/// Bit of a stream frame's type byte: the frame ends the stream.
pub const STREAM_BIT_FIN: u8 = 0x01;
/// Bit of a stream frame's type byte: a length field is present.
pub const STREAM_BIT_LEN: u8 = 0x02;
/// Bit of a stream frame's type byte: an offset field is present.
pub const STREAM_BIT_OFF: u8 = 0x04;

/// Whether a stream carries data in both directions or in one.
#[derive(Debug, Clone, Copy, PartialEq, Eq, Structural)]
pub enum StreamType {
    BiDi,
    UniDi,
}

/// Which layer closed the connection.
#[derive(Debug, Clone, Copy, PartialEq, Eq, Structural)]
pub enum CloseType {
    Transport,
    Application,
}

/// One additional range of an acknowledgement: the gap of unacknowledged
/// packets before it and the number of acknowledged packets in it.
#[derive(Debug, Clone, Copy, PartialEq, Eq, Structural)]
pub struct AckRange {
    pub gap: u64,
    pub range: u64,
}

/// A decoded protocol frame.
///
/// The fields of each variant stand on the wire in the order given with
/// the variant, behind the type byte. Integers are variable-length
/// integers unless a width is given.
#[allow(inconsistent_fields)]
#[derive(Debug, Clone, PartialEq, Eq)]
pub enum Frame {
    /// Type `0x00`, no fields. Fills a datagram.
    Padding,
    /// Type `0x01`, no fields. Asks for an acknowledgement.
    Ping,
    /// Type `0x02`: largest acknowledged, delay, number of further ranges,
    /// first range, then the gap and the length of each further range.
    Ack { largest_acknowledged: u64, ack_delay: u64, first_ack_range: u64, ack_ranges: Vec<AckRange> },
    /// Type `0x04`: stream id, error code (16 bits), final size.
    ResetStream { stream_id: u64, application_error_code: u16, final_size: u64 },
    /// Type `0x05`: stream id, error code (16 bits).
    StopSending { stream_id: u64, application_error_code: u16 },
    /// Type `0x06`: offset, length, data.
    Crypto { offset: u64, data: Vec<u8> },
    /// Type `0x07`: length, token.
    NewToken { token: Vec<u8> },
    /// Types `0x08` to `0x0f`: stream id, offset where bit `0x04` of the
    /// type is set (else the offset is zero), length where bit `0x02` is
    /// set (else the data runs to the end of the buffer), data. Bit `0x01`
    /// says that the data ends the stream.
    Stream { fin: bool, stream_id: u64, offset: u64, data: Vec<u8> },
    /// Type `0x10`: limit.
    MaxData { maximum_data: u64 },
    /// Type `0x11`: stream id, limit.
    MaxStreamData { stream_id: u64, maximum_stream_data: u64 },
    /// Type `0x12` for streams in both directions, `0x13` for streams in
    /// one: limit.
    MaxStreams { stream_type: StreamType, maximum_streams: u64 },
    /// Type `0x14`: limit.
    DataBlocked { data_limit: u64 },
    /// Type `0x15`: stream id, limit.
    StreamDataBlocked { stream_id: u64, stream_data_limit: u64 },
    /// Type `0x16` for streams in both directions, `0x17` for streams in
    /// one: limit.
    StreamsBlocked { stream_type: StreamType, stream_limit: u64 },
    /// Type `0x18`: length of the identifier (8 bits), sequence number,
    /// identifier, reset token (16 bytes).
    NewConnectionId { sequence_number: u64, connection_id: Vec<u8>, stateless_reset_token: [u8; 16] },
    /// Type `0x19`: sequence number.
    RetireConnectionId { sequence_number: u64 },
    /// Type `0x1a`: data (8 bytes).
    PathChallenge { data: [u8; 8] },
    /// Type `0x1b`: data (8 bytes).
    PathResponse { data: [u8; 8] },
    /// Type `0x1c` when the transport closes: error code (16 bits), type
    /// of the offending frame, length, reason. Type `0x1d` when the
    /// application closes: error code (16 bits), length, reason; the frame
    /// type is zero then.
    ConnectionClose { close_type: CloseType, error_code: u16, frame_type: u64, reason_phrase: Vec<u8> },
}

/// The mathematical value of a [`Frame`]: byte strings are sequences.
#[allow(inconsistent_fields)]
pub enum FrameView {
    Padding,
    Ping,
    Ack { largest_acknowledged: u64, ack_delay: u64, first_ack_range: u64, ack_ranges: Seq<AckRange> },
    ResetStream { stream_id: u64, application_error_code: u16, final_size: u64 },
    StopSending { stream_id: u64, application_error_code: u16 },
    Crypto { offset: u64, data: Seq<u8> },
    NewToken { token: Seq<u8> },
    Stream { fin: bool, stream_id: u64, offset: u64, data: Seq<u8> },
    MaxData { maximum_data: u64 },
    MaxStreamData { stream_id: u64, maximum_stream_data: u64 },
    MaxStreams { stream_type: StreamType, maximum_streams: u64 },
    DataBlocked { data_limit: u64 },
    StreamDataBlocked { stream_id: u64, stream_data_limit: u64 },
    StreamsBlocked { stream_type: StreamType, stream_limit: u64 },
    NewConnectionId { sequence_number: u64, connection_id: Seq<u8>, stateless_reset_token: Seq<u8> },
    RetireConnectionId { sequence_number: u64 },
    PathChallenge { data: Seq<u8> },
    PathResponse { data: Seq<u8> },
    ConnectionClose { close_type: CloseType, error_code: u16, frame_type: u64, reason_phrase: Seq<u8> },
}

impl View for Frame {
    type V = FrameView;

    open spec fn view(&self) -> FrameView {
        match *self {
            Frame::Padding => FrameView::Padding,
            Frame::Ping => FrameView::Ping,
            Frame::Ack { largest_acknowledged, ack_delay, first_ack_range, ack_ranges } => {
                FrameView::Ack {
                    largest_acknowledged,
                    ack_delay,
                    first_ack_range,
                    ack_ranges: ack_ranges@,
                }
            },
            Frame::ResetStream { stream_id, application_error_code, final_size } => {
                FrameView::ResetStream { stream_id, application_error_code, final_size }
            },
            Frame::StopSending { stream_id, application_error_code } => FrameView::StopSending {
                stream_id,
                application_error_code,
            },
            Frame::Crypto { offset, data } => FrameView::Crypto { offset, data: data@ },
            Frame::NewToken { token } => FrameView::NewToken { token: token@ },
            Frame::Stream { fin, stream_id, offset, data } => FrameView::Stream {
                fin,
                stream_id,
                offset,
                data: data@,
            },
            Frame::MaxData { maximum_data } => FrameView::MaxData { maximum_data },
            Frame::MaxStreamData { stream_id, maximum_stream_data } => FrameView::MaxStreamData {
                stream_id,
                maximum_stream_data,
            },
            Frame::MaxStreams { stream_type, maximum_streams } => FrameView::MaxStreams {
                stream_type,
                maximum_streams,
            },
            Frame::DataBlocked { data_limit } => FrameView::DataBlocked { data_limit },
            Frame::StreamDataBlocked { stream_id, stream_data_limit } => {
                FrameView::StreamDataBlocked { stream_id, stream_data_limit }
            },
            Frame::StreamsBlocked { stream_type, stream_limit } => FrameView::StreamsBlocked {
                stream_type,
                stream_limit,
            },
            Frame::NewConnectionId { sequence_number, connection_id, stateless_reset_token } => {
                FrameView::NewConnectionId {
                    sequence_number,
                    connection_id: connection_id@,
                    stateless_reset_token: stateless_reset_token@,
                }
            },
            Frame::RetireConnectionId { sequence_number } => FrameView::RetireConnectionId {
                sequence_number,
            },
            Frame::PathChallenge { data } => FrameView::PathChallenge { data: data@ },
            Frame::PathResponse { data } => FrameView::PathResponse { data: data@ },
            Frame::ConnectionClose { close_type, error_code, frame_type, reason_phrase } => {
                FrameView::ConnectionClose {
                    close_type,
                    error_code,
                    frame_type,
                    reason_phrase: reason_phrase@,
                }
            },
        }
    }
}

/// Every range of `ranges` fits the wire format.
pub open spec fn ack_ranges_fit(ranges: Seq<AckRange>) -> bool {
    forall|i: int|
        0 <= i < ranges.len() ==> (#[trigger] ranges[i]).gap <= VARINT_MAX && ranges[i].range
            <= VARINT_MAX
}

impl FrameView {
    /// Whether the frame can be written to the wire: integers and lengths
    /// fit a variable-length integer, fixed-size fields have their size,
    /// and a field that the wire format omits holds zero.
    pub open spec fn wf(self) -> bool {
        match self {
            FrameView::Padding => true,
            FrameView::Ping => true,
            FrameView::Ack { largest_acknowledged, ack_delay, first_ack_range, ack_ranges } => {
                &&& largest_acknowledged <= VARINT_MAX
                &&& ack_delay <= VARINT_MAX
                &&& first_ack_range <= VARINT_MAX
                &&& ack_ranges.len() <= VARINT_MAX
                &&& ack_ranges_fit(ack_ranges)
            },
            FrameView::ResetStream { stream_id, application_error_code, final_size } => {
                stream_id <= VARINT_MAX && final_size <= VARINT_MAX
            },
            FrameView::StopSending { stream_id, application_error_code } => stream_id
                <= VARINT_MAX,
            FrameView::Crypto { offset, data } => offset <= VARINT_MAX && data.len() <= VARINT_MAX,
            FrameView::NewToken { token } => token.len() <= VARINT_MAX,
            FrameView::Stream { fin, stream_id, offset, data } => {
                stream_id <= VARINT_MAX && offset <= VARINT_MAX && data.len() <= VARINT_MAX
            },
            FrameView::MaxData { maximum_data } => maximum_data <= VARINT_MAX,
            FrameView::MaxStreamData { stream_id, maximum_stream_data } => {
                stream_id <= VARINT_MAX && maximum_stream_data <= VARINT_MAX
            },
            FrameView::MaxStreams { stream_type, maximum_streams } => maximum_streams
                <= VARINT_MAX,
            FrameView::DataBlocked { data_limit } => data_limit <= VARINT_MAX,
            FrameView::StreamDataBlocked { stream_id, stream_data_limit } => {
                stream_id <= VARINT_MAX && stream_data_limit <= VARINT_MAX
            },
            FrameView::StreamsBlocked { stream_type, stream_limit } => stream_limit <= VARINT_MAX,
            FrameView::NewConnectionId { sequence_number, connection_id, stateless_reset_token } => {
                &&& sequence_number <= VARINT_MAX
                &&& connection_id.len() <= 255
                &&& stateless_reset_token.len() == 16
            },
            FrameView::RetireConnectionId { sequence_number } => sequence_number <= VARINT_MAX,
            FrameView::PathChallenge { data } => data.len() == 8,
            FrameView::PathResponse { data } => data.len() == 8,
            FrameView::ConnectionClose { close_type, error_code, frame_type, reason_phrase } => {
                &&& frame_type <= VARINT_MAX
                &&& reason_phrase.len() <= VARINT_MAX
                &&& close_type == CloseType::Application ==> frame_type == 0
            },
        }
    }
}

// ---------------------------------------------------------------------
// What a frame looks like on the wire
// ---------------------------------------------------------------------

/// A byte string preceded by its length as a variable-length integer.
pub open spec fn sized_bytes(data: Seq<u8>) -> Seq<u8> {
    varint_bytes(data.len() as u64) + data
}

/// The gap and length of each range, in order.
pub open spec fn ack_ranges_bytes(ranges: Seq<AckRange>) -> Seq<u8>
    decreases ranges.len(),
{
    if ranges.len() == 0 {
        Seq::empty()
    } else {
        ack_ranges_bytes(ranges.drop_last()) + varint_bytes(ranges.last().gap) + varint_bytes(
            ranges.last().range,
        )
    }
}

/// Type byte of a stream frame: the length field is always present, the
/// offset field only for a nonzero offset.
pub open spec fn stream_type_byte(fin: bool, offset: u64) -> u8 {
    (0x08 + 0x02 + if offset > 0 {
        0x04int
    } else {
        0
    } + if fin {
        0x01int
    } else {
        0
    }) as u8
}

/// The bytes that a frame occupies on the wire.
pub open spec fn frame_bytes(f: FrameView) -> Seq<u8>
    recommends
        f.wf(),
{
    match f {
        FrameView::Padding => seq![0x00u8],
        FrameView::Ping => seq![0x01u8],
        FrameView::Ack { largest_acknowledged, ack_delay, first_ack_range, ack_ranges } => {
            seq![0x02u8] + varint_bytes(largest_acknowledged) + varint_bytes(ack_delay)
                + varint_bytes(ack_ranges.len() as u64) + varint_bytes(first_ack_range)
                + ack_ranges_bytes(ack_ranges)
        },
        FrameView::ResetStream { stream_id, application_error_code, final_size } => {
            seq![0x04u8] + varint_bytes(stream_id) + be_bytes(application_error_code as nat, 2)
                + varint_bytes(final_size)
        },
        FrameView::StopSending { stream_id, application_error_code } => {
            seq![0x05u8] + varint_bytes(stream_id) + be_bytes(application_error_code as nat, 2)
        },
        FrameView::Crypto { offset, data } => seq![0x06u8] + varint_bytes(offset) + sized_bytes(
            data,
        ),
        FrameView::NewToken { token } => seq![0x07u8] + sized_bytes(token),
        FrameView::Stream { fin, stream_id, offset, data } => {
            seq![stream_type_byte(fin, offset)] + varint_bytes(stream_id) + (if offset > 0 {
                varint_bytes(offset)
            } else {
                Seq::empty()
            }) + sized_bytes(data)
        },
        FrameView::MaxData { maximum_data } => seq![0x10u8] + varint_bytes(maximum_data),
        FrameView::MaxStreamData { stream_id, maximum_stream_data } => {
            seq![0x11u8] + varint_bytes(stream_id) + varint_bytes(maximum_stream_data)
        },
        FrameView::MaxStreams { stream_type, maximum_streams } => {
            seq![if stream_type == StreamType::BiDi { 0x12u8 } else { 0x13u8 }] + varint_bytes(
                maximum_streams,
            )
        },
        FrameView::DataBlocked { data_limit } => seq![0x14u8] + varint_bytes(data_limit),
        FrameView::StreamDataBlocked { stream_id, stream_data_limit } => {
            seq![0x15u8] + varint_bytes(stream_id) + varint_bytes(stream_data_limit)
        },
        FrameView::StreamsBlocked { stream_type, stream_limit } => {
            seq![if stream_type == StreamType::BiDi { 0x16u8 } else { 0x17u8 }] + varint_bytes(
                stream_limit,
            )
        },
        FrameView::NewConnectionId { sequence_number, connection_id, stateless_reset_token } => {
            seq![0x18u8, connection_id.len() as u8] + varint_bytes(sequence_number)
                + connection_id + stateless_reset_token
        },
        FrameView::RetireConnectionId { sequence_number } => seq![0x19u8] + varint_bytes(
            sequence_number,
        ),
        FrameView::PathChallenge { data } => seq![0x1au8] + data,
        FrameView::PathResponse { data } => seq![0x1bu8] + data,
        FrameView::ConnectionClose { close_type, error_code, frame_type, reason_phrase } => {
            if close_type == CloseType::Transport {
                seq![0x1cu8] + be_bytes(error_code as nat, 2) + varint_bytes(frame_type)
                    + sized_bytes(reason_phrase)
            } else {
                seq![0x1du8] + be_bytes(error_code as nat, 2) + sized_bytes(reason_phrase)
            }
        },
    }
}

// ---------------------------------------------------------------------
// Which frame stands at a position
// ---------------------------------------------------------------------

/// The 16-bit big-endian number at `at`.
pub open spec fn parse_u16(s: Seq<u8>, at: int) -> Option<(u16, int)> {
    if 0 <= at && at + 2 <= s.len() {
        Some((be_value(s.subrange(at, at + 2)) as u16, at + 2))
    } else {
        None
    }
}

/// The `n` bytes at `at`.
pub open spec fn parse_block(s: Seq<u8>, at: int, n: int) -> Option<(Seq<u8>, int)> {
    if 0 <= at && 0 <= n && at + n <= s.len() {
        Some((s.subrange(at, at + n), at + n))
    } else {
        None
    }
}

/// A length as a variable-length integer at `at`, and as many bytes after it.
pub open spec fn parse_sized(s: Seq<u8>, at: int) -> Option<(Seq<u8>, int)> {
    match parse_varint(s, at) {
        Some((n, p)) => parse_block(s, p, n as int),
        None => None,
    }
}

/// The first `count` acknowledgement ranges at `at`.
pub open spec fn parse_ack_ranges(s: Seq<u8>, at: int, count: nat) -> Option<(Seq<AckRange>, int)>
    decreases count,
{
    if count == 0 {
        Some((Seq::empty(), at))
    } else {
        match parse_ack_ranges(s, at, (count - 1) as nat) {
            Some((ranges, p0)) => match parse_varint(s, p0) {
                Some((gap, p1)) => match parse_varint(s, p1) {
                    Some((range, p2)) => Some((ranges.push(AckRange { gap, range }), p2)),
                    None => None,
                },
                None => None,
            },
            None => None,
        }
    }
}

/// The fields of an acknowledgement frame at `at`.
pub open spec fn parse_ack(s: Seq<u8>, at: int) -> Option<(FrameView, int)> {
    match parse_varint(s, at) {
        Some((largest_acknowledged, p1)) => match parse_varint(s, p1) {
            Some((ack_delay, p2)) => match parse_varint(s, p2) {
                Some((count, p3)) => match parse_varint(s, p3) {
                    Some((first_ack_range, p4)) => match parse_ack_ranges(s, p4, count as nat) {
                        Some((ack_ranges, p5)) => Some(
                            (
                                FrameView::Ack {
                                    largest_acknowledged,
                                    ack_delay,
                                    first_ack_range,
                                    ack_ranges,
                                },
                                p5,
                            ),
                        ),
                        None => None,
                    },
                    None => None,
                },
                None => None,
            },
            None => None,
        },
        None => None,
    }
}

/// The fields of a frame that resets a stream at `at`.
pub open spec fn parse_reset_stream(s: Seq<u8>, at: int) -> Option<(FrameView, int)> {
    match parse_varint(s, at) {
        Some((stream_id, p1)) => match parse_u16(s, p1) {
            Some((application_error_code, p2)) => match parse_varint(s, p2) {
                Some((final_size, p3)) => Some(
                    (FrameView::ResetStream { stream_id, application_error_code, final_size }, p3),
                ),
                None => None,
            },
            None => None,
        },
        None => None,
    }
}

/// The fields of a frame that stops sending at `at`.
pub open spec fn parse_stop_sending(s: Seq<u8>, at: int) -> Option<(FrameView, int)> {
    match parse_varint(s, at) {
        Some((stream_id, p1)) => match parse_u16(s, p1) {
            Some((application_error_code, p2)) => Some(
                (FrameView::StopSending { stream_id, application_error_code }, p2),
            ),
            None => None,
        },
        None => None,
    }
}

/// The fields of a handshake frame at `at`.
pub open spec fn parse_crypto(s: Seq<u8>, at: int) -> Option<(FrameView, int)> {
    match parse_varint(s, at) {
        Some((offset, p1)) => match parse_sized(s, p1) {
            Some((data, p2)) => Some((FrameView::Crypto { offset, data }, p2)),
            None => None,
        },
        None => None,
    }
}

/// The field of a token frame at `at`.
pub open spec fn parse_new_token(s: Seq<u8>, at: int) -> Option<(FrameView, int)> {
    match parse_sized(s, at) {
        Some((token, p1)) => Some((FrameView::NewToken { token }, p1)),
        None => None,
    }
}

/// A stream frame whose type byte is `t`. Without an offset field the
/// offset is zero; without a length field the data runs to the end of `s`.
pub open spec fn parse_stream(s: Seq<u8>, at: int, t: u8) -> Option<(FrameView, int)> {
    let fin = t % 2 == 1;
    let has_len = (t / 2) % 2 == 1;
    let has_off = (t / 4) % 2 == 1;
    match parse_varint(s, at) {
        Some((stream_id, p1)) => {
            let off = if has_off {
                parse_varint(s, p1)
            } else {
                Some((0u64, p1))
            };
            match off {
                Some((offset, p2)) => {
                    let body = if has_len {
                        parse_sized(s, p2)
                    } else {
                        parse_block(s, p2, s.len() - p2)
                    };
                    match body {
                        Some((data, p3)) => Some(
                            (FrameView::Stream { fin, stream_id, offset, data }, p3),
                        ),
                        None => None,
                    }
                },
                None => None,
            }
        },
        None => None,
    }
}

/// The two variable-length integers at `at`.
pub open spec fn parse_two(s: Seq<u8>, at: int) -> Option<((u64, u64), int)> {
    match parse_varint(s, at) {
        Some((a, p1)) => match parse_varint(s, p1) {
            Some((b, p2)) => Some(((a, b), p2)),
            None => None,
        },
        None => None,
    }
}

/// The fields of a frame that issues a connection identifier at `at`.
pub open spec fn parse_new_connection_id(s: Seq<u8>, at: int) -> Option<(FrameView, int)> {
    if 0 <= at < s.len() {
        let len = s[at] as int;
        match parse_varint(s, at + 1) {
            Some((sequence_number, p1)) => match parse_block(s, p1, len) {
                Some((connection_id, p2)) => match parse_block(s, p2, 16) {
                    Some((stateless_reset_token, p3)) => Some(
                        (
                            FrameView::NewConnectionId {
                                sequence_number,
                                connection_id,
                                stateless_reset_token,
                            },
                            p3,
                        ),
                    ),
                    None => None,
                },
                None => None,
            },
            None => None,
        }
    } else {
        None
    }
}

/// The fields of a closing frame at `at`; the application's has no frame type.
pub open spec fn parse_connection_close(s: Seq<u8>, at: int, close_type: CloseType) -> Option<
    (FrameView, int),
> {
    match parse_u16(s, at) {
        Some((error_code, p1)) => {
            let ft = if close_type == CloseType::Transport {
                parse_varint(s, p1)
            } else {
                Some((0u64, p1))
            };
            match ft {
                Some((frame_type, p2)) => match parse_sized(s, p2) {
                    Some((reason_phrase, p3)) => Some(
                        (
                            FrameView::ConnectionClose {
                                close_type,
                                error_code,
                                frame_type,
                                reason_phrase,
                            },
                            p3,
                        ),
                    ),
                    None => None,
                },
                None => None,
            }
        },
        None => None,
    }
}

/// The frame that starts at `at`, with the position after it; `None` where
/// the type byte is not one of a known frame or a field runs past the end
/// of `s`.
pub open spec fn parse_frame(s: Seq<u8>, at: int) -> Option<(FrameView, int)> {
    if 0 <= at < s.len() {
        let t = s[at];
        let p = at + 1;
        if t == 0x00 {
            Some((FrameView::Padding, p))
        } else if t == 0x01 {
            Some((FrameView::Ping, p))
        } else if t == 0x02 {
            parse_ack(s, p)
        } else if t == 0x04 {
            parse_reset_stream(s, p)
        } else if t == 0x05 {
            parse_stop_sending(s, p)
        } else if t == 0x06 {
            parse_crypto(s, p)
        } else if t == 0x07 {
            parse_new_token(s, p)
        } else if 0x08 <= t <= 0x0f {
            parse_stream(s, p, t)
        } else if t == 0x10 {
            match parse_varint(s, p) {
                Some((maximum_data, n)) => Some((FrameView::MaxData { maximum_data }, n)),
                None => None,
            }
        } else if t == 0x11 {
            match parse_two(s, p) {
                Some(((stream_id, maximum_stream_data), n)) => Some(
                    (FrameView::MaxStreamData { stream_id, maximum_stream_data }, n),
                ),
                None => None,
            }
        } else if t == 0x12 || t == 0x13 {
            let stream_type = if t == 0x12 {
                StreamType::BiDi
            } else {
                StreamType::UniDi
            };
            match parse_varint(s, p) {
                Some((maximum_streams, n)) => Some(
                    (FrameView::MaxStreams { stream_type, maximum_streams }, n),
                ),
                None => None,
            }
        } else if t == 0x14 {
            match parse_varint(s, p) {
                Some((data_limit, n)) => Some((FrameView::DataBlocked { data_limit }, n)),
                None => None,
            }
        } else if t == 0x15 {
            match parse_two(s, p) {
                Some(((stream_id, stream_data_limit), n)) => Some(
                    (FrameView::StreamDataBlocked { stream_id, stream_data_limit }, n),
                ),
                None => None,
            }
        } else if t == 0x16 || t == 0x17 {
            let stream_type = if t == 0x16 {
                StreamType::BiDi
            } else {
                StreamType::UniDi
            };
            match parse_varint(s, p) {
                Some((stream_limit, n)) => Some(
                    (FrameView::StreamsBlocked { stream_type, stream_limit }, n),
                ),
                None => None,
            }
        } else if t == 0x18 {
            parse_new_connection_id(s, p)
        } else if t == 0x19 {
            match parse_varint(s, p) {
                Some((sequence_number, n)) => Some(
                    (FrameView::RetireConnectionId { sequence_number }, n),
                ),
                None => None,
            }
        } else if t == 0x1a {
            match parse_block(s, p, 8) {
                Some((data, n)) => Some((FrameView::PathChallenge { data }, n)),
                None => None,
            }
        } else if t == 0x1b {
            match parse_block(s, p, 8) {
                Some((data, n)) => Some((FrameView::PathResponse { data }, n)),
                None => None,
            }
        } else if t == 0x1c {
            parse_connection_close(s, p, CloseType::Transport)
        } else if t == 0x1d {
            parse_connection_close(s, p, CloseType::Application)
        } else {
            None
        }
    } else {
        None
    }
}

/// The frames that can be decoded one after the other from `at` on, up to
/// the end of the buffer or the first position at which no frame stands.
pub open spec fn parse_frames(s: Seq<u8>, at: int) -> Seq<FrameView>
    decreases s.len() - at,
{
    match parse_frame(s, at) {
        Some((f, n)) => if at < n <= s.len() {
            seq![f] + parse_frames(s, n)
        } else {
            Seq::empty()
        },
        None => Seq::empty(),
    }
}

/// The wire format of the frames, one after the other.
pub open spec fn frames_bytes(frames: Seq<FrameView>) -> Seq<u8>
    decreases frames.len(),
{
    if frames.len() == 0 {
        Seq::empty()
    } else {
        frames_bytes(frames.drop_last()) + frame_bytes(frames.last())
    }
}

/// Every frame can be written to the wire.
pub open spec fn frames_wf(frames: Seq<FrameView>) -> bool {
    forall|i: int| 0 <= i < frames.len() ==> (#[trigger] frames[i]).wf()
}

// ---------------------------------------------------------------------
// What can be asked of a frame
// ---------------------------------------------------------------------

/// Whether every range fits the wire format.
fn ack_ranges_well_formed(ranges: &Vec<AckRange>) -> (b: bool)
    ensures
        b == ack_ranges_fit(ranges@),
{
    let mut i: usize = 0;
    while i < ranges.len()
        invariant
            i <= ranges@.len(),
            forall|j: int|
                0 <= j < i ==> (#[trigger] ranges@[j]).gap <= VARINT_MAX && ranges@[j].range
                    <= VARINT_MAX,
        decreases ranges@.len() - i,
    {
        let r: AckRange = ranges[i];
        if r.gap > VARINT_MAX || r.range > VARINT_MAX {
            return false;
        }
        i += 1;
    }
    true
}

impl Frame {
    /// The type byte with which the frame starts on the wire.
    pub fn frame_type(&self) -> (t: u8)
        ensures
            t == frame_bytes(self@)[0],
    {
        match self {
            Frame::Padding => FRAME_TYPE_PADDING,
            Frame::Ping => FRAME_TYPE_PING,
            Frame::Ack { .. } => FRAME_TYPE_ACK,
            Frame::ResetStream { .. } => FRAME_TYPE_RESET_STREAM,
            Frame::StopSending { .. } => FRAME_TYPE_STOP_SENDING,
            Frame::Crypto { .. } => FRAME_TYPE_CRYPTO,
            Frame::NewToken { .. } => FRAME_TYPE_NEW_TOKEN,
            Frame::Stream { fin, stream_id, offset, data } => {
                let mut t: u8 = FRAME_TYPE_STREAM + STREAM_BIT_LEN;
                if *offset > 0 {
                    t = t + STREAM_BIT_OFF;
                }
                if *fin {
                    t = t + STREAM_BIT_FIN;
                }
                t
            },
            Frame::MaxData { .. } => FRAME_TYPE_MAX_DATA,
            Frame::MaxStreamData { .. } => FRAME_TYPE_MAX_STREAM_DATA,
            Frame::MaxStreams { stream_type, maximum_streams } => match stream_type {
                StreamType::BiDi => FRAME_TYPE_MAX_STREAMS_BIDI,
                StreamType::UniDi => FRAME_TYPE_MAX_STREAMS_UNIDI,
            },
            Frame::DataBlocked { .. } => FRAME_TYPE_DATA_BLOCKED,
            Frame::StreamDataBlocked { .. } => FRAME_TYPE_STREAM_DATA_BLOCKED,
            Frame::StreamsBlocked { stream_type, stream_limit } => match stream_type {
                StreamType::BiDi => FRAME_TYPE_STREAMS_BLOCKED_BIDI,
                StreamType::UniDi => FRAME_TYPE_STREAMS_BLOCKED_UNIDI,
            },
            Frame::NewConnectionId { .. } => FRAME_TYPE_NEW_CONNECTION_ID,
            Frame::RetireConnectionId { .. } => FRAME_TYPE_RETIRE_CONNECTION_ID,
            Frame::PathChallenge { .. } => FRAME_TYPE_PATH_CHALLENGE,
            Frame::PathResponse { .. } => FRAME_TYPE_PATH_RESPONSE,
            Frame::ConnectionClose { close_type, error_code, frame_type, reason_phrase } => {
                match close_type {
                    CloseType::Transport => FRAME_TYPE_CONNECTION_CLOSE_TRANSPORT,
                    CloseType::Application => FRAME_TYPE_CONNECTION_CLOSE_APPLICATION,
                }
            },
        }
    }

    /// Whether the frame can be written to the wire (see [`FrameView::wf`]).
    pub fn well_formed(&self) -> (b: bool)
        ensures
            b == self@.wf(),
    {
        match self {
            Frame::Padding => true,
            Frame::Ping => true,
            Frame::Ack { largest_acknowledged, ack_delay, first_ack_range, ack_ranges } => {
                *largest_acknowledged <= VARINT_MAX && *ack_delay <= VARINT_MAX
                    && *first_ack_range <= VARINT_MAX && ack_ranges.len() as u64 <= VARINT_MAX
                    && ack_ranges_well_formed(ack_ranges)
            },
            Frame::ResetStream { stream_id, application_error_code, final_size } => {
                *stream_id <= VARINT_MAX && *final_size <= VARINT_MAX
            },
            Frame::StopSending { stream_id, application_error_code } => *stream_id <= VARINT_MAX,
            Frame::Crypto { offset, data } => *offset <= VARINT_MAX && data.len() as u64
                <= VARINT_MAX,
            Frame::NewToken { token } => token.len() as u64 <= VARINT_MAX,
            Frame::Stream { fin, stream_id, offset, data } => {
                *stream_id <= VARINT_MAX && *offset <= VARINT_MAX && data.len() as u64
                    <= VARINT_MAX
            },
            Frame::MaxData { maximum_data } => *maximum_data <= VARINT_MAX,
            Frame::MaxStreamData { stream_id, maximum_stream_data } => {
                *stream_id <= VARINT_MAX && *maximum_stream_data <= VARINT_MAX
            },
            Frame::MaxStreams { stream_type, maximum_streams } => *maximum_streams <= VARINT_MAX,
            Frame::DataBlocked { data_limit } => *data_limit <= VARINT_MAX,
            Frame::StreamDataBlocked { stream_id, stream_data_limit } => {
                *stream_id <= VARINT_MAX && *stream_data_limit <= VARINT_MAX
            },
            Frame::StreamsBlocked { stream_type, stream_limit } => *stream_limit <= VARINT_MAX,
            Frame::NewConnectionId { sequence_number, connection_id, stateless_reset_token } => {
                *sequence_number <= VARINT_MAX && connection_id.len() <= 255
            },
            Frame::RetireConnectionId { sequence_number } => *sequence_number <= VARINT_MAX,
            Frame::PathChallenge { data } => true,
            Frame::PathResponse { data } => true,
            Frame::ConnectionClose { close_type, error_code, frame_type, reason_phrase } => {
                *frame_type <= VARINT_MAX && reason_phrase.len() as u64 <= VARINT_MAX && (match close_type {
                    CloseType::Transport => true,
                    CloseType::Application => *frame_type == 0,
                })
            },
        }
    }
}

} // verus!
