//! The executable frame codec.
//!
//! Decoding reads a frame from a buffer and never looks beyond it;
//! encoding appends a frame to a buffer. Both are verified against the
//! wire format that [`crate::frame`] states.

use vstd::prelude::*;
use vstd::slice::slice_subrange;
use vstd::slice::slice_to_vec;
use crate::codec_laws::lemma_parse_ack_ranges_none;
use crate::codec_laws::lemma_parse_frame_wf;
use crate::error::Error;
use crate::error::Res;
use crate::frame::AckRange;
use crate::frame::CloseType;
use crate::frame::FRAME_TYPE_ACK;
use crate::frame::FRAME_TYPE_CONNECTION_CLOSE_APPLICATION;
use crate::frame::FRAME_TYPE_CONNECTION_CLOSE_TRANSPORT;
use crate::frame::FRAME_TYPE_CRYPTO;
use crate::frame::FRAME_TYPE_DATA_BLOCKED;
use crate::frame::FRAME_TYPE_MAX_DATA;
use crate::frame::FRAME_TYPE_MAX_STREAMS_BIDI;
use crate::frame::FRAME_TYPE_MAX_STREAMS_UNIDI;
use crate::frame::FRAME_TYPE_MAX_STREAM_DATA;
use crate::frame::FRAME_TYPE_NEW_CONNECTION_ID;
use crate::frame::FRAME_TYPE_NEW_TOKEN;
use crate::frame::FRAME_TYPE_PADDING;
use crate::frame::FRAME_TYPE_PATH_CHALLENGE;
use crate::frame::FRAME_TYPE_PATH_RESPONSE;
use crate::frame::FRAME_TYPE_PING;
use crate::frame::FRAME_TYPE_RESET_STREAM;
use crate::frame::FRAME_TYPE_RETIRE_CONNECTION_ID;
use crate::frame::FRAME_TYPE_STOP_SENDING;
use crate::frame::FRAME_TYPE_STREAM;
use crate::frame::FRAME_TYPE_STREAMS_BLOCKED_BIDI;
use crate::frame::FRAME_TYPE_STREAMS_BLOCKED_UNIDI;
use crate::frame::FRAME_TYPE_STREAM_DATA_BLOCKED;
use crate::frame::FRAME_TYPE_STREAM_MAX;
use crate::frame::Frame;
use crate::frame::FrameView;
use crate::frame::STREAM_BIT_FIN;
use crate::frame::STREAM_BIT_LEN;
use crate::frame::STREAM_BIT_OFF;
use crate::frame::StreamType;
use crate::frame::ack_ranges_bytes;
use crate::frame::ack_ranges_fit;
use crate::frame::frame_bytes;
use crate::frame::parse_ack;
use crate::frame::parse_ack_ranges;
use crate::frame::parse_block;
use crate::frame::parse_connection_close;
use crate::frame::parse_crypto;
use crate::frame::parse_frame;
use crate::frame::parse_frames;
use crate::frame::parse_new_connection_id;
use crate::frame::parse_new_token;
use crate::frame::parse_reset_stream;
use crate::frame::parse_sized;
use crate::frame::parse_stop_sending;
use crate::frame::parse_stream;
use crate::frame::parse_two;
use crate::frame::parse_u16;
use crate::frame::sized_bytes;
use crate::varint::VARINT_MAX;
use crate::varint::decode_varint;
use crate::varint::encode_varint;
use crate::varint::lemma_be_value_bound;
use crate::varint::lemma_parse_varint_bounds;
use crate::varint::lemma_pow256_values;
use crate::varint::read_uint;
use crate::varint::write_uint;

verus! {

// ---------------------------------------------------------------------
// Decoding
// ---------------------------------------------------------------------

/// Whether the outcome `r` of decoding is what the wire format `m` says.
pub open spec fn frame_decoded(r: Option<(Frame, usize)>, m: Option<(FrameView, int)>) -> bool {
    match r {
        Some((f, n)) => m == Some((f@, n as int)),
        None => m is None,
    }
}

/// Reads the 16-bit number at `at`.
fn decode_u16(buf: &[u8], at: usize) -> (r: Option<(u16, usize)>)
    ensures
        match r {
            Some((v, next)) => parse_u16(buf@, at as int) == Some((v, next as int)),
            None => parse_u16(buf@, at as int) is None,
        },
{
    if at > buf.len() || buf.len() - at < 2 {
        return None;
    }
    let v: u64 = read_uint(buf, at, 2);
    proof {
        lemma_pow256_values();
        lemma_be_value_bound(buf@.subrange(at as int, at + 2));
    }
    Some((v as u16, at + 2))
}

/// Copies the `n` bytes at `at`.
fn decode_block(buf: &[u8], at: usize, n: usize) -> (r: Option<(Vec<u8>, usize)>)
    ensures
        match r {
            Some((v, next)) => parse_block(buf@, at as int, n as int) == Some((v@, next as int)),
            None => parse_block(buf@, at as int, n as int) is None,
        },
{
    if at > buf.len() || buf.len() - at < n {
        return None;
    }
    let v = slice_to_vec(slice_subrange(buf, at, at + n));
    Some((v, at + n))
}

/// Copies the eight bytes at `at`.
fn decode_array8(buf: &[u8], at: usize) -> (r: Option<([u8; 8], usize)>)
    ensures
        match r {
            Some((v, next)) => parse_block(buf@, at as int, 8) == Some((v@, next as int)),
            None => parse_block(buf@, at as int, 8) is None,
        },
{
    if at > buf.len() || buf.len() - at < 8 {
        return None;
    }
    let v: [u8; 8] = [
        buf[at],
        buf[at + 1],
        buf[at + 2],
        buf[at + 3],
        buf[at + 4],
        buf[at + 5],
        buf[at + 6],
        buf[at + 7],
    ];
    Some((v, at + 8))
}

/// Copies the sixteen bytes at `at`.
fn decode_array16(buf: &[u8], at: usize) -> (r: Option<([u8; 16], usize)>)
    ensures
        match r {
            Some((v, next)) => parse_block(buf@, at as int, 16) == Some((v@, next as int)),
            None => parse_block(buf@, at as int, 16) is None,
        },
{
    if at > buf.len() || buf.len() - at < 16 {
        return None;
    }
    let v: [u8; 16] = [
        buf[at],
        buf[at + 1],
        buf[at + 2],
        buf[at + 3],
        buf[at + 4],
        buf[at + 5],
        buf[at + 6],
        buf[at + 7],
        buf[at + 8],
        buf[at + 9],
        buf[at + 10],
        buf[at + 11],
        buf[at + 12],
        buf[at + 13],
        buf[at + 14],
        buf[at + 15],
    ];
    Some((v, at + 16))
}

/// Reads a length at `at` and copies as many bytes behind it.
fn decode_sized(buf: &[u8], at: usize) -> (r: Option<(Vec<u8>, usize)>)
    ensures
        match r {
            Some((v, next)) => parse_sized(buf@, at as int) == Some((v@, next as int)),
            None => parse_sized(buf@, at as int) is None,
        },
{
    match decode_varint(buf, at) {
        Some((n, p)) => {
            proof {
                lemma_parse_varint_bounds(buf@, at as int);
            }
            if n > (buf.len() - p) as u64 {
                None
            } else {
                decode_block(buf, p, n as usize)
            }
        },
        None => None,
    }
}

/// Reads `count` acknowledgement ranges at `at`. The count is what the
/// frame says; the loop ends as soon as the buffer does.
fn decode_ack_ranges(buf: &[u8], at: usize, count: u64) -> (r: Option<(Vec<AckRange>, usize)>)
    requires
        at <= buf@.len(),
    ensures
        match r {
            Some((v, next)) => parse_ack_ranges(buf@, at as int, count as nat) == Some(
                (v@, next as int),
            ),
            None => parse_ack_ranges(buf@, at as int, count as nat) is None,
        },
{
    let mut ranges: Vec<AckRange> = Vec::new();
    let mut pos: usize = at;
    let mut i: u64 = 0;
    while i < count
        invariant
            i <= count,
            pos <= buf@.len(),
            parse_ack_ranges(buf@, at as int, i as nat) == Some((ranges@, pos as int)),
        decreases count - i,
    {
        let (gap, p1) = match decode_varint(buf, pos) {
            Some(x) => x,
            None => {
                proof {
                    lemma_parse_ack_ranges_none(buf@, at as int, (i + 1) as nat, count as nat);
                }
                return None;
            },
        };
        let (range, p2) = match decode_varint(buf, p1) {
            Some(x) => x,
            None => {
                proof {
                    lemma_parse_ack_ranges_none(buf@, at as int, (i + 1) as nat, count as nat);
                }
                return None;
            },
        };
        proof {
            lemma_parse_varint_bounds(buf@, p1 as int);
        }
        ranges.push(AckRange { gap, range });
        pos = p2;
        i += 1;
    }
    Some((ranges, pos))
}

/// Reads the fields of an acknowledgement frame at `at`.
fn decode_ack(buf: &[u8], at: usize) -> (r: Option<(Frame, usize)>)
    ensures
        frame_decoded(r, parse_ack(buf@, at as int)),
{
    let (largest_acknowledged, p1) = match decode_varint(buf, at) {
        Some(x) => x,
        None => { return None; },
    };
    let (ack_delay, p2) = match decode_varint(buf, p1) {
        Some(x) => x,
        None => { return None; },
    };
    let (count, p3) = match decode_varint(buf, p2) {
        Some(x) => x,
        None => { return None; },
    };
    let (first_ack_range, p4) = match decode_varint(buf, p3) {
        Some(x) => x,
        None => { return None; },
    };
    proof {
        lemma_parse_varint_bounds(buf@, p3 as int);
    }
    let (ack_ranges, p5) = match decode_ack_ranges(buf, p4, count) {
        Some(x) => x,
        None => { return None; },
    };
    Some((Frame::Ack { largest_acknowledged, ack_delay, first_ack_range, ack_ranges }, p5))
}

/// Reads the fields of a frame that resets a stream at `at`.
fn decode_reset_stream(buf: &[u8], at: usize) -> (r: Option<(Frame, usize)>)
    ensures
        frame_decoded(r, parse_reset_stream(buf@, at as int)),
{
    let (stream_id, p1) = match decode_varint(buf, at) {
        Some(x) => x,
        None => { return None; },
    };
    let (application_error_code, p2) = match decode_u16(buf, p1) {
        Some(x) => x,
        None => { return None; },
    };
    let (final_size, p3) = match decode_varint(buf, p2) {
        Some(x) => x,
        None => { return None; },
    };
    Some((Frame::ResetStream { stream_id, application_error_code, final_size }, p3))
}

/// Reads the fields of a frame that stops sending at `at`.
fn decode_stop_sending(buf: &[u8], at: usize) -> (r: Option<(Frame, usize)>)
    ensures
        frame_decoded(r, parse_stop_sending(buf@, at as int)),
{
    let (stream_id, p1) = match decode_varint(buf, at) {
        Some(x) => x,
        None => { return None; },
    };
    let (application_error_code, p2) = match decode_u16(buf, p1) {
        Some(x) => x,
        None => { return None; },
    };
    Some((Frame::StopSending { stream_id, application_error_code }, p2))
}

/// Reads the fields of a handshake frame at `at`.
fn decode_crypto(buf: &[u8], at: usize) -> (r: Option<(Frame, usize)>)
    ensures
        frame_decoded(r, parse_crypto(buf@, at as int)),
{
    let (offset, p1) = match decode_varint(buf, at) {
        Some(x) => x,
        None => { return None; },
    };
    let (data, p2) = match decode_sized(buf, p1) {
        Some(x) => x,
        None => { return None; },
    };
    Some((Frame::Crypto { offset, data }, p2))
}

/// Reads the field of a token frame at `at`.
fn decode_new_token(buf: &[u8], at: usize) -> (r: Option<(Frame, usize)>)
    ensures
        frame_decoded(r, parse_new_token(buf@, at as int)),
{
    let (token, p1) = match decode_sized(buf, at) {
        Some(x) => x,
        None => { return None; },
    };
    Some((Frame::NewToken { token }, p1))
}

/// Reads the fields of a stream frame of type `t` at `at`.
fn decode_stream(buf: &[u8], at: usize, t: u8) -> (r: Option<(Frame, usize)>)
    ensures
        frame_decoded(r, parse_stream(buf@, at as int, t)),
{
    let fin: bool = t % 2 == 1;
    let has_len: bool = (t / 2) % 2 == 1;
    let has_off: bool = (t / 4) % 2 == 1;
    let (stream_id, p1) = match decode_varint(buf, at) {
        Some(x) => x,
        None => { return None; },
    };
    proof {
        lemma_parse_varint_bounds(buf@, at as int);
    }
    let (offset, p2) = if has_off {
        match decode_varint(buf, p1) {
            Some(x) => x,
            None => { return None; },
        }
    } else {
        (0u64, p1)
    };
    proof {
        if has_off {
            lemma_parse_varint_bounds(buf@, p1 as int);
        }
    }
    let (data, p3) = if has_len {
        match decode_sized(buf, p2) {
            Some(x) => x,
            None => { return None; },
        }
    } else {
        match decode_block(buf, p2, buf.len() - p2) {
            Some(x) => x,
            None => { return None; },
        }
    };
    Some((Frame::Stream { fin, stream_id, offset, data }, p3))
}

/// Reads two variable-length integers at `at`.
fn decode_two(buf: &[u8], at: usize) -> (r: Option<((u64, u64), usize)>)
    ensures
        match r {
            Some((v, next)) => parse_two(buf@, at as int) == Some((v, next as int)),
            None => parse_two(buf@, at as int) is None,
        },
{
    let (a, p1) = match decode_varint(buf, at) {
        Some(x) => x,
        None => { return None; },
    };
    let (b, p2) = match decode_varint(buf, p1) {
        Some(x) => x,
        None => { return None; },
    };
    Some(((a, b), p2))
}

/// Reads the fields of a frame that issues a connection identifier at `at`.
fn decode_new_connection_id(buf: &[u8], at: usize) -> (r: Option<(Frame, usize)>)
    ensures
        frame_decoded(r, parse_new_connection_id(buf@, at as int)),
{
    if at >= buf.len() {
        return None;
    }
    let len: usize = buf[at] as usize;
    let (sequence_number, p1) = match decode_varint(buf, at + 1) {
        Some(x) => x,
        None => { return None; },
    };
    let (connection_id, p2) = match decode_block(buf, p1, len) {
        Some(x) => x,
        None => { return None; },
    };
    let (stateless_reset_token, p3) = match decode_array16(buf, p2) {
        Some(x) => x,
        None => { return None; },
    };
    Some((Frame::NewConnectionId { sequence_number, connection_id, stateless_reset_token }, p3))
}

/// Reads the fields of a closing frame at `at`.
fn decode_connection_close(buf: &[u8], at: usize, close_type: CloseType) -> (r: Option<
    (Frame, usize),
>)
    ensures
        frame_decoded(r, parse_connection_close(buf@, at as int, close_type)),
{
    let (error_code, p1) = match decode_u16(buf, at) {
        Some(x) => x,
        None => { return None; },
    };
    let (frame_type, p2) = match close_type {
        CloseType::Transport => match decode_varint(buf, p1) {
            Some(x) => x,
            None => { return None; },
        },
        CloseType::Application => (0u64, p1),
    };
    let (reason_phrase, p3) = match decode_sized(buf, p2) {
        Some(x) => x,
        None => { return None; },
    };
    Some((Frame::ConnectionClose { close_type, error_code, frame_type, reason_phrase }, p3))
}

/// Decodes the frame that starts at `at`.
///
/// Returns the frame and the position after it, or `None` where the type
/// byte is unknown or a field runs past the end of `buf`. No byte outside
/// `buf` is read.
pub fn decode_at(buf: &[u8], at: usize) -> (r: Option<(Frame, usize)>)
    ensures
        frame_decoded(r, parse_frame(buf@, at as int)),
{
    if at >= buf.len() {
        return None;
    }
    let t: u8 = buf[at];
    let p: usize = at + 1;
    if t == FRAME_TYPE_PADDING {
        Some((Frame::Padding, p))
    } else if t == FRAME_TYPE_PING {
        Some((Frame::Ping, p))
    } else if t == FRAME_TYPE_ACK {
        decode_ack(buf, p)
    } else if t == FRAME_TYPE_RESET_STREAM {
        decode_reset_stream(buf, p)
    } else if t == FRAME_TYPE_STOP_SENDING {
        decode_stop_sending(buf, p)
    } else if t == FRAME_TYPE_CRYPTO {
        decode_crypto(buf, p)
    } else if t == FRAME_TYPE_NEW_TOKEN {
        decode_new_token(buf, p)
    } else if FRAME_TYPE_STREAM <= t && t <= FRAME_TYPE_STREAM_MAX {
        decode_stream(buf, p, t)
    } else if t == FRAME_TYPE_MAX_DATA {
        match decode_varint(buf, p) {
            Some((maximum_data, n)) => Some((Frame::MaxData { maximum_data }, n)),
            None => None,
        }
    } else if t == FRAME_TYPE_MAX_STREAM_DATA {
        match decode_two(buf, p) {
            Some(((stream_id, maximum_stream_data), n)) => Some(
                (Frame::MaxStreamData { stream_id, maximum_stream_data }, n),
            ),
            None => None,
        }
    } else if t == FRAME_TYPE_MAX_STREAMS_BIDI || t == FRAME_TYPE_MAX_STREAMS_UNIDI {
        let stream_type = if t == FRAME_TYPE_MAX_STREAMS_BIDI {
            StreamType::BiDi
        } else {
            StreamType::UniDi
        };
        match decode_varint(buf, p) {
            Some((maximum_streams, n)) => Some(
                (Frame::MaxStreams { stream_type, maximum_streams }, n),
            ),
            None => None,
        }
    } else if t == FRAME_TYPE_DATA_BLOCKED {
        match decode_varint(buf, p) {
            Some((data_limit, n)) => Some((Frame::DataBlocked { data_limit }, n)),
            None => None,
        }
    } else if t == FRAME_TYPE_STREAM_DATA_BLOCKED {
        match decode_two(buf, p) {
            Some(((stream_id, stream_data_limit), n)) => Some(
                (Frame::StreamDataBlocked { stream_id, stream_data_limit }, n),
            ),
            None => None,
        }
    } else if t == FRAME_TYPE_STREAMS_BLOCKED_BIDI || t == FRAME_TYPE_STREAMS_BLOCKED_UNIDI {
        let stream_type = if t == FRAME_TYPE_STREAMS_BLOCKED_BIDI {
            StreamType::BiDi
        } else {
            StreamType::UniDi
        };
        match decode_varint(buf, p) {
            Some((stream_limit, n)) => Some((Frame::StreamsBlocked { stream_type, stream_limit }, n)),
            None => None,
        }
    } else if t == FRAME_TYPE_NEW_CONNECTION_ID {
        decode_new_connection_id(buf, p)
    } else if t == FRAME_TYPE_RETIRE_CONNECTION_ID {
        match decode_varint(buf, p) {
            Some((sequence_number, n)) => Some((Frame::RetireConnectionId { sequence_number }, n)),
            None => None,
        }
    } else if t == FRAME_TYPE_PATH_CHALLENGE {
        match decode_array8(buf, p) {
            Some((data, n)) => Some((Frame::PathChallenge { data }, n)),
            None => None,
        }
    } else if t == FRAME_TYPE_PATH_RESPONSE {
        match decode_array8(buf, p) {
            Some((data, n)) => Some((Frame::PathResponse { data }, n)),
            None => None,
        }
    } else if t == FRAME_TYPE_CONNECTION_CLOSE_TRANSPORT {
        decode_connection_close(buf, p, CloseType::Transport)
    } else if t == FRAME_TYPE_CONNECTION_CLOSE_APPLICATION {
        decode_connection_close(buf, p, CloseType::Application)
    } else {
        None
    }
}

/// Decodes the frame at the start of `buf`.
///
/// Returns the frame and the number of bytes it occupies, or
/// [`Error::MalformedFrame`] exactly when the wire format admits no frame
/// at the start of `buf`.
pub fn decode(buf: &[u8]) -> (r: Res<(Frame, usize)>)
    ensures
        match r {
            Ok((f, n)) => parse_frame(buf@, 0) == Some((f@, n as int)),
            Err(e) => e == Error::MalformedFrame && parse_frame(buf@, 0) is None,
        },
{
    match decode_at(buf, 0) {
        Some(x) => Ok(x),
        None => Err(Error::MalformedFrame),
    }
}

// ---------------------------------------------------------------------
// Encoding
// ---------------------------------------------------------------------

/// Appends `data`.
fn write_bytes(out: &mut Vec<u8>, data: &[u8])
    ensures
        final(out)@ == old(out)@ + data@,
{
    let mut i: usize = 0;
    while i < data.len()
        invariant
            i <= data@.len(),
            out@ == old(out)@ + data@.subrange(0, i as int),
        decreases data@.len() - i,
    {
        out.push(data[i]);
        i += 1;
    }
}

/// Appends the length of `data` and `data`.
fn write_sized(out: &mut Vec<u8>, data: &[u8])
    requires
        data@.len() <= VARINT_MAX,
    ensures
        final(out)@ == old(out)@ + sized_bytes(data@),
{
    encode_varint(out, data.len() as u64);
    write_bytes(out, data);
}

/// Appends the gap and the length of each range.
fn write_ack_ranges(out: &mut Vec<u8>, ranges: &Vec<AckRange>)
    requires
        ack_ranges_fit(ranges@),
    ensures
        final(out)@ == old(out)@ + ack_ranges_bytes(ranges@),
{
    let mut i: usize = 0;
    while i < ranges.len()
        invariant
            i <= ranges@.len(),
            ack_ranges_fit(ranges@),
            out@ == old(out)@ + ack_ranges_bytes(ranges@.subrange(0, i as int)),
        decreases ranges@.len() - i,
    {
        let r: AckRange = ranges[i];
        encode_varint(out, r.gap);
        encode_varint(out, r.range);
        i += 1;
        proof {
            let next = ranges@.subrange(0, i as int);
            assert(next.drop_last() =~= ranges@.subrange(0, i - 1));
        }
    }
    assert(ranges@.subrange(0, i as int) =~= ranges@);
}

/// Appends the wire format of `f` to `out`.
pub fn encode_into(f: &Frame, out: &mut Vec<u8>)
    requires
        f@.wf(),
    ensures
        final(out)@ == old(out)@ + frame_bytes(f@),
{
    match f {
        Frame::Padding => {
            out.push(FRAME_TYPE_PADDING);
        },
        Frame::Ping => {
            out.push(FRAME_TYPE_PING);
        },
        Frame::Ack { largest_acknowledged, ack_delay, first_ack_range, ack_ranges } => {
            out.push(FRAME_TYPE_ACK);
            encode_varint(out, *largest_acknowledged);
            encode_varint(out, *ack_delay);
            encode_varint(out, ack_ranges.len() as u64);
            encode_varint(out, *first_ack_range);
            write_ack_ranges(out, ack_ranges);
        },
        Frame::ResetStream { stream_id, application_error_code, final_size } => {
            out.push(FRAME_TYPE_RESET_STREAM);
            encode_varint(out, *stream_id);
            write_uint(out, *application_error_code as u64, 2);
            encode_varint(out, *final_size);
        },
        Frame::StopSending { stream_id, application_error_code } => {
            out.push(FRAME_TYPE_STOP_SENDING);
            encode_varint(out, *stream_id);
            write_uint(out, *application_error_code as u64, 2);
        },
        Frame::Crypto { offset, data } => {
            out.push(FRAME_TYPE_CRYPTO);
            encode_varint(out, *offset);
            write_sized(out, data.as_slice());
        },
        Frame::NewToken { token } => {
            out.push(FRAME_TYPE_NEW_TOKEN);
            write_sized(out, token.as_slice());
        },
        Frame::Stream { fin, stream_id, offset, data } => {
            let mut t: u8 = FRAME_TYPE_STREAM + STREAM_BIT_LEN;
            if *offset > 0 {
                t = t + STREAM_BIT_OFF;
            }
            if *fin {
                t = t + STREAM_BIT_FIN;
            }
            out.push(t);
            encode_varint(out, *stream_id);
            if *offset > 0 {
                encode_varint(out, *offset);
            }
            write_sized(out, data.as_slice());
        },
        Frame::MaxData { maximum_data } => {
            out.push(FRAME_TYPE_MAX_DATA);
            encode_varint(out, *maximum_data);
        },
        Frame::MaxStreamData { stream_id, maximum_stream_data } => {
            out.push(FRAME_TYPE_MAX_STREAM_DATA);
            encode_varint(out, *stream_id);
            encode_varint(out, *maximum_stream_data);
        },
        Frame::MaxStreams { stream_type, maximum_streams } => {
            match stream_type {
                StreamType::BiDi => out.push(FRAME_TYPE_MAX_STREAMS_BIDI),
                StreamType::UniDi => out.push(FRAME_TYPE_MAX_STREAMS_UNIDI),
            }
            encode_varint(out, *maximum_streams);
        },
        Frame::DataBlocked { data_limit } => {
            out.push(FRAME_TYPE_DATA_BLOCKED);
            encode_varint(out, *data_limit);
        },
        Frame::StreamDataBlocked { stream_id, stream_data_limit } => {
            out.push(FRAME_TYPE_STREAM_DATA_BLOCKED);
            encode_varint(out, *stream_id);
            encode_varint(out, *stream_data_limit);
        },
        Frame::StreamsBlocked { stream_type, stream_limit } => {
            match stream_type {
                StreamType::BiDi => out.push(FRAME_TYPE_STREAMS_BLOCKED_BIDI),
                StreamType::UniDi => out.push(FRAME_TYPE_STREAMS_BLOCKED_UNIDI),
            }
            encode_varint(out, *stream_limit);
        },
        Frame::NewConnectionId { sequence_number, connection_id, stateless_reset_token } => {
            out.push(FRAME_TYPE_NEW_CONNECTION_ID);
            out.push(connection_id.len() as u8);
            encode_varint(out, *sequence_number);
            write_bytes(out, connection_id.as_slice());
            write_bytes(out, stateless_reset_token.as_slice());
        },
        Frame::RetireConnectionId { sequence_number } => {
            out.push(FRAME_TYPE_RETIRE_CONNECTION_ID);
            encode_varint(out, *sequence_number);
        },
        Frame::PathChallenge { data } => {
            out.push(FRAME_TYPE_PATH_CHALLENGE);
            write_bytes(out, data.as_slice());
        },
        Frame::PathResponse { data } => {
            out.push(FRAME_TYPE_PATH_RESPONSE);
            write_bytes(out, data.as_slice());
        },
        Frame::ConnectionClose { close_type, error_code, frame_type, reason_phrase } => {
            match close_type {
                CloseType::Transport => {
                    out.push(FRAME_TYPE_CONNECTION_CLOSE_TRANSPORT);
                    write_uint(out, *error_code as u64, 2);
                    encode_varint(out, *frame_type);
                },
                CloseType::Application => {
                    out.push(FRAME_TYPE_CONNECTION_CLOSE_APPLICATION);
                    write_uint(out, *error_code as u64, 2);
                },
            }
            write_sized(out, reason_phrase.as_slice());
        },
    }
}

/// The wire format of `f`. Encoding never fails on a well-formed frame.
pub fn encode(f: &Frame) -> (out: Vec<u8>)
    requires
        f@.wf(),
    ensures
        out@ == frame_bytes(f@),
{
    let mut out: Vec<u8> = Vec::new();
    encode_into(f, &mut out);
    out
}

// ---------------------------------------------------------------------
// The frames of a payload
// ---------------------------------------------------------------------

/// The payload of one datagram, read frame by frame from front to back.
///
/// The frames come out once and in order; after a frame that cannot be
/// decoded the rest of the payload is abandoned.
#[derive(Debug)]
pub struct Data {
    buf: Vec<u8>,
    offset: usize,
}

impl Data {
    /// All bytes of the payload.
    pub closed spec fn bytes(&self) -> Seq<u8> {
        self.buf@
    }

    /// The position of the next byte to read.
    pub closed spec fn position(&self) -> int {
        self.offset as int
    }

    /// The position lies inside the payload.
    pub open spec fn wf(&self) -> bool {
        0 <= self.position() <= self.bytes().len()
    }

    /// The frames that are still to come.
    pub open spec fn frames(&self) -> Seq<FrameView> {
        parse_frames(self.bytes(), self.position())
    }

    /// A reader over a copy of `b`, positioned at its start.
    pub fn from_slice(b: &[u8]) -> (d: Data)
        ensures
            d.wf(),
            d.bytes() == b@,
            d.position() == 0,
    {
        Data { buf: slice_to_vec(b), offset: 0 }
    }

    /// Number of bytes not yet read.
    pub fn remaining(&self) -> (n: usize)
        requires
            self.wf(),
        ensures
            n == self.bytes().len() - self.position(),
    {
        self.buf.len() - self.offset
    }
}

/// Decodes the next frame of `d` and moves past it.
///
/// Fails with [`Error::MalformedFrame`] exactly when no frame stands at the
/// current position; the rest of the payload is then abandoned.
pub fn decode_frame(d: &mut Data) -> (r: Res<Frame>)
    requires
        old(d).wf(),
    ensures
        final(d).wf(),
        final(d).bytes() == old(d).bytes(),
        match r {
            Ok(f) => parse_frame(old(d).bytes(), old(d).position()) == Some(
                (f@, final(d).position()),
            ) && old(d).position() < final(d).position() && old(d).frames() == seq![f@]
                + final(d).frames(),
            Err(e) => e == Error::MalformedFrame && parse_frame(old(d).bytes(), old(d).position())
                is None && final(d).position() == old(d).bytes().len() && old(d).frames()
                == Seq::<FrameView>::empty(),
        },
{
    match decode_at(d.buf.as_slice(), d.offset) {
        Some((f, n)) => {
            proof {
                lemma_parse_frame_wf(d.buf@, d.offset as int);
            }
            d.offset = n;
            Ok(f)
        },
        None => {
            d.offset = d.buf.len();
            Err(Error::MalformedFrame)
        },
    }
}

} // verus!
