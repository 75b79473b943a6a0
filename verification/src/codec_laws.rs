//! Laws of the wire format: decoding undoes encoding, and what decoding
//! yields can be encoded.

use vstd::prelude::*;
use crate::frame::AckRange;
use crate::frame::CloseType;
use crate::frame::FrameView;
use crate::frame::ack_ranges_bytes;
use crate::frame::ack_ranges_fit;
use crate::frame::frame_bytes;
use crate::frame::frames_bytes;
use crate::frame::frames_wf;
use crate::frame::parse_ack;
use crate::frame::parse_ack_ranges;
use crate::frame::parse_connection_close;
use crate::frame::parse_crypto;
use crate::frame::parse_frame;
use crate::frame::parse_frames;
use crate::frame::parse_new_connection_id;
use crate::frame::parse_new_token;
use crate::frame::parse_reset_stream;
use crate::frame::parse_sized;
use crate::frame::parse_stop_sending;
use crate::frame::parse_stream;
use crate::frame::parse_two;
use crate::frame::parse_u16;
use crate::frame::sized_bytes;
use crate::frame::stream_type_byte;
use crate::varint::VARINT_MAX;
use crate::varint::be_bytes;
use crate::varint::lemma_be_bytes_len;
use crate::varint::lemma_be_value_of_bytes;
use crate::varint::lemma_parse_varint_bounds;
use crate::varint::lemma_parse_varint_bytes;
use crate::varint::lemma_pow256_values;
use crate::varint::lemma_varint_bytes_len;
use crate::varint::parse_varint;
use crate::varint::varint_bytes;

verus! {

// ---------------------------------------------------------------------
// Decoding undoes encoding
// ---------------------------------------------------------------------

/// Whether the bytes of `enc` stand in `s` from position `at` on.
pub open spec fn stands_at(s: Seq<u8>, at: int, enc: Seq<u8>) -> bool {
    0 <= at && at + enc.len() <= s.len() && s.subrange(at, at + enc.len()) == enc
}

/// Where a concatenation stands, its first part stands at the same
/// position and its second part right behind it.
proof fn lemma_stands_at_split(s: Seq<u8>, at: int, a: Seq<u8>, b: Seq<u8>)
    requires
        stands_at(s, at, a + b),
    ensures
        stands_at(s, at, a),
        stands_at(s, at + a.len(), b),
{
    let ab = a + b;
    assert(s.subrange(at, at + a.len()) =~= a);
    assert(s.subrange(at + a.len(), at + a.len() + b.len()) =~= b) by {
        assert forall|i: int| 0 <= i < b.len() implies s.subrange(
            at + a.len(),
            at + a.len() + b.len(),
        )[i] == b[i] by {
            assert(s.subrange(at, at + ab.len())[a.len() + i] == ab[a.len() + i]);
        }
    }
}

/// Where the encoding of an integer stands, the integer is parsed.
proof fn lemma_parse_varint_stands(s: Seq<u8>, at: int, v: u64)
    requires
        v <= VARINT_MAX,
        stands_at(s, at, varint_bytes(v)),
    ensures
        parse_varint(s, at) == Some((v, at + varint_bytes(v).len())),
{
    lemma_varint_bytes_len(v);
    lemma_parse_varint_bytes(s, at, v);
}

/// Where the two bytes of a 16-bit number stand, the number is parsed.
proof fn lemma_parse_u16_stands(s: Seq<u8>, at: int, v: u16)
    requires
        stands_at(s, at, be_bytes(v as nat, 2)),
    ensures
        parse_u16(s, at) == Some((v, at + 2)),
        be_bytes(v as nat, 2).len() == 2,
{
    lemma_pow256_values();
    lemma_be_bytes_len(v as nat, 2);
    lemma_be_value_of_bytes(v as nat, 2);
}

/// Where a byte string stands behind its length, the byte string is parsed.
proof fn lemma_parse_sized_stands(s: Seq<u8>, at: int, data: Seq<u8>)
    requires
        data.len() <= VARINT_MAX,
        stands_at(s, at, sized_bytes(data)),
    ensures
        parse_sized(s, at) == Some((data, at + sized_bytes(data).len())),
{
    let n = data.len() as u64;
    lemma_stands_at_split(s, at, varint_bytes(n), data);
    lemma_parse_varint_stands(s, at, n);
}

/// Where the encoding of acknowledgement ranges stands, the ranges are
/// parsed.
proof fn lemma_parse_ack_ranges_stands(s: Seq<u8>, at: int, ranges: Seq<AckRange>)
    requires
        ack_ranges_fit(ranges),
        stands_at(s, at, ack_ranges_bytes(ranges)),
    ensures
        parse_ack_ranges(s, at, ranges.len()) == Some(
            (ranges, at + ack_ranges_bytes(ranges).len()),
        ),
    decreases ranges.len(),
{
    if ranges.len() > 0 {
        let init = ranges.drop_last();
        let last = ranges.last();
        let a = ack_ranges_bytes(init);
        let g = varint_bytes(last.gap);
        let r = varint_bytes(last.range);
        lemma_stands_at_split(s, at, a + g, r);
        lemma_stands_at_split(s, at, a, g);
        lemma_parse_ack_ranges_stands(s, at, init);
        lemma_parse_varint_stands(s, at + a.len(), last.gap);
        lemma_parse_varint_stands(s, at + a.len() + g.len(), last.range);
    }
}

/// Frames of a type byte and, for some, eight opaque bytes.
proof fn lemma_parse_plain(f: FrameView, s: Seq<u8>, at: int)
    requires
        f is Padding || f is Ping || f is PathChallenge || f is PathResponse,
        f.wf(),
        stands_at(s, at, frame_bytes(f)),
    ensures
        parse_frame(s, at) == Some((f, at + frame_bytes(f).len())),
{
    let enc = frame_bytes(f);
    assert(s[at] == s.subrange(at, at + enc.len())[0]);
    match f {
        FrameView::PathChallenge { data } => {
            lemma_stands_at_split(s, at, seq![0x1au8], data);
        },
        FrameView::PathResponse { data } => {
            lemma_stands_at_split(s, at, seq![0x1bu8], data);
        },
        _ => {},
    }
}

/// Frames of a type byte and one variable-length integer.
proof fn lemma_parse_one(f: FrameView, s: Seq<u8>, at: int)
    requires
        f is MaxData || f is MaxStreams || f is DataBlocked || f is StreamsBlocked || f
            is RetireConnectionId,
        f.wf(),
        stands_at(s, at, frame_bytes(f)),
    ensures
        parse_frame(s, at) == Some((f, at + frame_bytes(f).len())),
{
    let enc = frame_bytes(f);
    let t = seq![enc[0]];
    let v = match f {
        FrameView::MaxData { maximum_data } => maximum_data,
        FrameView::MaxStreams { stream_type, maximum_streams } => maximum_streams,
        FrameView::DataBlocked { data_limit } => data_limit,
        FrameView::StreamsBlocked { stream_type, stream_limit } => stream_limit,
        FrameView::RetireConnectionId { sequence_number } => sequence_number,
        _ => 0,
    };
    lemma_stands_at_split(s, at, t, varint_bytes(v));
    lemma_parse_varint_stands(s, at + 1, v);
}

/// Frames of a type byte and two variable-length integers.
proof fn lemma_parse_pair(f: FrameView, s: Seq<u8>, at: int)
    requires
        f is MaxStreamData || f is StreamDataBlocked,
        f.wf(),
        stands_at(s, at, frame_bytes(f)),
    ensures
        parse_frame(s, at) == Some((f, at + frame_bytes(f).len())),
{
    let enc = frame_bytes(f);
    let t = seq![enc[0]];
    let (a, b) = match f {
        FrameView::MaxStreamData { stream_id, maximum_stream_data } => (
            stream_id,
            maximum_stream_data,
        ),
        FrameView::StreamDataBlocked { stream_id, stream_data_limit } => (
            stream_id,
            stream_data_limit,
        ),
        _ => (0, 0),
    };
    let e1 = varint_bytes(a);
    let e2 = varint_bytes(b);
    lemma_stands_at_split(s, at, t + e1, e2);
    lemma_stands_at_split(s, at, t, e1);
    lemma_parse_varint_stands(s, at + 1, a);
    lemma_parse_varint_stands(s, at + 1 + e1.len(), b);
}

/// Acknowledgement frames.
proof fn lemma_parse_ack(f: FrameView, s: Seq<u8>, at: int)
    requires
        f is Ack,
        f.wf(),
        stands_at(s, at, frame_bytes(f)),
    ensures
        parse_frame(s, at) == Some((f, at + frame_bytes(f).len())),
{
    let p = at + 1;
    match f {
        FrameView::Ack { largest_acknowledged, ack_delay, first_ack_range, ack_ranges } => {
            let t = seq![0x02u8];
            let e1 = varint_bytes(largest_acknowledged);
            let e2 = varint_bytes(ack_delay);
            let e3 = varint_bytes(ack_ranges.len() as u64);
            let e4 = varint_bytes(first_ack_range);
            let e5 = ack_ranges_bytes(ack_ranges);
            lemma_stands_at_split(s, at, t + e1 + e2 + e3 + e4, e5);
            lemma_stands_at_split(s, at, t + e1 + e2 + e3, e4);
            lemma_stands_at_split(s, at, t + e1 + e2, e3);
            lemma_stands_at_split(s, at, t + e1, e2);
            lemma_stands_at_split(s, at, t, e1);
            assert(s[at] == s.subrange(at, at + t.len())[0]);
            lemma_parse_varint_stands(s, p, largest_acknowledged);
            lemma_parse_varint_stands(s, p + e1.len(), ack_delay);
            lemma_parse_varint_stands(s, p + e1.len() + e2.len(), ack_ranges.len() as u64);
            lemma_parse_varint_stands(s, p + e1.len() + e2.len() + e3.len(), first_ack_range);
            lemma_parse_ack_ranges_stands(
                s,
                p + e1.len() + e2.len() + e3.len() + e4.len(),
                ack_ranges,
            );
        },
        _ => {},
    }
}

/// Frames that name a stream and carry an error code.
proof fn lemma_parse_stream_end(f: FrameView, s: Seq<u8>, at: int)
    requires
        f is ResetStream || f is StopSending,
        f.wf(),
        stands_at(s, at, frame_bytes(f)),
    ensures
        parse_frame(s, at) == Some((f, at + frame_bytes(f).len())),
{
    let p = at + 1;
    match f {
        FrameView::ResetStream { stream_id, application_error_code, final_size } => {
            let t = seq![0x04u8];
            let e1 = varint_bytes(stream_id);
            let e2 = be_bytes(application_error_code as nat, 2);
            let e3 = varint_bytes(final_size);
            lemma_stands_at_split(s, at, t + e1 + e2, e3);
            lemma_stands_at_split(s, at, t + e1, e2);
            lemma_stands_at_split(s, at, t, e1);
            assert(s[at] == s.subrange(at, at + t.len())[0]);
            lemma_parse_varint_stands(s, p, stream_id);
            lemma_parse_u16_stands(s, p + e1.len(), application_error_code);
            lemma_parse_varint_stands(s, p + e1.len() + e2.len(), final_size);
        },
        FrameView::StopSending { stream_id, application_error_code } => {
            let t = seq![0x05u8];
            let e1 = varint_bytes(stream_id);
            let e2 = be_bytes(application_error_code as nat, 2);
            lemma_stands_at_split(s, at, t + e1, e2);
            lemma_stands_at_split(s, at, t, e1);
            assert(s[at] == s.subrange(at, at + t.len())[0]);
            lemma_parse_varint_stands(s, p, stream_id);
            lemma_parse_u16_stands(s, p + e1.len(), application_error_code);
        },
        _ => {},
    }
}

/// Frames that carry a byte string behind its length.
proof fn lemma_parse_opaque(f: FrameView, s: Seq<u8>, at: int)
    requires
        f is Crypto || f is NewToken,
        f.wf(),
        stands_at(s, at, frame_bytes(f)),
    ensures
        parse_frame(s, at) == Some((f, at + frame_bytes(f).len())),
{
    let p = at + 1;
    match f {
        FrameView::Crypto { offset, data } => {
            let t = seq![0x06u8];
            let e1 = varint_bytes(offset);
            let e2 = sized_bytes(data);
            lemma_stands_at_split(s, at, t + e1, e2);
            lemma_stands_at_split(s, at, t, e1);
            assert(s[at] == s.subrange(at, at + t.len())[0]);
            lemma_parse_varint_stands(s, p, offset);
            lemma_parse_sized_stands(s, p + e1.len(), data);
        },
        FrameView::NewToken { token } => {
            let t = seq![0x07u8];
            let e1 = sized_bytes(token);
            lemma_stands_at_split(s, at, t, e1);
            assert(s[at] == s.subrange(at, at + t.len())[0]);
            lemma_parse_sized_stands(s, p, token);
        },
        _ => {},
    }
}

/// Stream frames: the type byte says which fields were written.
proof fn lemma_parse_stream(f: FrameView, s: Seq<u8>, at: int)
    requires
        f is Stream,
        f.wf(),
        stands_at(s, at, frame_bytes(f)),
    ensures
        parse_frame(s, at) == Some((f, at + frame_bytes(f).len())),
{
    let p = at + 1;
    match f {
        FrameView::Stream { fin, stream_id, offset, data } => {
            let tb = stream_type_byte(fin, offset);
            let t = seq![tb];
            let e1 = varint_bytes(stream_id);
            let e2 = if offset > 0 {
                varint_bytes(offset)
            } else {
                Seq::empty()
            };
            let e3 = sized_bytes(data);
            lemma_stands_at_split(s, at, t + e1 + e2, e3);
            lemma_stands_at_split(s, at, t + e1, e2);
            lemma_stands_at_split(s, at, t, e1);
            assert(s[at] == s.subrange(at, at + t.len())[0]);
            lemma_parse_varint_stands(s, p, stream_id);
            if offset > 0 {
                lemma_parse_varint_stands(s, p + e1.len(), offset);
            }
            lemma_parse_sized_stands(s, p + e1.len() + e2.len(), data);
        },
        _ => {},
    }
}

/// Frames that issue a connection identifier.
proof fn lemma_parse_new_connection_id(f: FrameView, s: Seq<u8>, at: int)
    requires
        f is NewConnectionId,
        f.wf(),
        stands_at(s, at, frame_bytes(f)),
    ensures
        parse_frame(s, at) == Some((f, at + frame_bytes(f).len())),
{
    match f {
        FrameView::NewConnectionId { sequence_number, connection_id, stateless_reset_token } => {
            let t = seq![0x18u8, connection_id.len() as u8];
            let e1 = varint_bytes(sequence_number);
            lemma_stands_at_split(s, at, t + e1 + connection_id, stateless_reset_token);
            lemma_stands_at_split(s, at, t + e1, connection_id);
            lemma_stands_at_split(s, at, t, e1);
            lemma_parse_varint_stands(s, at + 2, sequence_number);
        },
        _ => {},
    }
}

/// Closing frames, of the transport and of the application.
proof fn lemma_parse_connection_close(f: FrameView, s: Seq<u8>, at: int)
    requires
        f is ConnectionClose,
        f.wf(),
        stands_at(s, at, frame_bytes(f)),
    ensures
        parse_frame(s, at) == Some((f, at + frame_bytes(f).len())),
{
    let p = at + 1;
    match f {
        FrameView::ConnectionClose { close_type, error_code, frame_type, reason_phrase } => {
            let e1 = be_bytes(error_code as nat, 2);
            let e3 = sized_bytes(reason_phrase);
            if close_type == CloseType::Transport {
                let t = seq![0x1cu8];
                let e2 = varint_bytes(frame_type);
                lemma_stands_at_split(s, at, t + e1 + e2, e3);
                lemma_stands_at_split(s, at, t + e1, e2);
                lemma_stands_at_split(s, at, t, e1);
                assert(s[at] == s.subrange(at, at + t.len())[0]);
                lemma_parse_u16_stands(s, p, error_code);
                lemma_parse_varint_stands(s, p + 2, frame_type);
                lemma_parse_sized_stands(s, p + 2 + e2.len(), reason_phrase);
            } else {
                let t = seq![0x1du8];
                lemma_stands_at_split(s, at, t + e1, e3);
                lemma_stands_at_split(s, at, t, e1);
                lemma_parse_u16_stands(s, p, error_code);
                lemma_parse_sized_stands(s, p + 2, reason_phrase);
            }
        },
        _ => {},
    }
}

/// Decoding undoes encoding: wherever the wire format of a well-formed
/// frame stands in a buffer, parsing at that position gives the frame back
/// and ends right after it.
pub proof fn lemma_parse_frame_bytes(f: FrameView, s: Seq<u8>, at: int)
    requires
        f.wf(),
        stands_at(s, at, frame_bytes(f)),
    ensures
        parse_frame(s, at) == Some((f, at + frame_bytes(f).len())),
{
    match f {
        FrameView::Padding
        | FrameView::Ping
        | FrameView::PathChallenge { .. }
        | FrameView::PathResponse { .. } => lemma_parse_plain(f, s, at),
        FrameView::MaxData { .. }
        | FrameView::MaxStreams { .. }
        | FrameView::DataBlocked { .. }
        | FrameView::StreamsBlocked { .. }
        | FrameView::RetireConnectionId { .. } => lemma_parse_one(f, s, at),
        FrameView::MaxStreamData { .. } | FrameView::StreamDataBlocked { .. } => lemma_parse_pair(
            f,
            s,
            at,
        ),
        FrameView::Ack { .. } => lemma_parse_ack(f, s, at),
        FrameView::ResetStream { .. } | FrameView::StopSending { .. } => lemma_parse_stream_end(
            f,
            s,
            at,
        ),
        FrameView::Crypto { .. } | FrameView::NewToken { .. } => lemma_parse_opaque(f, s, at),
        FrameView::Stream { .. } => lemma_parse_stream(f, s, at),
        FrameView::NewConnectionId { .. } => lemma_parse_new_connection_id(f, s, at),
        FrameView::ConnectionClose { .. } => lemma_parse_connection_close(f, s, at),
    }
}

/// Round trip: decoding the wire format of a well-formed frame gives the
/// frame back and consumes exactly its bytes.
pub proof fn lemma_decode_encode(f: FrameView)
    requires
        f.wf(),
    ensures
        parse_frame(frame_bytes(f), 0) == Some((f, frame_bytes(f).len() as int)),
{
    let enc = frame_bytes(f);
    assert(enc.subrange(0, enc.len() as int) =~= enc);
    lemma_parse_frame_bytes(f, enc, 0);
}

/// The wire format of frames is that of the first frame followed by that
/// of the others.
proof fn lemma_frames_bytes_front(frames: Seq<FrameView>)
    requires
        frames.len() > 0,
    ensures
        frames_bytes(frames) == frame_bytes(frames[0]) + frames_bytes(frames.drop_first()),
    decreases frames.len(),
{
    if frames.len() == 1 {
        assert(frames.drop_last() =~= Seq::<FrameView>::empty());
        assert(frames.drop_first() =~= Seq::<FrameView>::empty());
    } else {
        let init = frames.drop_last();
        lemma_frames_bytes_front(init);
        assert(init.drop_first() =~= frames.drop_first().drop_last());
    }
}

/// What is written is what is read: wherever the wire format of
/// well-formed frames stands at the end of a buffer, decoding frame by
/// frame from that position on gives the frames back, each of them and in
/// order.
pub proof fn lemma_parse_frames_bytes(frames: Seq<FrameView>, s: Seq<u8>, at: int)
    requires
        frames_wf(frames),
        stands_at(s, at, frames_bytes(frames)),
        at + frames_bytes(frames).len() == s.len(),
    ensures
        parse_frames(s, at) == frames,
    decreases frames.len(),
{
    if frames.len() > 0 {
        let f = frames[0];
        let rest = frames.drop_first();
        lemma_frames_bytes_front(frames);
        lemma_stands_at_split(s, at, frame_bytes(f), frames_bytes(rest));
        lemma_parse_frame_bytes(f, s, at);
        lemma_parse_frame_wf(s, at);
        lemma_parse_frames_bytes(rest, s, at + frame_bytes(f).len());
    }
}

// ---------------------------------------------------------------------
// What parsing yields
// ---------------------------------------------------------------------

/// Once the ranges cannot be parsed up to some count, they cannot be
/// parsed up to any larger one.
pub proof fn lemma_parse_ack_ranges_none(s: Seq<u8>, at: int, k: nat, count: nat)
    requires
        parse_ack_ranges(s, at, k) is None,
        k <= count,
    ensures
        parse_ack_ranges(s, at, count) is None,
    decreases count,
{
    if k < count {
        lemma_parse_ack_ranges_none(s, at, k, (count - 1) as nat);
    }
}

/// A parsed byte string ends inside the buffer and is no longer than the
/// largest length that can be written.
proof fn lemma_parse_sized_bounds(s: Seq<u8>, at: int)
    requires
        parse_sized(s, at) is Some,
    ensures
        at < parse_sized(s, at).unwrap().1 <= s.len(),
        parse_sized(s, at).unwrap().0.len() <= VARINT_MAX,
{
    lemma_parse_varint_bounds(s, at);
}

/// Parsed acknowledgement ranges end inside the buffer, are as many as
/// were asked for, and fit the wire format.
proof fn lemma_parse_ack_ranges_bounds(s: Seq<u8>, at: int, count: nat)
    requires
        0 <= at <= s.len(),
        parse_ack_ranges(s, at, count) is Some,
    ensures
        at <= parse_ack_ranges(s, at, count).unwrap().1 <= s.len(),
        parse_ack_ranges(s, at, count).unwrap().0.len() == count,
        ack_ranges_fit(parse_ack_ranges(s, at, count).unwrap().0),
    decreases count,
{
    if count > 0 {
        let k = (count - 1) as nat;
        lemma_parse_ack_ranges_bounds(s, at, k);
        let (ranges, p0) = parse_ack_ranges(s, at, k).unwrap();
        lemma_parse_varint_bounds(s, p0);
        let (gap, p1) = parse_varint(s, p0).unwrap();
        lemma_parse_varint_bounds(s, p1);
    }
}

/// A parsed acknowledgement frame is well-formed.
proof fn lemma_parse_ack_wf(s: Seq<u8>, at: int)
    requires
        parse_ack(s, at) is Some,
    ensures
        at < parse_ack(s, at).unwrap().1 <= s.len(),
        parse_ack(s, at).unwrap().0.wf(),
{
    lemma_parse_varint_bounds(s, at);
    let p1 = parse_varint(s, at).unwrap().1;
    lemma_parse_varint_bounds(s, p1);
    let p2 = parse_varint(s, p1).unwrap().1;
    lemma_parse_varint_bounds(s, p2);
    let (count, p3) = parse_varint(s, p2).unwrap();
    lemma_parse_varint_bounds(s, p3);
    let p4 = parse_varint(s, p3).unwrap().1;
    lemma_parse_ack_ranges_bounds(s, p4, count as nat);
}

/// A parsed stream frame ends inside the buffer, and is well-formed
/// unless its data is longer than any length that can be written.
proof fn lemma_parse_stream_wf(s: Seq<u8>, at: int, t: u8)
    requires
        0 <= at,
        parse_stream(s, at, t) is Some,
    ensures
        at < parse_stream(s, at, t).unwrap().1 <= s.len(),
        s.len() <= VARINT_MAX ==> parse_stream(s, at, t).unwrap().0.wf(),
{
    lemma_parse_varint_bounds(s, at);
    let p1 = parse_varint(s, at).unwrap().1;
    let has_len = (t / 2) % 2 == 1;
    let has_off = (t / 4) % 2 == 1;
    if has_off {
        lemma_parse_varint_bounds(s, p1);
    }
    let p2 = if has_off {
        parse_varint(s, p1).unwrap().1
    } else {
        p1
    };
    if has_len {
        lemma_parse_sized_bounds(s, p2);
    }
}

/// A parsed closing frame is well-formed.
proof fn lemma_parse_connection_close_wf(s: Seq<u8>, at: int, close_type: CloseType)
    requires
        parse_connection_close(s, at, close_type) is Some,
    ensures
        at < parse_connection_close(s, at, close_type).unwrap().1 <= s.len(),
        parse_connection_close(s, at, close_type).unwrap().0.wf(),
{
    let p1 = at + 2;
    if close_type == CloseType::Transport {
        lemma_parse_varint_bounds(s, p1);
    }
    let p2 = if close_type == CloseType::Transport {
        parse_varint(s, p1).unwrap().1
    } else {
        p1
    };
    lemma_parse_sized_bounds(s, p2);
}

/// Two parsed integers end inside the buffer and fit the wire format.
proof fn lemma_parse_two_bounds(s: Seq<u8>, at: int)
    requires
        parse_two(s, at) is Some,
    ensures
        at < parse_two(s, at).unwrap().1 <= s.len(),
        parse_two(s, at).unwrap().0.0 <= VARINT_MAX,
        parse_two(s, at).unwrap().0.1 <= VARINT_MAX,
{
    lemma_parse_varint_bounds(s, at);
    lemma_parse_varint_bounds(s, parse_varint(s, at).unwrap().1);
}

/// Parsed frames of the remaining kinds with several fields are
/// well-formed.
proof fn lemma_parse_fields_wf(s: Seq<u8>, at: int)
    requires
        0 <= at,
    ensures
        parse_reset_stream(s, at) matches Some((f, n)) ==> at < n <= s.len() && f.wf(),
        parse_stop_sending(s, at) matches Some((f, n)) ==> at < n <= s.len() && f.wf(),
        parse_crypto(s, at) matches Some((f, n)) ==> at < n <= s.len() && f.wf(),
        parse_new_token(s, at) matches Some((f, n)) ==> at < n <= s.len() && f.wf(),
        parse_new_connection_id(s, at) matches Some((f, n)) ==> at < n <= s.len() && f.wf(),
{
    if parse_varint(s, at) is Some {
        lemma_parse_varint_bounds(s, at);
        let p1 = parse_varint(s, at).unwrap().1;
        if parse_u16(s, p1) is Some {
            if parse_varint(s, p1 + 2) is Some {
                lemma_parse_varint_bounds(s, p1 + 2);
            }
        }
        if parse_sized(s, p1) is Some {
            lemma_parse_sized_bounds(s, p1);
        }
    }
    if parse_sized(s, at) is Some {
        lemma_parse_sized_bounds(s, at);
    }
    if parse_varint(s, at + 1) is Some {
        lemma_parse_varint_bounds(s, at + 1);
    }
}

/// A parsed frame ends after it starts and inside the buffer, and is
/// well-formed provided the buffer is no longer than [`VARINT_MAX`] bytes
/// (the data of a stream frame without length field is the buffer's rest).
pub proof fn lemma_parse_frame_wf(s: Seq<u8>, at: int)
    requires
        parse_frame(s, at) is Some,
    ensures
        0 <= at < parse_frame(s, at).unwrap().1 <= s.len(),
        s.len() <= VARINT_MAX ==> parse_frame(s, at).unwrap().0.wf(),
{
    let t = s[at];
    let p = at + 1;
    lemma_parse_fields_wf(s, p);
    if t == 0x02 {
        lemma_parse_ack_wf(s, p);
    } else if 0x08 <= t <= 0x0f {
        lemma_parse_stream_wf(s, p, t);
    } else if t == 0x10 || t == 0x12 || t == 0x13 || t == 0x14 || t == 0x16 || t == 0x17 || t
        == 0x19 {
        lemma_parse_varint_bounds(s, p);
    } else if t == 0x11 || t == 0x15 {
        lemma_parse_two_bounds(s, p);
    } else if t == 0x1c {
        lemma_parse_connection_close_wf(s, p, CloseType::Transport);
    } else if t == 0x1d {
        lemma_parse_connection_close_wf(s, p, CloseType::Application);
    }
}

} // verus!
