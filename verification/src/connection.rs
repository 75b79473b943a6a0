//! The connection state machine.
//!
//! A connection owns its streams, its flow-control budgets and its table
//! of connection identifiers. It takes in the payloads of datagrams and
//! the passing of time, dispatches each decoded frame to the part that it
//! concerns, and decides what goes out: frames for the peer, which are
//! handed out encoded, and events for the handshake and the loss-recovery
//! collaborators. What a connection does is stated on its model
//! ([`ConnectionView`]) as a function from state and input to state and
//! outcome; the executable connection is proved to compute that function.

use std::collections::HashMap;
use vstd::prelude::*;
use vstd::slice::slice_to_vec;
use crate::cid::ConnectionIdTable;
use crate::cid::IdView;
use crate::cid::lemma_peer_added_wf;
use crate::codec::Data;
use crate::codec::decode_frame;
use crate::codec::encode;
use crate::connection_model::ConnectionView;
use crate::connection_model::MAX_STREAM_INDEX;
use crate::connection_model::dispatched;
use crate::connection_model::fitting;
use crate::connection_model::is_bidi;
use crate::connection_model::is_local;
use crate::connection_model::lemma_precedes_transitive;
use crate::error::Error;
use crate::error::Res;
use crate::flow::FlowController;
use crate::frame::AckRange;
use crate::frame::CloseType;
use crate::frame::FRAME_TYPE_NEW_CONNECTION_ID;
use crate::frame::Frame;
use crate::frame::FrameView;
use crate::frame::StreamType;
use crate::frame::frame_bytes;
use crate::frame::frames_bytes;
use crate::frame::parse_frames;
use crate::reassembly::STREAM_MAX;
use crate::stream::Stream;
use crate::stream::StreamView;
use crate::stream::lemma_stream_rx_monotonic;
use crate::varint::VARINT_MAX;

verus! {

/// Which end of the connection this is.
#[derive(Debug, Clone, Copy, PartialEq, Eq, Structural)]
pub enum Role {
    Client,
    Server,
}

/// Where the connection stands in its life.
#[derive(Debug, Clone, Copy, PartialEq, Eq, Structural)]
pub enum State {
    /// Client, before the first packet was sent.
    Init,
    /// Server, before the first packet was received.
    WaitInitial,
    /// The cryptographic handshake is in progress.
    Handshaking,
    /// The handshake is complete; streams carry application data.
    Connected,
    /// Closed by either end; stray packets are tolerated and ignored.
    Closing,
    /// Terminal.
    Closed,
}

/// An endpoint of the network. The connection hands addresses back; it
/// does not look into them.
#[derive(Debug, Clone, Copy, PartialEq, Eq)]
pub struct Address {
    pub ip: [u8; 16],
    pub port: u16,
}

/// The payload of a datagram with the endpoints it travels between.
#[derive(Debug, Clone, PartialEq, Eq)]
pub struct Datagram {
    pub src: Address,
    pub dst: Address,
    pub d: Vec<u8>,
}

/// Limits and periods that a connection is created with.
#[derive(Debug, Clone, Copy, PartialEq, Eq)]
pub struct Config {
    /// Bytes, over all streams, that the peer may send beyond those read.
    pub max_data: u64,
    /// Bytes that the peer may send on one stream beyond those read.
    pub max_stream_data: u64,
    /// Bytes, over all streams, that the peer accepts at the start.
    pub peer_max_data: u64,
    /// Bytes that the peer accepts on one stream at the start.
    pub peer_max_stream_data: u64,
    /// Identifiers of the peer that may be active at once.
    pub active_connection_id_limit: usize,
    /// Time after which an unanswered flight is sent again.
    pub timeout: u64,
    /// Time for which a closing connection tolerates stray packets.
    pub drain_period: u64,
}

/// Largest payload that [`Connection::input`] hands back in one datagram.
pub const MAX_DATAGRAM_PAYLOAD: usize = 1200;

impl Config {
    /// The limits of a connection for which none were chosen.
    pub open spec fn spec_standard() -> Config {
        Config {
            max_data: 0x10_0000,
            max_stream_data: 0x4_0000,
            peer_max_data: 0x10_0000,
            peer_max_stream_data: 0x4_0000,
            active_connection_id_limit: 8,
            timeout: 500,
            drain_period: 3000,
        }
    }

    /// The limits of a connection for which none were chosen.
    #[verifier::when_used_as_spec(spec_standard)]
    pub fn standard() -> (c: Config)
        ensures
            c == Config::spec_standard(),
    {
        Config {
            max_data: 0x10_0000,
            max_stream_data: 0x4_0000,
            peer_max_data: 0x10_0000,
            peer_max_stream_data: 0x4_0000,
            active_connection_id_limit: 8,
            timeout: 500,
            drain_period: 3000,
        }
    }

    /// The configuration with every byte limit cut down to the largest
    /// value that a frame can carry.
    pub open spec fn spec_capped(self) -> Config {
        Config {
            max_data: cap(self.max_data),
            max_stream_data: cap(self.max_stream_data),
            peer_max_data: cap(self.peer_max_data),
            peer_max_stream_data: cap(self.peer_max_stream_data),
            ..self
        }
    }

    /// The configuration with every byte limit cut down to the largest
    /// value that a frame can carry.
    #[verifier::when_used_as_spec(spec_capped)]
    pub fn capped(self) -> (c: Config)
        ensures
            c == self.spec_capped(),
    {
        Config {
            max_data: capped(self.max_data),
            max_stream_data: capped(self.max_stream_data),
            peer_max_data: capped(self.peer_max_data),
            peer_max_stream_data: capped(self.peer_max_stream_data),
            ..self
        }
    }
}

/// `n`, or the largest value that a frame can carry where `n` is above it.
pub open spec fn cap(n: u64) -> u64 {
    if n > VARINT_MAX {
        VARINT_MAX
    } else {
        n
    }
}

/// `n`, cut down to the largest value that a frame can carry.
fn capped(n: u64) -> (r: u64)
    ensures
        r == cap(n),
{
    if n > VARINT_MAX {
        VARINT_MAX
    } else {
        n
    }
}

/// The time `period` after `now`, or the end of time where that is earlier.
pub open spec fn later(now: u64, period: u64) -> u64 {
    if now + period > u64::MAX {
        u64::MAX
    } else {
        (now + period) as u64
    }
}

/// The time `period` after `now`, without passing the end of time.
fn time_after(now: u64, period: u64) -> (t: u64)
    ensures
        t == later(now, period),
{
    if period > u64::MAX - now {
        u64::MAX
    } else {
        now + period
    }
}

/// What the connection asks of its collaborators.
#[derive(Debug, Clone, PartialEq, Eq)]
pub enum Event {
    /// The client's first handshake flight is to be produced.
    HandshakeStart,
    /// The handshake flight is to be sent again.
    HandshakeRetry,
    /// Handshake bytes arrived at the given offset.
    Crypto { offset: u64, data: Vec<u8> },
    /// The peer acknowledged packets.
    Acked { largest_acknowledged: u64, ack_delay: u64, first_ack_range: u64, ack_ranges: Vec<AckRange> },
}

/// The mathematical value of an [`Event`].
pub enum EventView {
    HandshakeStart,
    HandshakeRetry,
    Crypto { offset: u64, data: Seq<u8> },
    Acked { largest_acknowledged: u64, ack_delay: u64, first_ack_range: u64, ack_ranges: Seq<AckRange> },
}

impl View for Event {
    type V = EventView;

    open spec fn view(&self) -> EventView {
        match *self {
            Event::HandshakeStart => EventView::HandshakeStart,
            Event::HandshakeRetry => EventView::HandshakeRetry,
            Event::Crypto { offset, data } => EventView::Crypto { offset, data: data@ },
            Event::Acked { largest_acknowledged, ack_delay, first_ack_range, ack_ranges } => {
                EventView::Acked {
                    largest_acknowledged,
                    ack_delay,
                    first_ack_range,
                    ack_ranges: ack_ranges@,
                }
            },
        }
    }
}

/// What the peer last reported of being blocked, kept for diagnostics.
#[derive(Debug, Clone, Copy, PartialEq, Eq)]
pub struct Blocked {
    /// The connection limit at which the peer was blocked.
    pub data: Option<u64>,
    /// The stream and its limit at which the peer was blocked.
    pub stream_data: Option<(u64, u64)>,
    /// The kind of stream and the count at which the peer was blocked.
    pub streams: Option<(StreamType, u64)>,
}

/// The connection-level core of the transport.
#[derive(Debug)]
pub struct Connection {
    role: Role,
    state: State,
    now: u64,
    deadline: u64,
    config: Config,
    flow_rx: FlowController,
    flow_tx: FlowController,
    bytes_read: u64,
    max_streams_bidi: u64,
    max_streams_uni: u64,
    cids: ConnectionIdTable,
    next_stream_index: u64,
    streams: HashMap<u64, Stream>,
    outgoing: Vec<Frame>,
    events: Vec<Event>,
    ack_owed: bool,
    token: Option<Vec<u8>>,
    close_code: Option<u16>,
    crypto_tx_offset: u64,
    blocked: Blocked,
}

/// The models of the streams, by stream id.
spec fn streams_view(m: Map<u64, Stream>) -> Map<u64, StreamView> {
    m.map_values(|s: Stream| s@)
}

/// The values of the frames.
spec fn frames_view(q: Seq<Frame>) -> Seq<FrameView> {
    q.map_values(|f: Frame| f@)
}

/// The values of the events.
spec fn events_view(q: Seq<Event>) -> Seq<EventView> {
    q.map_values(|e: Event| e@)
}

/// Every stream is well-formed.
spec fn streams_ok(m: Map<u64, Stream>) -> bool {
    forall|id: u64| #[trigger] m.contains_key(id) ==> m[id].wf()
}

impl View for Connection {
    type V = ConnectionView;

    closed spec fn view(&self) -> ConnectionView {
        ConnectionView {
            role: self.role,
            state: self.state,
            now: self.now,
            deadline: self.deadline,
            config: self.config,
            flow_rx: self.flow_rx@,
            flow_tx: self.flow_tx@,
            bytes_read: self.bytes_read,
            max_streams_bidi: self.max_streams_bidi,
            max_streams_uni: self.max_streams_uni,
            cids: self.cids@,
            next_stream_index: self.next_stream_index,
            streams: streams_view(self.streams@),
            outgoing: frames_view(self.outgoing@),
            events: events_view(self.events@),
            ack_owed: self.ack_owed,
            token: match self.token {
                Some(t) => Some(t@),
                None => None,
            },
            close_code: self.close_code,
            crypto_tx_offset: self.crypto_tx_offset,
            blocked: self.blocked,
        }
    }
}

/// The value of a queue with a frame behind it.
proof fn lemma_frames_push(q: Seq<Frame>, f: Frame)
    ensures
        frames_view(q.push(f)) == frames_view(q).push(f@),
{
}

/// The value of a queue with an event behind it.
proof fn lemma_events_push(q: Seq<Event>, e: Event)
    ensures
        events_view(q.push(e)) == events_view(q).push(e@),
{
}

/// The models of the streams after one of them was replaced or removed.
proof fn lemma_streams_insert(m: Map<u64, Stream>, id: u64, st: Stream)
    ensures
        streams_view(m.insert(id, st)) == streams_view(m).insert(id, st@),
        streams_view(m.remove(id)) == streams_view(m).remove(id),
        streams_view(m.remove(id).insert(id, st)) == streams_view(m).insert(id, st@),
{
}

/// Whether the endpoint of the given role initiates the stream.
fn is_local_id(role: Role, id: u64) -> (b: bool)
    ensures
        b == is_local(role, id),
{
    match role {
        Role::Client => id % 2 == 0,
        Role::Server => id % 2 == 1,
    }
}

/// Whether the stream carries data in both directions.
fn is_bidi_id(id: u64) -> (b: bool)
    ensures
        b == is_bidi(id),
{
    (id / 2) % 2 == 0
}

impl Connection {
    /// The invariant of the connection.
    pub closed spec fn wf(&self) -> bool {
        &&& self@.wf()
        &&& self.cids.wf()
        &&& streams_ok(self.streams@)
    }

    /// A well-formed connection has a well-formed model.
    pub proof fn lemma_view_wf(&self)
        requires
            self.wf(),
        ensures
            self@.wf(),
    {
    }

    /// A connection of the given role with the standard limits. A client
    /// starts in [`State::Init`], a server in [`State::WaitInitial`].
    pub fn new(r: Role) -> (c: Connection)
        ensures
            c.wf(),
            c@ == ConnectionView::fresh(r, Config::spec_standard()),
    {
        Connection::with_config(r, Config::standard())
    }

    /// A connection of the given role with the given limits, each byte
    /// limit cut down to the largest value that a frame can carry.
    pub fn with_config(r: Role, config: Config) -> (c: Connection)
        ensures
            c.wf(),
            c@ == ConnectionView::fresh(r, config),
    {
        let cfg = config.capped();
        let c = Connection {
            role: r,
            state: match r {
                Role::Client => State::Init,
                Role::Server => State::WaitInitial,
            },
            now: 0,
            deadline: match r {
                Role::Client => 0,
                Role::Server => u64::MAX,
            },
            config: cfg,
            flow_rx: FlowController::new(cfg.max_data),
            flow_tx: FlowController::new(cfg.peer_max_data),
            bytes_read: 0,
            max_streams_bidi: 0,
            max_streams_uni: 0,
            cids: ConnectionIdTable::new(cfg.active_connection_id_limit),
            next_stream_index: 0,
            streams: HashMap::new(),
            outgoing: Vec::new(),
            events: Vec::new(),
            ack_owed: false,
            token: None,
            close_code: None,
            crypto_tx_offset: 0,
            blocked: Blocked { data: None, stream_data: None, streams: None },
        };
        proof {
            c.cids.lemma_view_wf();
            assert(c@.streams =~= Map::<u64, StreamView>::empty());
            assert(c@.outgoing =~= Seq::<FrameView>::empty());
            assert(c@.events =~= Seq::<EventView>::empty());
        }
        c
    }

    /// Which end of the connection this is.
    pub fn role(&self) -> (r: Role)
        ensures
            r == self@.role,
    {
        self.role
    }

    /// Where the connection stands in its life.
    pub fn state(&self) -> (s: State)
        ensures
            s == self@.state,
    {
        self.state
    }

    /// The time after which the timer of the current state fires.
    pub fn deadline(&self) -> (t: u64)
        ensures
            t == self@.deadline,
    {
        self.deadline
    }

    /// The error code with which the connection was closed, if it was.
    pub fn close_code(&self) -> (c: Option<u16>)
        ensures
            c == self@.close_code,
    {
        self.close_code
    }

    /// Takes in a datagram at time `now`: see [`ConnectionView::input`].
    ///
    /// The timer is acted on first, where the deadline has passed. Then
    /// the frames of the payload are dispatched one after the other; a
    /// frame that cannot be decoded ends that, and the rest of the payload
    /// is dropped. A frame that violates the protocol leaves the
    /// connection closing. Returns the datagram to send in return, if any,
    /// and the next deadline. Fails with [`Error::ConnectionClosed`],
    /// changing nothing, on a closed connection.
    pub fn input(&mut self, d: &Datagram, now: u64) -> (r: Res<(Option<Datagram>, u64)>)
        requires
            old(self).wf(),
        ensures
            final(self).wf(),
            final(self)@ == old(self)@.input(d.d@, now).0,
            match r {
                Ok((reply, deadline)) => old(self)@.input(d.d@, now).1 == Ok::<
                    (Option<Seq<u8>>, u64),
                    Error,
                >(
                    (
                        match reply {
                            Some(x) => Some(x.d@),
                            None => None,
                        },
                        deadline,
                    ),
                ) && (reply matches Some(x) ==> x.src == d.dst && x.dst == d.src),
                Err(e) => old(self)@.input(d.d@, now).1 == Err::<(Option<Seq<u8>>, u64), Error>(e),
            },
            old(self)@.precedes(final(self)@),
    {
        match self.state {
            State::Closed => {
                return Err(Error::ConnectionClosed);
            },
            _ => {},
        }
        let ghost v0 = self@;
        self.tick(now);
        let ghost v1 = self@;
        let mut data = Data::from_slice(d.d.as_slice());
        while data.remaining() > 0
            invariant
                self.wf(),
                data.wf(),
                v0.precedes(self@),
                self@.receive(data.frames()) == v1.receive(parse_frames(d.d@, 0)),
            decreases data.bytes().len() - data.position(),
        {
            let ghost before = self@;
            let ghost frames = data.frames();
            match decode_frame(&mut data) {
                Ok(f) => {
                    self.step(f);
                    proof {
                        assert(frames.drop_first() =~= data.frames());
                        lemma_precedes_transitive(v0, before, self@);
                    }
                },
                Err(_) => {},
            }
        }
        let ghost v2 = self@;
        let payload = self.output(MAX_DATAGRAM_PAYLOAD);
        proof {
            lemma_precedes_transitive(v0, v2, self@);
        }
        let reply = if payload.len() > 0 {
            Some(Datagram { src: d.dst, dst: d.src, d: payload })
        } else {
            None
        };
        Ok((reply, self.deadline))
    }

    /// Takes in the bytes of one frame: see
    /// [`ConnectionView::on_frame_bytes`].
    ///
    /// Fails with [`Error::ConnectionClosed`] on a closed connection and
    /// with [`Error::MalformedFrame`] for bytes that hold no frame;
    /// neither changes anything. A frame that violates the protocol fails
    /// with the error of the violation and leaves the connection closing.
    pub fn process_input_frame(&mut self, frame: &[u8]) -> (r: Res<()>)
        requires
            old(self).wf(),
        ensures
            final(self).wf(),
            final(self)@ == old(self)@.on_frame_bytes(frame@).0,
            r == old(self)@.on_frame_bytes(frame@).1,
            old(self)@.precedes(final(self)@),
    {
        match self.state {
            State::Closed => {
                return Err(Error::ConnectionClosed);
            },
            _ => {},
        }
        let mut data = Data::from_slice(frame);
        let f = match decode_frame(&mut data) {
            Ok(f) => f,
            Err(e) => {
                return Err(e);
            },
        };
        match self.state {
            State::Closing => {
                return Ok(());
            },
            _ => {},
        }
        match self.dispatch(f) {
            Some(e) => Err(e),
            None => Ok(()),
        }
    }

    /// Stream data arrives from the peer: see
    /// [`ConnectionView::inbound_stream`].
    ///
    /// Fails with [`Error::ConnectionClosed`] on a closed connection, with
    /// [`Error::InvalidStreamId`] for a stream that was never created and
    /// that the peer cannot initiate, with
    /// [`Error::FinalSizeViolation`], [`Error::FlowControlViolation`] or
    /// [`Error::StreamDataConflict`] for data that the stream refuses. On
    /// an error nothing changes.
    pub fn process_inbound_stream_frame(
        &mut self,
        fin: bool,
        stream_id: u64,
        offset: u64,
        data: Vec<u8>,
    ) -> (r: Res<()>)
        requires
            old(self).wf(),
        ensures
            final(self).wf(),
            match old(self)@.inbound_stream(fin, stream_id, offset, data@) {
                Ok(v) => r is Ok && final(self)@ == v,
                Err(e) => r == Err::<(), Error>(e) && final(self)@ == old(self)@,
            },
            old(self)@.precedes(final(self)@),
    {
        match self.state {
            State::Closed => {
                return Err(Error::ConnectionClosed);
            },
            State::Closing => {
                return Ok(());
            },
            _ => {},
        }
        if stream_id > VARINT_MAX {
            return Err(Error::InvalidStreamId);
        }
        let ghost v0 = self@;
        let ghost st0 = v0.stream_or_fresh(stream_id);
        let (mut st, existed) = self.take_stream(stream_id);
        proof {
            st.lemma_view_wf();
            if !existed {
                assert(self@.streams =~= v0.streams);
            }
        }
        if !existed && is_local_id(self.role, stream_id) {
            return Err(Error::InvalidStreamId);
        }
        if st.read_closed() {
            self.put_stream(stream_id, st);
            proof {
                assert(self@.streams =~= v0.streams.insert(stream_id, st0));
                self.lemma_stream_put(v0, stream_id);
            }
            return Ok(());
        }
        let len: u64 = data.len() as u64;
        if offset > STREAM_MAX || len > STREAM_MAX - offset {
            if existed {
                self.put_stream(stream_id, st);
                assert(self@.streams =~= v0.streams);
            }
            return Err(Error::FinalSizeViolation);
        }
        let need: u64 = st.inbound_credit(offset + len);
        if !self.flow_rx.admits(need) {
            if existed {
                self.put_stream(stream_id, st);
                assert(self@.streams =~= v0.streams);
            }
            return Err(Error::FlowControlViolation);
        }
        match st.inbound(offset, data.as_slice(), fin) {
            Ok(()) => {},
            Err(e) => {
                if existed {
                    self.put_stream(stream_id, st);
                    assert(self@.streams =~= v0.streams);
                }
                return Err(e);
            },
        }
        let _ = self.flow_rx.consume(need);
        self.put_stream(stream_id, st);
        proof {
            lemma_stream_rx_monotonic(st0, offset as int, data@, fin);
            assert(self@.streams =~= v0.streams.insert(
                stream_id,
                st0.inbound_applied(offset as int, data@, fin),
            ));
            self.lemma_stream_put(v0, stream_id);
        }
        Ok(())
    }

    /// Hands out as many of the frames that wait to be sent as fit
    /// together in `budget` bytes, oldest first, in their wire format. A
    /// closed connection hands out nothing.
    pub fn output(&mut self, budget: usize) -> (out: Vec<u8>)
        requires
            old(self).wf(),
        ensures
            final(self).wf(),
            final(self)@ == old(self)@.emitted(budget as int).0,
            out@ == old(self)@.emitted(budget as int).1,
            out@.len() <= budget,
            old(self)@.precedes(final(self)@),
    {
        let mut out: Vec<u8> = Vec::new();
        match self.state {
            State::Closed => {
                return out;
            },
            _ => {},
        }
        let ghost q = self@.outgoing;
        let mut k: usize = 0;
        let mut done: bool = false;
        assert(q.skip(0) =~= q);
        while !done && k < self.outgoing.len()
            invariant
                self.wf(),
                self == old(self),
                q == self@.outgoing,
                q.len() == self.outgoing@.len(),
                k <= q.len(),
                out@.len() <= budget,
                out@ == frames_bytes(q.take(k as int)),
                fitting(q, budget as int) == k + fitting(q.skip(k as int), budget - out@.len()),
                done ==> fitting(q.skip(k as int), budget - out@.len()) == 0,
            decreases q.len() - k, (if done { 0int } else { 1int }),
        {
            let mut enc: Vec<u8> = encode(&self.outgoing[k]);
            if enc.len() > budget - out.len() {
                done = true;
            } else {
                proof {
                    assert(q.skip(k as int).drop_first() =~= q.skip(k + 1));
                    assert(q.take(k + 1).drop_last() =~= q.take(k as int));
                }
                out.append(&mut enc);
                k += 1;
            }
        }
        let rest = self.outgoing.split_off(k);
        self.outgoing = rest;
        proof {
            assert(self@.outgoing =~= q.skip(k as int));
            assert(self@.streams == old(self)@.streams);
        }
        out
    }

    /// Creates a stream that carries data in both directions and returns
    /// its id. The ids of one connection are handed out in increasing
    /// order, each once.
    ///
    /// A connection that is closing creates no stream; the id returned
    /// names none.
    pub fn stream_create(&mut self) -> (id: u64)
        requires
            old(self).wf(),
            old(self)@.next_stream_index < MAX_STREAM_INDEX,
        ensures
            final(self).wf(),
            id == old(self)@.next_stream_id(),
            final(self)@ == old(self)@.stream_created(),
            !old(self)@.streams.contains_key(id),
            old(self)@.precedes(final(self)@),
    {
        let id: u64 = self.next_stream_index * 4 + match self.role {
            Role::Client => 0,
            Role::Server => 1,
        };
        match self.state {
            State::Closing | State::Closed => {},
            _ => {
                let st = Stream::new(self.config.max_stream_data, self.config.peer_max_stream_data);
                proof {
                    st.lemma_view_wf();
                }
                self.streams.insert(id, st);
                self.next_stream_index = self.next_stream_index + 1;
                proof {
                    assert(self@.streams =~= old(self)@.stream_created().streams);
                }
            },
        }
        id
    }

    /// Whether a stream can still be created: the stream ids of this
    /// endpoint are not used up.
    pub fn can_create_stream(&self) -> (b: bool)
        ensures
            b == (self@.next_stream_index < MAX_STREAM_INDEX),
    {
        self.next_stream_index < MAX_STREAM_INDEX
    }

    /// Queues `data` for sending on stream `stream_id`; `fin` says that
    /// the data ends the stream.
    ///
    /// Fails with [`Error::ConnectionClosed`] on a closing connection,
    /// with [`Error::InvalidStreamId`] for a stream that does not exist or
    /// that only the peer sends on, with [`Error::StreamClosed`] where the
    /// write side is finished or was terminated, and with
    /// [`Error::FlowControlViolation`] where the data passes the credit
    /// that the peer granted to the stream or to the connection; nothing
    /// changes then. See [`ConnectionView::write_applied`].
    pub fn stream_write(&mut self, stream_id: u64, data: &[u8], fin: bool) -> (r: Res<()>)
        requires
            old(self).wf(),
        ensures
            final(self).wf(),
            match old(self)@.write_error(stream_id, data@.len() as int) {
                Some(e) => r == Err::<(), Error>(e) && final(self)@ == old(self)@,
                None => r is Ok && final(self)@ == old(self)@.write_applied(stream_id, data@, fin),
            },
            old(self)@.precedes(final(self)@),
    {
        match self.state {
            State::Closing | State::Closed => {
                return Err(Error::ConnectionClosed);
            },
            _ => {},
        }
        if !self.streams.contains_key(&stream_id) || !(is_bidi_id(stream_id) || is_local_id(
            self.role,
            stream_id,
        )) {
            return Err(Error::InvalidStreamId);
        }
        let ghost v0 = self@;
        let ghost st0 = v0.streams[stream_id];
        let (mut st, _) = self.take_stream(stream_id);
        proof {
            st.lemma_view_wf();
        }
        if st.write_closed() {
            self.put_stream(stream_id, st);
            assert(self@.streams =~= v0.streams);
            return Err(Error::StreamClosed);
        }
        let len: u64 = data.len() as u64;
        if !self.flow_tx.admits(len) {
            self.put_stream(stream_id, st);
            assert(self@.streams =~= v0.streams);
            return Err(Error::FlowControlViolation);
        }
        let (start, end) = match st.write(data, fin) {
            Ok(x) => x,
            Err(e) => {
                self.put_stream(stream_id, st);
                assert(self@.streams =~= v0.streams);
                return Err(e);
            },
        };
        proof {
            st.lemma_view_wf();
        }
        let stream_blocked: Option<u64> = if st.tx_blocked() {
            Some(st.tx_limit())
        } else {
            None
        };
        let _ = self.flow_tx.consume(len);
        self.put_stream(stream_id, st);
        proof {
            assert(self@.streams =~= v0.streams.insert(stream_id, st0.write_applied(data@, fin)));
            self.lemma_stream_put(v0, stream_id);
        }
        self.queue_frame(Frame::Stream { fin, stream_id, offset: start, data: slice_to_vec(data) });
        match stream_blocked {
            Some(limit) => {
                self.queue_frame(Frame::StreamDataBlocked { stream_id, stream_data_limit: limit });
            },
            None => {},
        }
        if self.flow_tx.blocked() {
            let limit: u64 = self.flow_tx.limit();
            self.queue_frame(Frame::DataBlocked { data_limit: limit });
        }
        Ok(())
    }

    /// Hands out the bytes of stream `stream_id` that are contiguous from
    /// where the last read ended, and drains them.
    ///
    /// Fails with [`Error::ConnectionClosed`] on a closing connection,
    /// with [`Error::InvalidStreamId`] for a stream that does not exist,
    /// and with [`Error::StreamClosed`] where nothing is left to read, now
    /// or later; nothing changes then. Reading raises the credit of the
    /// peer: see [`ConnectionView::read_applied`].
    pub fn stream_read(&mut self, stream_id: u64) -> (r: Res<Vec<u8>>)
        requires
            old(self).wf(),
        ensures
            final(self).wf(),
            match old(self)@.read_error(stream_id) {
                Some(e) => r == Err::<Vec<u8>, Error>(e) && final(self)@ == old(self)@,
                None => r matches Ok(d) && d@ == old(self)@.streams[stream_id].rx.readable
                    && final(self)@ == old(self)@.read_applied(stream_id),
            },
            old(self)@.precedes(final(self)@),
    {
        match self.state {
            State::Closing | State::Closed => {
                return Err(Error::ConnectionClosed);
            },
            _ => {},
        }
        if !self.streams.contains_key(&stream_id) {
            return Err(Error::InvalidStreamId);
        }
        let ghost v0 = self@;
        let ghost st0 = v0.streams[stream_id];
        let (mut st, _) = self.take_stream(stream_id);
        proof {
            st.lemma_view_wf();
        }
        if st.read_finished() {
            self.put_stream(stream_id, st);
            assert(self@.streams =~= v0.streams);
            return Err(Error::StreamClosed);
        }
        let (data, stream_limit) = st.read();
        proof {
            st.lemma_view_wf();
        }
        self.put_stream(stream_id, st);
        proof {
            assert(self@.streams =~= v0.streams.insert(stream_id, st0.read_applied()));
            self.lemma_stream_put(v0, stream_id);
        }
        match stream_limit {
            Some(limit) => {
                self.queue_frame(Frame::MaxStreamData { stream_id, maximum_stream_data: limit });
            },
            None => {},
        }
        let n: u64 = data.len() as u64;
        self.bytes_read = if n > VARINT_MAX - self.bytes_read {
            VARINT_MAX
        } else {
            self.bytes_read + n
        };
        let want: u64 = if self.config.max_data > VARINT_MAX - self.bytes_read {
            VARINT_MAX
        } else {
            self.bytes_read + self.config.max_data
        };
        let raised = self.flow_rx.credit_received(want);
        if raised {
            self.queue_frame(Frame::MaxData { maximum_data: want });
        }
        Ok(data)
    }

    /// Takes note that the peer acknowledged the offsets from `start` up
    /// to `end` of what was sent on stream `stream_id`. Returns whether
    /// the stream exists; where it does not, nothing changes.
    pub fn stream_acked(&mut self, stream_id: u64, start: u64, end: u64) -> (known: bool)
        requires
            old(self).wf(),
        ensures
            final(self).wf(),
            final(self)@ == old(self)@.acked(stream_id, start, end),
            known == old(self)@.streams.contains_key(stream_id),
            old(self)@.precedes(final(self)@),
    {
        if !self.streams.contains_key(&stream_id) {
            return false;
        }
        let ghost v0 = self@;
        let (mut st, _) = self.take_stream(stream_id);
        proof {
            st.lemma_view_wf();
        }
        st.mark_acked(start, end);
        proof {
            st.lemma_view_wf();
        }
        self.put_stream(stream_id, st);
        proof {
            assert(self@.streams =~= v0.streams.insert(stream_id, st@));
            self.lemma_stream_put(v0, stream_id);
        }
        true
    }

    /// The offset up to which stream `stream_id` has been made readable,
    /// where the stream exists.
    pub fn stream_next_rx_offset(&self, stream_id: u64) -> (r: Option<u64>)
        requires
            self.wf(),
        ensures
            match r {
                Some(n) => self@.streams.contains_key(stream_id)
                    && n == self@.streams[stream_id].rx.next_rx_offset,
                None => !self@.streams.contains_key(stream_id),
            },
    {
        match self.streams.get(&stream_id) {
            Some(st) => Some(st.next_rx_offset()),
            None => None,
        }
    }

    /// Whether stream `stream_id` exists and has reached the end of its
    /// life: nothing is left to read, nothing more will be written, and
    /// everything written was acknowledged.
    pub fn stream_finished(&self, stream_id: u64) -> (b: bool)
        requires
            self.wf(),
        ensures
            b == (self@.streams.contains_key(stream_id) && self@.streams[stream_id].finished()),
    {
        match self.streams.get(&stream_id) {
            Some(st) => st.finished(),
            None => false,
        }
    }

    /// Takes note that the handshake is complete. Returns whether the
    /// connection was in the handshake and is established now; in any
    /// other state nothing changes.
    pub fn handshake_complete(&mut self) -> (established: bool)
        requires
            old(self).wf(),
        ensures
            final(self).wf(),
            final(self)@ == old(self)@.handshake_completed(),
            established == (old(self)@.state == State::Handshaking),
            old(self)@.precedes(final(self)@),
    {
        match self.state {
            State::Handshaking => {
                self.state = State::Connected;
                true
            },
            _ => false,
        }
    }

    /// Queues handshake bytes for sending, behind those queued before.
    ///
    /// Fails with [`Error::ConnectionClosed`] on a closing connection and
    /// with [`Error::FinalSizeViolation`] where the handshake would pass the largest
    /// offset that a frame can carry; nothing changes then.
    pub fn crypto_write(&mut self, data: &[u8]) -> (r: Res<()>)
        requires
            old(self).wf(),
        ensures
            final(self).wf(),
            match old(self)@.crypto_error(data@.len() as int) {
                Some(e) => r == Err::<(), Error>(e) && final(self)@ == old(self)@,
                None => r is Ok && final(self)@ == old(self)@.crypto_queued(data@),
            },
            old(self)@.precedes(final(self)@),
    {
        match self.state {
            State::Closing | State::Closed => {
                return Err(Error::ConnectionClosed);
            },
            _ => {},
        }
        let len: u64 = data.len() as u64;
        if len > VARINT_MAX - self.crypto_tx_offset {
            return Err(Error::FinalSizeViolation);
        }
        let offset: u64 = self.crypto_tx_offset;
        self.crypto_tx_offset = offset + len;
        self.queue_frame(Frame::Crypto { offset, data: slice_to_vec(data) });
        Ok(())
    }

    /// Closes the connection from this end with the given code: see
    /// [`ConnectionView::closed_locally`].
    pub fn close(&mut self, error_code: u16)
        requires
            old(self).wf(),
        ensures
            final(self).wf(),
            final(self)@ == old(self)@.closed_locally(error_code, Seq::empty()),
            old(self)@.precedes(final(self)@),
    {
        match self.state {
            State::Closing | State::Closed => {},
            _ => {
                self.state = State::Closing;
                self.deadline = time_after(self.now, self.config.drain_period);
                self.close_code = Some(error_code);
                self.queue_frame(
                    Frame::ConnectionClose {
                        close_type: CloseType::Application,
                        error_code,
                        frame_type: 0,
                        reason_phrase: Vec::new(),
                    },
                );
            },
        }
    }

    /// Records a connection identifier that this endpoint issued under
    /// `seq`. Returns whether it was recorded; a sequence number that is
    /// active stays as it is.
    pub fn add_local_id(&mut self, seq: u64, id: &[u8], reset_token: [u8; 16]) -> (added: bool)
        requires
            old(self).wf(),
        ensures
            final(self).wf(),
            final(self)@ == old(self)@.with_cids(
                old(self)@.cids.local_added(seq, IdView { id: id@, reset_token: reset_token@ }),
            ),
            added == !old(self)@.cids.mine.contains_key(seq),
            old(self)@.precedes(final(self)@),
    {
        let added = self.cids.add_local_id(seq, id, reset_token);
        proof {
            self.cids.lemma_view_wf();
        }
        added
    }

    /// Retires the connection identifier that this endpoint issued under
    /// `seq`. Returns whether it was active.
    pub fn retire_local_id(&mut self, seq: u64) -> (was_active: bool)
        requires
            old(self).wf(),
        ensures
            final(self).wf(),
            final(self)@ == old(self)@.with_cids(old(self)@.cids.local_retired(seq)),
            was_active == old(self)@.cids.mine.contains_key(seq),
            old(self)@.precedes(final(self)@),
    {
        let was_active = self.cids.retire_local_id(seq);
        proof {
            self.cids.lemma_view_wf();
        }
        was_active
    }

    /// Number of active connection identifiers of this endpoint.
    pub fn active_local_ids(&self) -> (n: usize)
        requires
            self.wf(),
        ensures
            n == self@.cids.mine.dom().len(),
    {
        self.cids.active_local_ids()
    }

    /// Hands out the requests to the collaborators that have come up
    /// since the last call, oldest first.
    pub fn take_events(&mut self) -> (events: Vec<Event>)
        requires
            old(self).wf(),
        ensures
            final(self).wf(),
            events@.len() == old(self)@.events.len(),
            forall|i: int| 0 <= i < events@.len() ==> (#[trigger] events@[i])@ == old(self)@.events[i],
            final(self)@ == (ConnectionView { events: Seq::empty(), ..old(self)@ }),
    {
        let mut events: Vec<Event> = Vec::new();
        core::mem::swap(&mut self.events, &mut events);
        assert(self@.events =~= Seq::<EventView>::empty());
        events
    }

    /// Whether an acknowledgement is owed on the next outgoing datagram;
    /// asking settles the debt.
    pub fn take_ack_owed(&mut self) -> (owed: bool)
        requires
            old(self).wf(),
        ensures
            final(self).wf(),
            owed == old(self)@.ack_owed,
            final(self)@ == (ConnectionView { ack_owed: false, ..old(self)@ }),
    {
        let owed = self.ack_owed;
        self.ack_owed = false;
        owed
    }

    /// Number of frames that wait to be sent.
    pub fn pending_frames(&self) -> (n: usize)
        ensures
            n == self@.outgoing.len(),
    {
        self.outgoing.len()
    }

    /// The latest address-validation token that the peer sent, if any.
    pub fn token(&self) -> (t: Option<Vec<u8>>)
        ensures
            match t {
                Some(x) => self@.token == Some(x@),
                None => self@.token is None,
            },
    {
        match &self.token {
            Some(t) => Some(slice_to_vec(t.as_slice())),
            None => None,
        }
    }

    /// What the peer last reported of being blocked.
    pub fn blocked(&self) -> (b: Blocked)
        ensures
            b == self@.blocked,
    {
        self.blocked
    }

    /// Number of active connection identifiers of the peer.
    pub fn active_peer_ids(&self) -> (n: usize)
        requires
            self.wf(),
        ensures
            n == self@.cids.peer.dom().len(),
    {
        self.cids.active_peer_ids()
    }
}

impl Connection {
    /// Begins the handshake of a client: the first flight is asked for.
    fn client_start(&mut self)
        requires
            old(self).wf(),
            old(self)@.state == State::Init,
        ensures
            final(self).wf(),
            final(self)@ == old(self)@.timed_out(),
            old(self)@.precedes(final(self)@),
    {
        self.state = State::Handshaking;
        self.deadline = time_after(self.now, self.config.timeout);
        self.notify(Event::HandshakeStart);
    }

    /// Acts on the timer of the current state: see
    /// [`ConnectionView::timed_out`].
    fn on_timeout(&mut self)
        requires
            old(self).wf(),
        ensures
            final(self).wf(),
            final(self)@ == old(self)@.timed_out(),
            old(self)@.precedes(final(self)@),
    {
        match self.state {
            State::Init => {
                self.client_start();
            },
            State::WaitInitial => {
                self.deadline = u64::MAX;
            },
            State::Handshaking => {
                self.deadline = time_after(self.now, self.config.timeout);
                self.notify(Event::HandshakeRetry);
            },
            State::Connected => {
                self.deadline = time_after(self.now, self.config.timeout);
                self.queue_frame(Frame::Ping);
            },
            State::Closing => {
                self.state = State::Closed;
                self.deadline = u64::MAX;
            },
            State::Closed => {},
        }
    }

    /// Moves the time to `now` and acts on the timer where the deadline
    /// has passed.
    fn tick(&mut self, now: u64)
        requires
            old(self).wf(),
        ensures
            final(self).wf(),
            final(self)@ == old(self)@.tick(now),
            old(self)@.precedes(final(self)@),
    {
        let fired: bool = now > self.deadline;
        self.now = now;
        if fired {
            self.on_timeout();
        }
    }

    /// Takes in one frame of a datagram: see [`ConnectionView::step`].
    fn step(&mut self, f: Frame)
        requires
            old(self).wf(),
        ensures
            final(self).wf(),
            final(self)@ == old(self)@.step(f@),
            old(self)@.precedes(final(self)@),
    {
        match self.state {
            State::Closing | State::Closed => {
                return ;
            },
            State::WaitInitial => {
                self.state = State::Handshaking;
                self.deadline = time_after(self.now, self.config.timeout);
            },
            _ => {},
        }
        let ghost v1 = self@;
        let _ = self.dispatch(f);
        proof {
            lemma_precedes_transitive(old(self)@, v1, self@);
        }
    }

    /// Dispatches one frame: see [`ConnectionView::on_frame`].
    fn dispatch(&mut self, f: Frame) -> (e: Option<Error>)
        requires
            old(self).wf(),
            !old(self)@.closing(),
        ensures
            final(self).wf(),
            dispatched(old(self)@, f@, final(self)@, e),
            e matches Some(x) ==> x.spec_is_protocol_violation(),
    {
        let t: u8 = f.frame_type();
        match f {
            Frame::Padding => None,
            Frame::Ping => {
                self.ack_owed = true;
                assert(self@.streams == old(self)@.streams);
                None
            },
            Frame::Ack { largest_acknowledged, ack_delay, first_ack_range, ack_ranges } => {
                self.on_ack(largest_acknowledged, ack_delay, first_ack_range, ack_ranges);
                None
            },
            Frame::ResetStream { .. } => self.on_stream_control(f),
            Frame::StopSending { .. } => self.on_stream_control(f),
            Frame::Crypto { offset, data } => {
                self.on_crypto(offset, data);
                None
            },
            Frame::NewToken { token } => {
                self.on_new_token(token);
                None
            },
            Frame::Stream { fin, stream_id, offset, data } => self.on_stream(
                t,
                fin,
                stream_id,
                offset,
                data,
            ),
            Frame::MaxData { .. } => {
                self.on_limits(f);
                None
            },
            Frame::MaxStreamData { .. } => self.on_stream_control(f),
            Frame::MaxStreams { .. } => {
                self.on_limits(f);
                None
            },
            Frame::DataBlocked { .. } => {
                self.on_limits(f);
                None
            },
            Frame::StreamDataBlocked { .. } => {
                self.on_limits(f);
                None
            },
            Frame::StreamsBlocked { .. } => {
                self.on_limits(f);
                None
            },
            Frame::NewConnectionId { sequence_number, connection_id, stateless_reset_token } => {
                self.on_new_connection_id(sequence_number, connection_id, stateless_reset_token)
            },
            Frame::RetireConnectionId { sequence_number } => {
                self.on_retire_connection_id(sequence_number);
                None
            },
            Frame::PathChallenge { data } => {
                self.on_path_challenge(data);
                None
            },
            Frame::PathResponse { data } => None,
            Frame::ConnectionClose { .. } => {
                self.on_connection_close();
                None
            },
        }
    }

    /// Hands an acknowledgement to loss recovery.
    fn on_ack(
        &mut self,
        largest_acknowledged: u64,
        ack_delay: u64,
        first_ack_range: u64,
        ack_ranges: Vec<AckRange>,
    )
        requires
            old(self).wf(),
        ensures
            final(self).wf(),
            dispatched(
                old(self)@,
                FrameView::Ack {
                    largest_acknowledged,
                    ack_delay,
                    first_ack_range,
                    ack_ranges: ack_ranges@,
                },
                final(self)@,
                None,
            ),
    {
        self.notify(Event::Acked { largest_acknowledged, ack_delay, first_ack_range, ack_ranges });
    }

    /// Hands handshake bytes to the handshake collaborator.
    fn on_crypto(&mut self, offset: u64, data: Vec<u8>)
        requires
            old(self).wf(),
        ensures
            final(self).wf(),
            dispatched(old(self)@, FrameView::Crypto { offset, data: data@ }, final(self)@, None),
    {
        self.notify(Event::Crypto { offset, data });
    }

    /// Stores the token of the peer.
    fn on_new_token(&mut self, token: Vec<u8>)
        requires
            old(self).wf(),
        ensures
            final(self).wf(),
            dispatched(old(self)@, FrameView::NewToken { token: token@ }, final(self)@, None),
    {
        self.token = Some(token);
    }

    /// Dispatches a frame that ends or extends one side of a stream.
    fn on_stream_control(&mut self, f: Frame) -> (e: Option<Error>)
        requires
            old(self).wf(),
            f is ResetStream || f is StopSending || f is MaxStreamData,
        ensures
            final(self).wf(),
            dispatched(old(self)@, f@, final(self)@, e),
            e matches Some(x) ==> x.spec_is_protocol_violation(),
    {
        let t: u8 = f.frame_type();
        let admitted = match f {
            Frame::ResetStream { stream_id, application_error_code, final_size } => {
                self.on_reset_stream(stream_id)
            },
            Frame::StopSending { stream_id, application_error_code } => self.on_stop_sending(
                stream_id,
            ),
            Frame::MaxStreamData { stream_id, maximum_stream_data } => self.on_max_stream_data(
                stream_id,
                maximum_stream_data,
            ),
            _ => true,
        };
        if admitted {
            None
        } else {
            self.violate(Error::InvalidStreamId, t);
            Some(Error::InvalidStreamId)
        }
    }

    /// Terminates the read side of stream `id`, where the peer may refer
    /// to it. Returns whether it may.
    fn on_reset_stream(&mut self, id: u64) -> (admitted: bool)
        requires
            old(self).wf(),
        ensures
            final(self).wf(),
            admitted == old(self)@.admits_recv(id),
            admitted ==> final(self)@ == (ConnectionView {
                streams: old(self)@.streams.insert(
                    id,
                    StreamView { read_closed: true, ..old(self)@.stream_or_fresh(id) },
                ),
                ..old(self)@
            }),
            !admitted ==> final(self)@ == old(self)@,
            old(self)@.precedes(final(self)@),
    {
        if !self.admits_recv(id) {
            return false;
        }
        let ghost v0 = self@;
        let (mut st, _) = self.take_stream(id);
        st.reset_read();
        proof {
            st.lemma_view_wf();
        }
        self.put_stream(id, st);
        proof {
            assert(self@.streams =~= v0.streams.insert(id, st@));
            self.lemma_stream_put(v0, id);
        }
        true
    }

    /// Terminates the write side of stream `id`, where the peer may refer
    /// to it. Returns whether it may.
    fn on_stop_sending(&mut self, id: u64) -> (admitted: bool)
        requires
            old(self).wf(),
        ensures
            final(self).wf(),
            admitted == old(self)@.admits_send(id),
            admitted ==> final(self)@ == (ConnectionView {
                streams: old(self)@.streams.insert(
                    id,
                    StreamView { write_closed: true, ..old(self)@.stream_or_fresh(id) },
                ),
                ..old(self)@
            }),
            !admitted ==> final(self)@ == old(self)@,
            old(self)@.precedes(final(self)@),
    {
        if !self.admits_send(id) {
            return false;
        }
        let ghost v0 = self@;
        let (mut st, _) = self.take_stream(id);
        st.stop_sending();
        proof {
            st.lemma_view_wf();
        }
        self.put_stream(id, st);
        proof {
            assert(self@.streams =~= v0.streams.insert(id, st@));
            self.lemma_stream_put(v0, id);
        }
        true
    }

    /// Raises the send limit of stream `id`, where the peer may refer to
    /// it. Returns whether it may.
    fn on_max_stream_data(&mut self, id: u64, limit: u64) -> (admitted: bool)
        requires
            old(self).wf(),
        ensures
            final(self).wf(),
            admitted == old(self)@.admits_send(id),
            admitted ==> final(self)@ == (ConnectionView {
                streams: old(self)@.streams.insert(
                    id,
                    old(self)@.stream_or_fresh(id).credited(limit as int),
                ),
                ..old(self)@
            }),
            !admitted ==> final(self)@ == old(self)@,
            old(self)@.precedes(final(self)@),
    {
        if !self.admits_send(id) {
            return false;
        }
        let ghost v0 = self@;
        let (mut st, _) = self.take_stream(id);
        proof {
            st.lemma_view_wf();
        }
        let _ = st.credit_received(limit);
        proof {
            st.lemma_view_wf();
        }
        self.put_stream(id, st);
        proof {
            assert(self@.streams =~= v0.streams.insert(id, st@));
            self.lemma_stream_put(v0, id);
        }
        true
    }

    /// Dispatches stream data; `t` is the type byte of its frame.
    fn on_stream(&mut self, t: u8, fin: bool, stream_id: u64, offset: u64, data: Vec<u8>) -> (e:
        Option<Error>)
        requires
            old(self).wf(),
            !old(self)@.closing(),
            t == frame_bytes(FrameView::Stream { fin, stream_id, offset, data: data@ })[0],
        ensures
            final(self).wf(),
            dispatched(
                old(self)@,
                FrameView::Stream { fin, stream_id, offset, data: data@ },
                final(self)@,
                e,
            ),
            e matches Some(x) ==> x.spec_is_protocol_violation(),
    {
        match self.process_inbound_stream_frame(fin, stream_id, offset, data) {
            Ok(()) => None,
            Err(e) => {
                self.violate(e, t);
                Some(e)
            },
        }
    }

    /// Dispatches a frame that raises a limit or reports being blocked.
    fn on_limits(&mut self, f: Frame)
        requires
            old(self).wf(),
            f is MaxData || f is MaxStreams || f is DataBlocked || f is StreamDataBlocked || f
                is StreamsBlocked,
        ensures
            final(self).wf(),
            dispatched(old(self)@, f@, final(self)@, None),
    {
        match f {
            Frame::MaxData { maximum_data } => {
                let _ = self.flow_tx.credit_received(capped(maximum_data));
            },
            Frame::MaxStreams { stream_type, maximum_streams } => {
                match stream_type {
                    StreamType::BiDi => {
                        if maximum_streams > self.max_streams_bidi {
                            self.max_streams_bidi = maximum_streams;
                        }
                    },
                    StreamType::UniDi => {
                        if maximum_streams > self.max_streams_uni {
                            self.max_streams_uni = maximum_streams;
                        }
                    },
                }
            },
            Frame::DataBlocked { data_limit } => {
                self.blocked.data = Some(data_limit);
            },
            Frame::StreamDataBlocked { stream_id, stream_data_limit } => {
                self.blocked.stream_data = Some((stream_id, stream_data_limit));
            },
            Frame::StreamsBlocked { stream_type, stream_limit } => {
                self.blocked.streams = Some((stream_type, stream_limit));
            },
            _ => {},
        }
        assert(self@.streams == old(self)@.streams);
    }

    /// Dispatches a connection identifier that the peer issued.
    fn on_new_connection_id(
        &mut self,
        sequence_number: u64,
        connection_id: Vec<u8>,
        stateless_reset_token: [u8; 16],
    ) -> (e: Option<Error>)
        requires
            old(self).wf(),
        ensures
            final(self).wf(),
            dispatched(
                old(self)@,
                FrameView::NewConnectionId {
                    sequence_number,
                    connection_id: connection_id@,
                    stateless_reset_token: stateless_reset_token@,
                },
                final(self)@,
                e,
            ),
            e matches Some(x) ==> x.spec_is_protocol_violation(),
    {
        proof {
            let entry = IdView { id: connection_id@, reset_token: stateless_reset_token@ };
            self.cids.lemma_view_wf();
            if self.cids@.add_peer_error(sequence_number, entry) is None {
                lemma_peer_added_wf(self.cids@, sequence_number, entry);
            }
        }
        match self.cids.add_peer_id(sequence_number, connection_id.as_slice(), stateless_reset_token) {
            Ok(()) => {
                assert(self@.streams == old(self)@.streams);
                None
            },
            Err(e) => {
                self.violate(e, FRAME_TYPE_NEW_CONNECTION_ID);
                Some(e)
            },
        }
    }

    /// Dispatches the retirement of a connection identifier.
    fn on_retire_connection_id(&mut self, sequence_number: u64)
        requires
            old(self).wf(),
        ensures
            final(self).wf(),
            dispatched(
                old(self)@,
                FrameView::RetireConnectionId { sequence_number },
                final(self)@,
                None,
            ),
    {
        let _ = self.cids.retire_peer_id(sequence_number);
        proof {
            self.cids.lemma_view_wf();
        }
    }

    /// Answers a path challenge.
    fn on_path_challenge(&mut self, data: [u8; 8])
        requires
            old(self).wf(),
        ensures
            final(self).wf(),
            dispatched(old(self)@, FrameView::PathChallenge { data: data@ }, final(self)@, None),
    {
        self.queue_frame(Frame::PathResponse { data });
    }

    /// Dispatches a closing frame of the peer.
    fn on_connection_close(&mut self)
        requires
            old(self).wf(),
        ensures
            final(self).wf(),
            forall|f: FrameView| f is ConnectionClose ==> dispatched(old(self)@, f, final(self)@, None),
    {
        self.state = State::Closing;
        self.deadline = time_after(self.now, self.config.drain_period);
    }

    /// Closes the connection for a violation of the protocol by a frame
    /// of the given type.
    fn violate(&mut self, e: Error, frame_type: u8)
        requires
            old(self).wf(),
        ensures
            final(self).wf(),
            final(self)@ == old(self)@.closed_for(e, frame_type),
            old(self)@.precedes(final(self)@),
    {
        self.state = State::Closing;
        self.deadline = time_after(self.now, self.config.drain_period);
        self.close_code = Some(e.code());
        self.queue_frame(
            Frame::ConnectionClose {
                close_type: CloseType::Transport,
                error_code: e.code(),
                frame_type: frame_type as u64,
                reason_phrase: Vec::new(),
            },
        );
    }

    /// Whether the peer may refer to the receive side of stream `id`.
    fn admits_recv(&self, id: u64) -> (b: bool)
        requires
            self.wf(),
        ensures
            b == self@.admits_recv(id),
    {
        id <= VARINT_MAX && (self.streams.contains_key(&id) || !is_local_id(self.role, id))
    }

    /// Whether the peer may refer to the send side of stream `id`.
    fn admits_send(&self, id: u64) -> (b: bool)
        requires
            self.wf(),
        ensures
            b == self@.admits_send(id),
    {
        self.admits_recv(id) && (is_bidi_id(id) || is_local_id(self.role, id))
    }

    /// Takes stream `id` out of the map, or makes a fresh one where the
    /// map holds none.
    fn take_stream(&mut self, id: u64) -> (r: (Stream, bool))
        requires
            old(self).wf(),
        ensures
            r.0.wf(),
            r.0@ == old(self)@.stream_or_fresh(id),
            r.1 == old(self)@.streams.contains_key(id),
            final(self).streams@ == old(self).streams@.remove(id),
            final(self)@ == (ConnectionView {
                streams: old(self)@.streams.remove(id),
                ..old(self)@
            }),
            final(self).cids == old(self).cids,
    {
        proof {
            lemma_streams_insert(self.streams@, id, arbitrary());
        }
        match self.streams.remove(&id) {
            Some(st) => (st, true),
            None => {
                let st = Stream::new(self.config.max_stream_data, self.config.peer_max_stream_data);
                (st, false)
            },
        }
    }

    /// Puts stream `id` into the map.
    fn put_stream(&mut self, id: u64, st: Stream)
        requires
            st.wf(),
            streams_ok(old(self).streams@),
        ensures
            streams_ok(final(self).streams@),
            final(self).streams@ == old(self).streams@.insert(id, st),
            final(self)@ == (ConnectionView {
                streams: old(self)@.streams.insert(id, st@),
                ..old(self)@
            }),
            final(self).cids == old(self).cids,
    {
        proof {
            lemma_streams_insert(self.streams@, id, st);
        }
        self.streams.insert(id, st);
    }

    /// After stream `id` of a well-formed connection was replaced by a
    /// well-formed stream that the peer may refer to, the connection is
    /// well-formed.
    proof fn lemma_stream_put(&self, v0: ConnectionView, id: u64)
        requires
            v0.wf(),
            v0.admits_recv(id),
            streams_ok(self.streams@),
            self.cids.wf(),
            self@.streams.contains_key(id),
            self@.streams[id].wf(),
            self@.streams == v0.streams.insert(id, self@.streams[id]),
            self@.flow_rx.wf(),
            self@.flow_rx.limit == v0.flow_rx.limit,
            self@.flow_tx.wf(),
            self@.flow_tx.limit == v0.flow_tx.limit,
            self@ == (ConnectionView {
                streams: self@.streams,
                flow_rx: self@.flow_rx,
                flow_tx: self@.flow_tx,
                ..v0
            }),
        ensures
            self.wf(),
    {
    }

    /// Puts a frame behind those that wait to be sent.
    fn queue_frame(&mut self, f: Frame)
        requires
            old(self).wf(),
            f@.wf(),
        ensures
            final(self).wf(),
            final(self)@ == (ConnectionView {
                outgoing: old(self)@.outgoing.push(f@),
                ..old(self)@
            }),
    {
        proof {
            lemma_frames_push(self.outgoing@, f);
        }
        self.outgoing.push(f);
    }

    /// Puts a request to a collaborator behind those that wait to be taken.
    fn notify(&mut self, e: Event)
        requires
            old(self).wf(),
        ensures
            final(self).wf(),
            final(self)@ == (ConnectionView { events: old(self)@.events.push(e@), ..old(self)@ }),
    {
        proof {
            lemma_events_push(self.events@, e);
        }
        self.events.push(e);
    }
}

} // verus!
