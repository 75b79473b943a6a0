//! The model of a connection: its mathematical state and what each input
//! makes of it.

use vstd::prelude::*;
use crate::cid::IdView;
use crate::cid::TableView;
use crate::codec_laws::lemma_parse_frames_bytes;
use crate::connection::Blocked;
use crate::connection::Config;
use crate::connection::EventView;
use crate::connection::MAX_DATAGRAM_PAYLOAD;
use crate::connection::Role;
use crate::connection::State;
use crate::connection::cap;
use crate::connection::later;
use crate::error::Error;
use crate::flow::FlowView;
use crate::frame::CloseType;
use crate::frame::FrameView;
use crate::frame::StreamType;
use crate::frame::frame_bytes;
use crate::frame::frames_bytes;
use crate::frame::frames_wf;
use crate::frame::parse_frame;
use crate::frame::parse_frames;
use crate::reassembly::STREAM_MAX;
use crate::stream::StreamView;
use crate::varint::VARINT_MAX;

verus! {

/// Number of streams that one endpoint can initiate in one direction.
pub const MAX_STREAM_INDEX: u64 = 0x1000_0000_0000_0000;

/// Whether the stream carries data in both directions.
pub open spec fn is_bidi(id: u64) -> bool {
    (id / 2) % 2 == 0
}

/// Whether the endpoint of the given role initiates the stream.
pub open spec fn is_local(role: Role, id: u64) -> bool {
    (id % 2 == 1) == (role == Role::Server)
}

/// The bidirectional stream with the given index among those that the
/// endpoint of the given role initiates.
pub open spec fn local_stream_id(role: Role, index: u64) -> int {
    index * 4 + if role == Role::Server {
        1int
    } else {
        0int
    }
}

/// The number of leading frames of `frames` that fit together in `budget` bytes.
pub open spec fn fitting(frames: Seq<FrameView>, budget: int) -> nat
    decreases frames.len(),
{
    if frames.len() == 0 || frame_bytes(frames[0]).len() > budget {
        0
    } else {
        1 + fitting(frames.drop_first(), budget - frame_bytes(frames[0]).len())
    }
}

/// The mathematical state of a connection.
pub struct ConnectionView {
    pub role: Role,
    pub state: State,
    /// The time of the latest input.
    pub now: u64,
    /// The time after which the timer of the current state fires.
    pub deadline: u64,
    pub config: Config,
    /// Bytes received over all streams, against the credit granted to the peer.
    pub flow_rx: FlowView,
    /// Bytes queued over all streams, against the credit granted by the peer.
    pub flow_tx: FlowView,
    /// Bytes that the application has read over all streams.
    pub bytes_read: u64,
    /// Bidirectional streams that the peer allows this endpoint to initiate.
    pub max_streams_bidi: u64,
    /// Unidirectional streams that the peer allows this endpoint to initiate.
    pub max_streams_uni: u64,
    pub cids: TableView,
    /// Index of the next stream that this endpoint initiates.
    pub next_stream_index: u64,
    pub streams: Map<u64, StreamView>,
    /// Frames that wait to be sent, oldest first.
    pub outgoing: Seq<FrameView>,
    /// Requests to the collaborators that wait to be taken, oldest first.
    pub events: Seq<EventView>,
    /// An acknowledgement is owed on the next outgoing datagram.
    pub ack_owed: bool,
    /// The latest address-validation token of the peer.
    pub token: Option<Seq<u8>>,
    /// The error code with which the connection was closed.
    pub close_code: Option<u16>,
    /// Number of handshake bytes queued for sending.
    pub crypto_tx_offset: u64,
    pub blocked: Blocked,
}

impl ConnectionView {
    /// A connection of the given role on which nothing happened. A client
    /// is due to start at once; a server waits without a deadline.
    pub open spec fn fresh(role: Role, config: Config) -> ConnectionView {
        let c = config.spec_capped();
        ConnectionView {
            role,
            state: if role == Role::Client {
                State::Init
            } else {
                State::WaitInitial
            },
            now: 0,
            deadline: if role == Role::Client {
                0
            } else {
                u64::MAX
            },
            config: c,
            flow_rx: FlowView { consumed: 0, limit: c.max_data as int },
            flow_tx: FlowView { consumed: 0, limit: c.peer_max_data as int },
            bytes_read: 0,
            max_streams_bidi: 0,
            max_streams_uni: 0,
            cids: TableView::empty(c.active_connection_id_limit as nat),
            next_stream_index: 0,
            streams: Map::empty(),
            outgoing: Seq::empty(),
            events: Seq::empty(),
            ack_owed: false,
            token: None,
            close_code: None,
            crypto_tx_offset: 0,
            blocked: Blocked { data: None, stream_data: None, streams: None },
        }
    }

    /// The invariant of the model: the parts are well-formed, no limit is
    /// beyond what a frame can carry, every stream that this endpoint
    /// initiated has an index below the next one, and every frame that
    /// waits to be sent can be written to the wire.
    pub open spec fn wf(self) -> bool {
        &&& self.config == self.config.spec_capped()
        &&& self.flow_rx.wf()
        &&& self.flow_rx.limit <= VARINT_MAX
        &&& self.flow_tx.wf()
        &&& self.flow_tx.limit <= VARINT_MAX
        &&& self.cids.wf()
        &&& self.next_stream_index <= MAX_STREAM_INDEX
        &&& self.crypto_tx_offset <= VARINT_MAX
        &&& self.bytes_read <= VARINT_MAX
        &&& forall|id: u64| #[trigger]
            self.streams.contains_key(id) ==> {
                &&& id <= VARINT_MAX
                &&& self.streams[id].wf()
                &&& is_local(self.role, id) ==> is_bidi(id) && id / 4 < self.next_stream_index
            }
        &&& frames_wf(self.outgoing)
    }

    /// Whether the connection is closing or closed.
    pub open spec fn closing(self) -> bool {
        self.state == State::Closing || self.state == State::Closed
    }

    /// The stream that a newly created stream starts as.
    pub open spec fn fresh_stream(self) -> StreamView {
        StreamView::fresh(
            self.config.max_stream_data as int,
            self.config.peer_max_stream_data as int,
        )
    }

    /// The id of the next stream that this endpoint initiates.
    pub open spec fn next_stream_id(self) -> int {
        local_stream_id(self.role, self.next_stream_index)
    }

    /// The state after the application asked for a new stream. A closing
    /// connection creates none.
    pub open spec fn stream_created(self) -> ConnectionView {
        if self.closing() {
            self
        } else {
            ConnectionView {
                streams: self.streams.insert(self.next_stream_id() as u64, self.fresh_stream()),
                next_stream_index: (self.next_stream_index + 1) as u64,
                ..self
            }
        }
    }

    /// Whether the peer may refer to the receive side of stream `id`: the
    /// stream exists, or the peer initiates it.
    pub open spec fn admits_recv(self, id: u64) -> bool {
        id <= VARINT_MAX && (self.streams.contains_key(id) || !is_local(self.role, id))
    }

    /// Whether the peer may refer to the send side of stream `id`: as for
    /// the receive side, but not on a stream that only the peer sends on.
    pub open spec fn admits_send(self, id: u64) -> bool {
        self.admits_recv(id) && (is_bidi(id) || is_local(self.role, id))
    }

    /// The stream `id`, or a fresh one where the peer names it first.
    pub open spec fn stream_or_fresh(self, id: u64) -> StreamView {
        if self.streams.contains_key(id) {
            self.streams[id]
        } else {
            self.fresh_stream()
        }
    }

    /// Stream data arrives from the peer.
    ///
    /// A closed connection reports so and a closing one ignores the data.
    /// A stream that was never created and that the peer cannot initiate
    /// is invalid. Data on a stream whose read side was terminated is
    /// discarded. Any other data is charged to the budgets of the stream
    /// and of the connection and inserted; out-of-order and empty ranges
    /// are accepted like any other. On an error nothing changes.
    pub open spec fn inbound_stream(self, fin: bool, id: u64, offset: u64, data: Seq<u8>) -> Result<
        ConnectionView,
        Error,
    > {
        let st = self.stream_or_fresh(id);
        let end = offset + data.len();
        if self.state == State::Closed {
            Err(Error::ConnectionClosed)
        } else if self.state == State::Closing {
            Ok(self)
        } else if !self.admits_recv(id) {
            Err(Error::InvalidStreamId)
        } else if st.read_closed {
            Ok(ConnectionView { streams: self.streams.insert(id, st), ..self })
        } else if end > STREAM_MAX {
            Err(Error::FinalSizeViolation)
        } else if !self.flow_rx.admits(st.inbound_credit(end)) {
            Err(Error::FlowControlViolation)
        } else {
            match st.inbound_error(offset as int, data, fin) {
                Some(e) => Err(e),
                None => Ok(
                    ConnectionView {
                        streams: self.streams.insert(
                            id,
                            st.inbound_applied(offset as int, data, fin),
                        ),
                        flow_rx: FlowView {
                            consumed: self.flow_rx.consumed + st.inbound_credit(end),
                            ..self.flow_rx
                        },
                        ..self
                    },
                ),
            }
        }
    }

    /// The state after the peer violated the protocol with frame `f`: the
    /// connection is closing, and a closing frame with the code of the
    /// error and the type of the offending frame waits to be sent.
    pub open spec fn violated(self, e: Error, f: FrameView) -> ConnectionView {
        self.closed_for(e, frame_bytes(f)[0])
    }

    /// The state after the peer violated the protocol with a frame of the
    /// given type.
    pub open spec fn closed_for(self, e: Error, frame_type: u8) -> ConnectionView {
        ConnectionView {
            state: State::Closing,
            deadline: later(self.now, self.config.drain_period),
            close_code: Some(e.spec_code()),
            outgoing: self.outgoing.push(
                FrameView::ConnectionClose {
                    close_type: CloseType::Transport,
                    error_code: e.spec_code(),
                    frame_type: frame_type as u64,
                    reason_phrase: Seq::empty(),
                },
            ),
            ..self
        }
    }

    /// What a frame does to a connection that is not closing, and the
    /// error that it raises, if any. Every error that a frame raises is a
    /// violation of the protocol and leaves the connection closing.
    ///
    /// - Padding changes nothing; a ping makes an acknowledgement owed.
    /// - An acknowledgement is handed to loss recovery as it stands. What
    ///   it means for the streams comes back from there, range by range
    ///   and in the order of the calls ([`ConnectionView::acked`]);
    ///   nothing else follows from it here.
    /// - A reset terminates the read side of its stream, a request to stop
    ///   sending the write side.
    /// - Handshake bytes are handed to the handshake collaborator with
    ///   their offset, as they stand.
    /// - A token replaces the one stored before.
    /// - Stream data goes the way of [`ConnectionView::inbound_stream`].
    /// - Limits raise the credit for sending, of the connection or of a
    ///   stream, or the number of streams that may be initiated; a limit
    ///   below the current one is ignored.
    /// - Reports of being blocked are recorded, the latest of each kind,
    ///   and change no budget.
    /// - A new connection identifier enters the table and the retirement
    ///   of one leaves it ([`TableView::add_peer_id`],
    ///   [`TableView::peer_retired`]).
    /// - A path challenge is answered by a path response with the same
    ///   data; a path response is ignored, since no challenge is ever sent.
    /// - A closing frame leaves the connection closing.
    pub open spec fn on_frame(self, f: FrameView) -> (ConnectionView, Option<Error>) {
        match f {
            FrameView::Padding => (self, None),
            FrameView::Ping => (ConnectionView { ack_owed: true, ..self }, None),
            FrameView::Ack { largest_acknowledged, ack_delay, first_ack_range, ack_ranges } => (
                ConnectionView {
                    events: self.events.push(
                        EventView::Acked {
                            largest_acknowledged,
                            ack_delay,
                            first_ack_range,
                            ack_ranges,
                        },
                    ),
                    ..self
                },
                None,
            ),
            FrameView::ResetStream { stream_id, application_error_code, final_size } => {
                if self.admits_recv(stream_id) {
                    (
                        ConnectionView {
                            streams: self.streams.insert(
                                stream_id,
                                StreamView { read_closed: true, ..self.stream_or_fresh(stream_id) },
                            ),
                            ..self
                        },
                        None,
                    )
                } else {
                    (self.violated(Error::InvalidStreamId, f), Some(Error::InvalidStreamId))
                }
            },
            FrameView::StopSending { stream_id, application_error_code } => {
                if self.admits_send(stream_id) {
                    (
                        ConnectionView {
                            streams: self.streams.insert(
                                stream_id,
                                StreamView { write_closed: true, ..self.stream_or_fresh(stream_id) },
                            ),
                            ..self
                        },
                        None,
                    )
                } else {
                    (self.violated(Error::InvalidStreamId, f), Some(Error::InvalidStreamId))
                }
            },
            FrameView::Crypto { offset, data } => (
                ConnectionView { events: self.events.push(EventView::Crypto { offset, data }), ..self },
                None,
            ),
            FrameView::NewToken { token } => (ConnectionView { token: Some(token), ..self }, None),
            FrameView::Stream { fin, stream_id, offset, data } => {
                match self.inbound_stream(fin, stream_id, offset, data) {
                    Ok(v) => (v, None),
                    Err(e) => (self.violated(e, f), Some(e)),
                }
            },
            FrameView::MaxData { maximum_data } => (
                ConnectionView { flow_tx: self.flow_tx.credit(cap(maximum_data) as int), ..self },
                None,
            ),
            FrameView::MaxStreamData { stream_id, maximum_stream_data } => {
                if self.admits_send(stream_id) {
                    (
                        ConnectionView {
                            streams: self.streams.insert(
                                stream_id,
                                self.stream_or_fresh(stream_id).credited(maximum_stream_data as int),
                            ),
                            ..self
                        },
                        None,
                    )
                } else {
                    (self.violated(Error::InvalidStreamId, f), Some(Error::InvalidStreamId))
                }
            },
            FrameView::MaxStreams { stream_type, maximum_streams } => {
                if stream_type == StreamType::BiDi {
                    (
                        ConnectionView {
                            max_streams_bidi: if maximum_streams > self.max_streams_bidi {
                                maximum_streams
                            } else {
                                self.max_streams_bidi
                            },
                            ..self
                        },
                        None,
                    )
                } else {
                    (
                        ConnectionView {
                            max_streams_uni: if maximum_streams > self.max_streams_uni {
                                maximum_streams
                            } else {
                                self.max_streams_uni
                            },
                            ..self
                        },
                        None,
                    )
                }
            },
            FrameView::DataBlocked { data_limit } => (
                ConnectionView {
                    blocked: Blocked { data: Some(data_limit), ..self.blocked },
                    ..self
                },
                None,
            ),
            FrameView::StreamDataBlocked { stream_id, stream_data_limit } => (
                ConnectionView {
                    blocked: Blocked {
                        stream_data: Some((stream_id, stream_data_limit)),
                        ..self.blocked
                    },
                    ..self
                },
                None,
            ),
            FrameView::StreamsBlocked { stream_type, stream_limit } => (
                ConnectionView {
                    blocked: Blocked { streams: Some((stream_type, stream_limit)), ..self.blocked },
                    ..self
                },
                None,
            ),
            FrameView::NewConnectionId { sequence_number, connection_id, stateless_reset_token } => {
                match self.cids.add_peer_id(
                    sequence_number,
                    IdView { id: connection_id, reset_token: stateless_reset_token },
                ) {
                    Ok(t) => (ConnectionView { cids: t, ..self }, None),
                    Err(e) => (self.violated(e, f), Some(e)),
                }
            },
            FrameView::RetireConnectionId { sequence_number } => (
                ConnectionView { cids: self.cids.peer_retired(sequence_number), ..self },
                None,
            ),
            FrameView::PathChallenge { data } => (
                ConnectionView {
                    outgoing: self.outgoing.push(FrameView::PathResponse { data }),
                    ..self
                },
                None,
            ),
            FrameView::PathResponse { data } => (self, None),
            FrameView::ConnectionClose { close_type, error_code, frame_type, reason_phrase } => (
                ConnectionView {
                    state: State::Closing,
                    deadline: later(self.now, self.config.drain_period),
                    ..self
                },
                None,
            ),
        }
    }

    /// What the bytes of one frame do to the connection, and the outcome.
    ///
    /// A closed connection reports so. Bytes that hold no frame are
    /// malformed and change nothing. A closing connection ignores the
    /// frame. Bytes behind the first frame are not looked at.
    pub open spec fn on_frame_bytes(self, bytes: Seq<u8>) -> (ConnectionView, Result<(), Error>) {
        if self.state == State::Closed {
            (self, Err(Error::ConnectionClosed))
        } else {
            match parse_frame(bytes, 0) {
                None => (self, Err(Error::MalformedFrame)),
                Some((f, n)) => {
                    if self.state == State::Closing {
                        (self, Ok(()))
                    } else {
                        match self.on_frame(f).1 {
                            Some(e) => (self.on_frame(f).0, Err(e)),
                            None => (self.on_frame(f).0, Ok(())),
                        }
                    }
                },
            }
        }
    }

    /// The state after the first datagram arrived at a waiting server.
    pub open spec fn started(self) -> ConnectionView {
        if self.state == State::WaitInitial {
            ConnectionView {
                state: State::Handshaking,
                deadline: later(self.now, self.config.timeout),
                ..self
            }
        } else {
            self
        }
    }

    /// What one frame of a datagram does: nothing to a closing
    /// connection; else it starts a waiting server and is dispatched.
    pub open spec fn step(self, f: FrameView) -> ConnectionView {
        if self.closing() {
            self
        } else {
            self.started().on_frame(f).0
        }
    }

    /// What the frames of a datagram do, one after the other.
    pub open spec fn receive(self, frames: Seq<FrameView>) -> ConnectionView
        decreases frames.len(),
    {
        if frames.len() == 0 {
            self
        } else {
            self.step(frames[0]).receive(frames.drop_first())
        }
    }

    /// What the timer does when it fires, state by state: a client that
    /// has not started begins the handshake; a waiting server goes on
    /// waiting, without a deadline; a handshake in progress sends its
    /// flight again; an established connection probes the peer; a closing
    /// connection is closed.
    pub open spec fn timed_out(self) -> ConnectionView {
        match self.state {
            State::Init => ConnectionView {
                state: State::Handshaking,
                events: self.events.push(EventView::HandshakeStart),
                deadline: later(self.now, self.config.timeout),
                ..self
            },
            State::WaitInitial => ConnectionView { deadline: u64::MAX, ..self },
            State::Handshaking => ConnectionView {
                events: self.events.push(EventView::HandshakeRetry),
                deadline: later(self.now, self.config.timeout),
                ..self
            },
            State::Connected => ConnectionView {
                outgoing: self.outgoing.push(FrameView::Ping),
                deadline: later(self.now, self.config.timeout),
                ..self
            },
            State::Closing => ConnectionView { state: State::Closed, deadline: u64::MAX, ..self },
            State::Closed => self,
        }
    }

    /// The state at time `now`: the timer fires where the deadline has passed.
    pub open spec fn tick(self, now: u64) -> ConnectionView {
        let s = ConnectionView { now, ..self };
        if now > self.deadline {
            s.timed_out()
        } else {
            s
        }
    }

    /// The state after as many of the waiting frames as fit in `budget`
    /// bytes were handed out, with their wire format. A closed connection
    /// hands out nothing.
    pub open spec fn emitted(self, budget: int) -> (ConnectionView, Seq<u8>) {
        if self.state == State::Closed {
            (self, Seq::empty())
        } else {
            let k = fitting(self.outgoing, budget) as int;
            (
                ConnectionView { outgoing: self.outgoing.skip(k), ..self },
                frames_bytes(self.outgoing.take(k)),
            )
        }
    }

    /// What a datagram that arrives at time `now` does, and the outcome:
    /// the payload of the datagram to send in return, if any, and the
    /// next deadline. A closed connection reports so and changes nothing.
    pub open spec fn input(self, payload: Seq<u8>, now: u64) -> (
        ConnectionView,
        Result<(Option<Seq<u8>>, u64), Error>,
    ) {
        if self.state == State::Closed {
            (self, Err(Error::ConnectionClosed))
        } else {
            let s = self.tick(now).receive(parse_frames(payload, 0));
            let (t, bytes) = s.emitted(MAX_DATAGRAM_PAYLOAD as int);
            (
                t,
                Ok(
                    (
                        if bytes.len() > 0 {
                            Some(bytes)
                        } else {
                            None
                        },
                        t.deadline,
                    ),
                ),
            )
        }
    }

    /// The error, if any, with which the application cannot read stream `id`.
    pub open spec fn read_error(self, id: u64) -> Option<Error> {
        if self.closing() {
            Some(Error::ConnectionClosed)
        } else if !self.streams.contains_key(id) {
            Some(Error::InvalidStreamId)
        } else if self.streams[id].read_finished() {
            Some(Error::StreamClosed)
        } else {
            None
        }
    }

    /// The connection limit to which the credit of the peer is raised
    /// once `n` more bytes are read.
    pub open spec fn read_limit(self, n: int) -> int {
        let read = if self.bytes_read + n > VARINT_MAX {
            VARINT_MAX as int
        } else {
            self.bytes_read + n
        };
        let want = if read + self.config.max_data > VARINT_MAX {
            VARINT_MAX as int
        } else {
            read + self.config.max_data
        };
        if want > self.flow_rx.limit {
            want
        } else {
            self.flow_rx.limit
        }
    }

    /// The state after the application read stream `id`: the readable
    /// bytes are gone, the credit of the peer is raised by what was read,
    /// for the stream and for the connection, and each limit that was
    /// raised is announced by a frame.
    pub open spec fn read_applied(self, id: u64) -> ConnectionView {
        let st = self.streams[id];
        let n = st.rx.readable.len() as int;
        let stream_limit = st.read_limit();
        let limit = self.read_limit(n);
        let out1 = if stream_limit > st.rx_flow.limit {
            self.outgoing.push(
                FrameView::MaxStreamData {
                    stream_id: id,
                    maximum_stream_data: stream_limit as u64,
                },
            )
        } else {
            self.outgoing
        };
        let out2 = if limit > self.flow_rx.limit {
            out1.push(FrameView::MaxData { maximum_data: limit as u64 })
        } else {
            out1
        };
        ConnectionView {
            streams: self.streams.insert(id, st.read_applied()),
            bytes_read: if self.bytes_read + n > VARINT_MAX {
                VARINT_MAX
            } else {
                (self.bytes_read + n) as u64
            },
            flow_rx: FlowView { limit, ..self.flow_rx },
            outgoing: out2,
            ..self
        }
    }

    /// The error, if any, with which the application cannot write `len`
    /// bytes to stream `id`.
    pub open spec fn write_error(self, id: u64, len: int) -> Option<Error> {
        if self.closing() {
            Some(Error::ConnectionClosed)
        } else if !self.streams.contains_key(id) || !(is_bidi(id) || is_local(self.role, id)) {
            Some(Error::InvalidStreamId)
        } else if self.streams[id].write_closed {
            Some(Error::StreamClosed)
        } else if !self.streams[id].tx_flow.admits(len) || !self.flow_tx.admits(len) {
            Some(Error::FlowControlViolation)
        } else {
            None
        }
    }

    /// The state after the application wrote `data` to stream `id`: the
    /// data is queued and charged to both budgets, a stream frame with it
    /// waits to be sent, and behind it a frame for each budget that is
    /// now used up, telling the peer that the sender is blocked.
    pub open spec fn write_applied(self, id: u64, data: Seq<u8>, fin: bool) -> ConnectionView {
        let st = self.streams[id];
        let st2 = st.write_applied(data, fin);
        let flow = FlowView { consumed: self.flow_tx.consumed + data.len(), ..self.flow_tx };
        let out1 = self.outgoing.push(
            FrameView::Stream { fin, stream_id: id, offset: st.tx.tx_offset() as u64, data },
        );
        let out2 = if st2.tx_flow.available() == 0 {
            out1.push(
                FrameView::StreamDataBlocked {
                    stream_id: id,
                    stream_data_limit: st2.tx_flow.limit as u64,
                },
            )
        } else {
            out1
        };
        let out3 = if flow.available() == 0 {
            out2.push(FrameView::DataBlocked { data_limit: flow.limit as u64 })
        } else {
            out2
        };
        ConnectionView { streams: self.streams.insert(id, st2), flow_tx: flow, outgoing: out3, ..self }
    }

    /// The state after the handshake collaborator reported completion.
    pub open spec fn handshake_completed(self) -> ConnectionView {
        if self.state == State::Handshaking {
            ConnectionView { state: State::Connected, ..self }
        } else {
            self
        }
    }

    /// The state after the application closed the connection with the
    /// given code and reason: nothing changes where it is closing
    /// already; else it is closing and a closing frame waits to be sent.
    pub open spec fn closed_locally(self, error_code: u16, reason: Seq<u8>) -> ConnectionView {
        if self.closing() {
            self
        } else {
            ConnectionView {
                state: State::Closing,
                deadline: later(self.now, self.config.drain_period),
                close_code: Some(error_code),
                outgoing: self.outgoing.push(
                    FrameView::ConnectionClose {
                        close_type: CloseType::Application,
                        error_code,
                        frame_type: 0,
                        reason_phrase: reason,
                    },
                ),
                ..self
            }
        }
    }

    /// The state after the loss-recovery collaborator reported that the
    /// peer acknowledged the offsets from `start` up to `end` of stream
    /// `id`; a stream that does not exist is ignored.
    pub open spec fn acked(self, id: u64, start: u64, end: u64) -> ConnectionView {
        if self.streams.contains_key(id) {
            ConnectionView {
                streams: self.streams.insert(
                    id,
                    StreamView {
                        tx: self.streams[id].tx.acked(start as int, end as int),
                        ..self.streams[id]
                    },
                ),
                ..self
            }
        } else {
            self
        }
    }

    /// The state after this endpoint issued, or retired, one of its own
    /// connection identifiers.
    pub open spec fn with_cids(self, cids: TableView) -> ConnectionView {
        ConnectionView { cids, ..self }
    }

    /// The error, if any, with which handshake bytes cannot be queued: a
    /// closing connection takes none, and the handshake cannot pass the
    /// largest offset that a frame can carry, which is its final size at
    /// most.
    pub open spec fn crypto_error(self, len: int) -> Option<Error> {
        if self.closing() {
            Some(Error::ConnectionClosed)
        } else if self.crypto_tx_offset + len > VARINT_MAX {
            Some(Error::FinalSizeViolation)
        } else {
            None
        }
    }

    /// The state after the handshake collaborator handed over `data` for
    /// sending: a handshake frame with it waits to be sent.
    pub open spec fn crypto_queued(self, data: Seq<u8>) -> ConnectionView {
        ConnectionView {
            outgoing: self.outgoing.push(
                FrameView::Crypto { offset: self.crypto_tx_offset, data },
            ),
            crypto_tx_offset: (self.crypto_tx_offset + data.len()) as u64,
            ..self
        }
    }

    /// Whether everything that only grows has grown, or stayed, from
    /// `self` to `next`: no stream has disappeared, no contiguous receive
    /// offset and no count of a budget has decreased, no limit was
    /// lowered, and no stream id can be handed out again.
    pub open spec fn precedes(self, next: ConnectionView) -> bool {
        &&& self.role == next.role
        &&& self.next_stream_index <= next.next_stream_index
        &&& self.flow_rx.consumed <= next.flow_rx.consumed
        &&& self.flow_rx.limit <= next.flow_rx.limit
        &&& self.flow_tx.consumed <= next.flow_tx.consumed
        &&& self.flow_tx.limit <= next.flow_tx.limit
        &&& forall|id: u64| #[trigger]
            self.streams.contains_key(id) ==> {
                &&& next.streams.contains_key(id)
                &&& self.streams[id].rx.next_rx_offset <= next.streams[id].rx.next_rx_offset
                &&& self.streams[id].rx_flow.consumed <= next.streams[id].rx_flow.consumed
                &&& self.streams[id].rx_flow.limit <= next.streams[id].rx_flow.limit
                &&& self.streams[id].tx_flow.consumed <= next.streams[id].tx_flow.consumed
                &&& self.streams[id].tx_flow.limit <= next.streams[id].tx_flow.limit
            }
    }
}

/// Whether `next` and `e` are what frame `f` makes of `prev`.
pub open spec fn dispatched(
    prev: ConnectionView,
    f: FrameView,
    next: ConnectionView,
    e: Option<Error>,
) -> bool {
    &&& next == prev.on_frame(f).0
    &&& e == prev.on_frame(f).1
    &&& prev.precedes(next)
}

/// What has grown once and again has grown.
pub proof fn lemma_precedes_transitive(a: ConnectionView, b: ConnectionView, c: ConnectionView)
    requires
        a.precedes(b),
        b.precedes(c),
    ensures
        a.precedes(c),
{
}

/// The timer never fires in vain: in every state that can time out,
/// acting on the timer changes the state or asks something of a
/// collaborator or of the peer. A waiting server has no deadline, so its
/// timer does not fire at all.
pub proof fn lemma_timeout_acts(v: ConnectionView, now: u64)
    ensures
        v.state == State::Init || v.state == State::Handshaking || v.state == State::Connected
            || v.state == State::Closing ==> {
            ||| v.timed_out().state != v.state
            ||| v.timed_out().events.len() > v.events.len()
            ||| v.timed_out().outgoing.len() > v.outgoing.len()
        },
        v.state == State::WaitInitial ==> v.timed_out().deadline == u64::MAX && v.timed_out().tick(
            now,
        ).state == State::WaitInitial,
{
}

/// What is handed out can be taken in: the bytes that a connection emits
/// decode, frame by frame, to the frames that left its queue.
pub proof fn lemma_emitted_decodes(v: ConnectionView, budget: int)
    requires
        v.wf(),
        v.state != State::Closed,
    ensures
        parse_frames(v.emitted(budget).1, 0) == v.outgoing.take(
            fitting(v.outgoing, budget) as int,
        ),
        v.emitted(budget).0.outgoing == v.outgoing.skip(fitting(v.outgoing, budget) as int),
{
    lemma_fitting_bound(v.outgoing, budget);
    let sent = v.outgoing.take(fitting(v.outgoing, budget) as int);
    let bytes = frames_bytes(sent);
    assert(bytes.subrange(0, bytes.len() as int) =~= bytes);
    lemma_parse_frames_bytes(sent, bytes, 0);
}

/// No more frames fit than there are.
pub proof fn lemma_fitting_bound(frames: Seq<FrameView>, budget: int)
    ensures
        fitting(frames, budget) <= frames.len(),
    decreases frames.len(),
{
    if frames.len() > 0 && frame_bytes(frames[0]).len() <= budget {
        lemma_fitting_bound(frames.drop_first(), budget - frame_bytes(frames[0]).len());
    }
}

} // verus!
