use neqo_transport::connection::{
    Address, Config, Connection, Datagram, Event, Role, State, MAX_DATAGRAM_PAYLOAD,
};
use neqo_transport::error::Error;
use neqo_transport::codec::{decode, decode_frame, encode, Data};
use neqo_transport::frame::{AckRange, CloseType, Frame, StreamType};

fn here() -> Address {
    Address { ip: [1; 16], port: 4433 }
}

fn there() -> Address {
    Address { ip: [2; 16], port: 50000 }
}

fn datagram(frames: &[Frame]) -> Datagram {
    let mut d = Vec::new();
    for f in frames {
        d.extend_from_slice(&encode(f));
    }
    Datagram { src: there(), dst: here(), d }
}

fn frames_of(payload: &[u8]) -> Vec<Frame> {
    let mut d = Data::from_slice(payload);
    let mut out = Vec::new();
    while d.remaining() > 0 {
        out.push(decode_frame(&mut d).unwrap());
    }
    out
}

fn stream_frame(stream_id: u64, offset: u64, data: &[u8], fin: bool) -> Vec<u8> {
    encode(&Frame::Stream { fin, stream_id, offset, data: data.to_vec() })
}

fn small() -> Config {
    Config {
        max_data: 16,
        max_stream_data: 8,
        peer_max_data: 16,
        peer_max_stream_data: 8,
        active_connection_id_limit: 2,
        timeout: 100,
        drain_period: 300,
    }
}

#[test]
fn client_starts_in_init_and_server_waits() {
    let c = Connection::new(Role::Client);
    assert_eq!(c.role(), Role::Client);
    assert_eq!(c.state(), State::Init);
    assert_eq!(c.deadline(), 0);
    let s = Connection::new(Role::Server);
    assert_eq!(s.role(), Role::Server);
    assert_eq!(s.state(), State::WaitInitial);
    assert_eq!(s.deadline(), u64::MAX);
}

#[test]
fn client_starts_the_handshake_when_the_deadline_has_passed() {
    let mut c = Connection::new(Role::Client);
    assert_eq!(c.state(), State::Init);
    assert_eq!(c.input(&datagram(&[]), 1), Ok((None, 501)));
    assert_eq!(c.state(), State::Handshaking);
    assert_eq!(c.take_events(), vec![Event::HandshakeStart]);
    assert_eq!(c.take_events(), vec![]);
}

#[test]
fn client_does_not_start_before_the_deadline() {
    let mut c = Connection::new(Role::Client);
    assert_eq!(c.input(&datagram(&[]), 0), Ok((None, 0)));
    assert_eq!(c.state(), State::Init);
    assert_eq!(c.take_events(), vec![]);
}

#[test]
fn handshake_flight_is_sent_again_on_timeout() {
    let mut c = Connection::with_config(Role::Client, small());
    assert_eq!(c.input(&datagram(&[]), 5), Ok((None, 105)));
    assert_eq!(c.input(&datagram(&[]), 105), Ok((None, 105)));
    assert_eq!(c.take_events(), vec![Event::HandshakeStart]);
    assert_eq!(c.input(&datagram(&[]), 106), Ok((None, 206)));
    assert_eq!(c.state(), State::Handshaking);
    assert_eq!(c.take_events(), vec![Event::HandshakeRetry]);
}

#[test]
fn handshake_completion_establishes_the_connection() {
    let mut c = Connection::new(Role::Client);
    assert!(!c.handshake_complete());
    assert_eq!(c.state(), State::Init);
    let _ = c.input(&datagram(&[]), 1);
    assert!(c.handshake_complete());
    assert_eq!(c.state(), State::Connected);
    assert!(!c.handshake_complete());
    assert_eq!(c.state(), State::Connected);
}

#[test]
fn established_connection_probes_on_timeout() {
    let mut c = Connection::with_config(Role::Client, small());
    let _ = c.input(&datagram(&[]), 1);
    assert!(c.handshake_complete());
    let (reply, deadline) = c.input(&datagram(&[]), 102).unwrap();
    assert_eq!(deadline, 202);
    let reply = reply.unwrap();
    assert_eq!(frames_of(&reply.d), vec![Frame::Ping]);
    assert_eq!(reply.src, here());
    assert_eq!(reply.dst, there());
    assert_eq!(c.state(), State::Connected);
}

#[test]
fn server_starts_with_the_first_datagram() {
    let mut s = Connection::with_config(Role::Server, small());
    assert_eq!(s.input(&datagram(&[]), 50), Ok((None, u64::MAX)));
    assert_eq!(s.state(), State::WaitInitial);
    let first = datagram(&[Frame::Crypto { offset: 0, data: vec![1, 2, 3] }]);
    assert_eq!(s.input(&first, 60), Ok((None, 160)));
    assert_eq!(s.state(), State::Handshaking);
    assert_eq!(s.take_events(), vec![Event::Crypto { offset: 0, data: vec![1, 2, 3] }]);
}

#[test]
fn server_does_not_start_with_an_undecodable_datagram() {
    let mut s = Connection::new(Role::Server);
    let junk = Datagram { src: there(), dst: here(), d: vec![0x3f, 1, 2, 3] };
    assert_eq!(s.input(&junk, 60), Ok((None, u64::MAX)));
    assert_eq!(s.state(), State::WaitInitial);
}

#[test]
fn stream_data_in_order_is_readable() {
    let mut c = Connection::new(Role::Client);
    let id = c.stream_create();
    assert_eq!(id, 0);
    assert_eq!(c.process_input_frame(&stream_frame(0, 0, b"ab", false)), Ok(()));
    assert_eq!(c.stream_next_rx_offset(0), Some(2));
    assert_eq!(c.stream_read(0), Ok(b"ab".to_vec()));
    assert_eq!(c.stream_next_rx_offset(0), Some(2));
    assert_eq!(c.stream_read(0), Ok(vec![]));
}

#[test]
fn stream_data_out_of_order_waits_for_the_gap() {
    let mut c = Connection::new(Role::Client);
    assert_eq!(c.stream_create(), 0);
    assert_eq!(c.process_input_frame(&stream_frame(0, 5, b"fgh", false)), Ok(()));
    assert_eq!(c.stream_next_rx_offset(0), Some(0));
    assert_eq!(c.stream_read(0), Ok(vec![]));
    assert_eq!(c.process_input_frame(&stream_frame(0, 0, b"abcde", false)), Ok(()));
    assert_eq!(c.stream_next_rx_offset(0), Some(8));
    assert_eq!(c.stream_read(0), Ok(b"abcdefgh".to_vec()));
}

#[test]
fn empty_stream_frame_is_accepted() {
    let mut c = Connection::new(Role::Client);
    assert_eq!(c.stream_create(), 0);
    assert_eq!(c.process_input_frame(&stream_frame(0, 0, b"", false)), Ok(()));
    assert_eq!(c.process_input_frame(&stream_frame(0, 7, b"", false)), Ok(()));
    assert_eq!(c.state(), State::Init);
    assert_eq!(c.stream_read(0), Ok(vec![]));
}

#[test]
fn stream_ids_are_scoped_by_role_and_never_reused() {
    let mut c = Connection::new(Role::Client);
    assert_eq!(c.stream_create(), 0);
    assert_eq!(c.stream_create(), 4);
    assert_eq!(c.stream_create(), 8);
    let mut s = Connection::new(Role::Server);
    assert_eq!(s.stream_create(), 1);
    assert_eq!(s.stream_create(), 5);
    assert!(s.can_create_stream());
}

#[test]
fn stream_that_was_never_created_is_invalid() {
    let mut c = Connection::new(Role::Client);
    assert_eq!(c.stream_create(), 0);
    assert_eq!(
        c.process_input_frame(&stream_frame(4, 0, b"ab", false)),
        Err(Error::InvalidStreamId)
    );
    assert_eq!(c.state(), State::Closing);
    assert_eq!(c.close_code(), Some(0x5));
    assert_eq!(c.stream_next_rx_offset(4), None);

    let mut s = Connection::new(Role::Server);
    assert_eq!(
        s.process_input_frame(&stream_frame(1, 0, b"ab", false)),
        Err(Error::InvalidStreamId)
    );
    assert_eq!(s.state(), State::Closing);
}

#[test]
fn inbound_stream_frame_on_an_unknown_local_stream_changes_nothing() {
    let mut c = Connection::new(Role::Client);
    assert_eq!(
        c.process_inbound_stream_frame(false, 8, 0, b"ab".to_vec()),
        Err(Error::InvalidStreamId)
    );
    assert_eq!(
        c.process_inbound_stream_frame(false, 1 << 62, 0, b"ab".to_vec()),
        Err(Error::InvalidStreamId)
    );
    assert_eq!(c.state(), State::Init);
    assert_eq!(c.stream_next_rx_offset(8), None);
    assert_eq!(c.pending_frames(), 0);
}

#[test]
fn peer_creates_its_streams_by_using_them() {
    let mut c = Connection::new(Role::Client);
    assert_eq!(c.stream_next_rx_offset(1), None);
    assert_eq!(c.process_input_frame(&stream_frame(1, 0, b"hi", false)), Ok(()));
    assert_eq!(c.stream_read(1), Ok(b"hi".to_vec()));
    assert_eq!(c.process_input_frame(&stream_frame(3, 0, b"uni", true)), Ok(()));
    assert_eq!(c.stream_read(3), Ok(b"uni".to_vec()));
    assert_eq!(c.stream_read(3), Err(Error::StreamClosed));
    assert_eq!(c.stream_write(3, b"no", false), Err(Error::InvalidStreamId));
    assert_eq!(c.stream_write(1, b"yes", false), Ok(()));

    let mut s = Connection::new(Role::Server);
    assert_eq!(s.process_inbound_stream_frame(false, 0, 0, b"hi".to_vec()), Ok(()));
    assert_eq!(s.stream_read(0), Ok(b"hi".to_vec()));
}

#[test]
fn reading_an_unknown_stream_is_invalid() {
    let mut c = Connection::new(Role::Client);
    assert_eq!(c.stream_read(0), Err(Error::InvalidStreamId));
    assert_eq!(c.stream_write(0, b"a", false), Err(Error::InvalidStreamId));
    assert!(!c.stream_acked(0, 0, 1));
    assert!(!c.stream_finished(0));
}

#[test]
fn stream_flow_control_violation_closes_the_connection() {
    let mut c = Connection::with_config(Role::Client, small());
    assert_eq!(c.stream_create(), 0);
    assert_eq!(
        c.process_input_frame(&stream_frame(0, 4, b"efghi", false)),
        Err(Error::FlowControlViolation)
    );
    assert_eq!(c.state(), State::Closing);
    assert_eq!(c.close_code(), Some(0x3));
    let out = c.output(MAX_DATAGRAM_PAYLOAD);
    assert_eq!(
        frames_of(&out),
        vec![Frame::ConnectionClose {
            close_type: CloseType::Transport,
            error_code: 0x3,
            frame_type: 0x0e,
            reason_phrase: vec![],
        }]
    );
}

#[test]
fn connection_flow_control_counts_all_streams() {
    let mut c = Connection::with_config(Role::Client, small());
    assert_eq!(c.process_inbound_stream_frame(false, 1, 0, b"abcdefgh".to_vec()), Ok(()));
    assert_eq!(c.process_inbound_stream_frame(false, 5, 0, b"abcdefg".to_vec()), Ok(()));
    assert_eq!(c.process_inbound_stream_frame(false, 5, 0, b"abcdefg".to_vec()), Ok(()));
    assert_eq!(
        c.process_inbound_stream_frame(false, 9, 0, b"ab".to_vec()),
        Err(Error::FlowControlViolation)
    );
    assert_eq!(c.stream_next_rx_offset(9), None);
    assert_eq!(c.process_inbound_stream_frame(false, 9, 0, b"a".to_vec()), Ok(()));
    assert_eq!(
        c.process_inbound_stream_frame(false, 5, 7, b"h".to_vec()),
        Err(Error::FlowControlViolation)
    );
    assert_eq!(c.state(), State::Init);
}

#[test]
fn reading_announces_new_limits() {
    let mut c = Connection::with_config(Role::Client, small());
    assert_eq!(c.process_inbound_stream_frame(false, 1, 0, b"abcde".to_vec()), Ok(()));
    assert_eq!(c.pending_frames(), 0);
    assert_eq!(c.stream_read(1), Ok(b"abcde".to_vec()));
    let out = c.output(MAX_DATAGRAM_PAYLOAD);
    assert_eq!(
        frames_of(&out),
        vec![
            Frame::MaxStreamData { stream_id: 1, maximum_stream_data: 13 },
            Frame::MaxData { maximum_data: 21 },
        ]
    );
    assert_eq!(c.stream_read(1), Ok(vec![]));
    assert_eq!(c.pending_frames(), 0);
    assert_eq!(c.process_inbound_stream_frame(false, 1, 5, b"fghijklm".to_vec()), Ok(()));
}

#[test]
fn conflicting_stream_data_closes_the_connection() {
    let mut c = Connection::new(Role::Client);
    assert_eq!(c.process_input_frame(&stream_frame(1, 5, b"fgh", false)), Ok(()));
    assert_eq!(
        c.process_input_frame(&stream_frame(1, 6, b"gX", false)),
        Err(Error::StreamDataConflict)
    );
    assert_eq!(c.state(), State::Closing);
    assert_eq!(c.close_code(), Some(0xa));
}

#[test]
fn final_size_violation_closes_the_connection() {
    let mut c = Connection::new(Role::Client);
    assert_eq!(c.process_input_frame(&stream_frame(1, 0, b"abc", true)), Ok(()));
    assert_eq!(
        c.process_input_frame(&stream_frame(1, 3, b"d", false)),
        Err(Error::FinalSizeViolation)
    );
    assert_eq!(c.state(), State::Closing);
    assert_eq!(c.close_code(), Some(0x6));
}

#[test]
fn malformed_frame_is_dropped_and_changes_nothing() {
    let mut c = Connection::new(Role::Client);
    assert_eq!(c.process_input_frame(&[0x3f]), Err(Error::MalformedFrame));
    assert_eq!(c.process_input_frame(&[]), Err(Error::MalformedFrame));
    assert_eq!(c.process_input_frame(&[0x06, 0x00, 0x05, 1]), Err(Error::MalformedFrame));
    assert_eq!(c.state(), State::Init);
    assert_eq!(c.close_code(), None);
    assert_eq!(c.pending_frames(), 0);
    assert_eq!(c.take_events(), vec![]);
}

#[test]
fn malformed_frame_drops_the_rest_of_its_datagram_only() {
    let mut c = Connection::new(Role::Client);
    let mut d = datagram(&[Frame::Stream { fin: false, stream_id: 1, offset: 0, data: b"ab".to_vec() }]);
    d.d.push(0x3f);
    d.d.extend_from_slice(&stream_frame(1, 2, b"cd", false));
    assert!(c.input(&d, 0).is_ok());
    assert_eq!(c.stream_next_rx_offset(1), Some(2));
    let next = datagram(&[Frame::Stream { fin: false, stream_id: 1, offset: 2, data: b"cd".to_vec() }]);
    assert!(c.input(&next, 0).is_ok());
    assert_eq!(c.stream_read(1), Ok(b"abcd".to_vec()));
    assert_eq!(c.state(), State::Init);
}

#[test]
fn frames_of_a_datagram_are_dispatched_in_order() {
    let mut c = Connection::new(Role::Client);
    let d = datagram(&[
        Frame::Padding,
        Frame::Stream { fin: true, stream_id: 1, offset: 2, data: b"cd".to_vec() },
        Frame::PathChallenge { data: [1, 2, 3, 4, 5, 6, 7, 8] },
        Frame::Stream { fin: false, stream_id: 1, offset: 0, data: b"ab".to_vec() },
        Frame::Ping,
    ]);
    let (reply, _) = c.input(&d, 0).unwrap();
    assert_eq!(
        frames_of(&reply.unwrap().d),
        vec![Frame::PathResponse { data: [1, 2, 3, 4, 5, 6, 7, 8] }]
    );
    assert!(c.take_ack_owed());
    assert!(!c.take_ack_owed());
    assert_eq!(c.stream_read(1), Ok(b"abcd".to_vec()));
    assert_eq!(c.stream_read(1), Err(Error::StreamClosed));
}

#[test]
fn ping_owes_an_acknowledgement_and_padding_does_not() {
    let mut c = Connection::new(Role::Client);
    assert_eq!(c.process_input_frame(&encode(&Frame::Padding)), Ok(()));
    assert!(!c.take_ack_owed());
    assert_eq!(c.process_input_frame(&encode(&Frame::Ping)), Ok(()));
    assert!(c.take_ack_owed());
    assert!(!c.take_ack_owed());
    assert_eq!(c.pending_frames(), 0);
}

#[test]
fn path_challenge_is_echoed() {
    let mut c = Connection::new(Role::Server);
    let challenge = Frame::PathChallenge { data: [9, 8, 7, 6, 5, 4, 3, 2] };
    assert_eq!(c.process_input_frame(&encode(&challenge)), Ok(()));
    assert_eq!(c.pending_frames(), 1);
    let out = c.output(MAX_DATAGRAM_PAYLOAD);
    assert_eq!(decode(&out), Ok((Frame::PathResponse { data: [9, 8, 7, 6, 5, 4, 3, 2] }, 9)));
    assert_eq!(c.pending_frames(), 0);
    let response = Frame::PathResponse { data: [1; 8] };
    assert_eq!(c.process_input_frame(&encode(&response)), Ok(()));
    assert_eq!(c.pending_frames(), 0);
}

#[test]
fn crypto_and_ack_are_handed_to_the_collaborators() {
    let mut c = Connection::new(Role::Client);
    assert_eq!(
        c.process_input_frame(&encode(&Frame::Crypto { offset: 7, data: vec![1, 2, 3] })),
        Ok(())
    );
    let ack = Frame::Ack {
        largest_acknowledged: 10,
        ack_delay: 2,
        first_ack_range: 3,
        ack_ranges: vec![AckRange { gap: 1, range: 2 }],
    };
    assert_eq!(c.process_input_frame(&encode(&ack)), Ok(()));
    assert_eq!(
        c.take_events(),
        vec![
            Event::Crypto { offset: 7, data: vec![1, 2, 3] },
            Event::Acked {
                largest_acknowledged: 10,
                ack_delay: 2,
                first_ack_range: 3,
                ack_ranges: vec![AckRange { gap: 1, range: 2 }],
            },
        ]
    );
}

#[test]
fn new_connection_id_duplicate_with_other_bytes_fails() {
    let mut c = Connection::new(Role::Client);
    let first = Frame::NewConnectionId {
        sequence_number: 3,
        connection_id: vec![1, 2, 3, 4],
        stateless_reset_token: [7; 16],
    };
    let other = Frame::NewConnectionId {
        sequence_number: 3,
        connection_id: vec![1, 2, 3, 5],
        stateless_reset_token: [7; 16],
    };
    assert_eq!(c.process_input_frame(&encode(&first)), Ok(()));
    assert_eq!(c.process_input_frame(&encode(&first)), Ok(()));
    assert_eq!(c.active_peer_ids(), 1);
    assert_eq!(c.state(), State::Init);
    assert_eq!(c.process_input_frame(&encode(&other)), Err(Error::DuplicateSequence));
    assert_eq!(c.state(), State::Closing);
    assert_eq!(c.close_code(), Some(0xa));
    assert_eq!(c.active_peer_ids(), 1);
}

#[test]
fn too_many_connection_ids_close_the_connection() {
    let mut c = Connection::with_config(Role::Client, small());
    for seq in 0..2u64 {
        let f = Frame::NewConnectionId {
            sequence_number: seq,
            connection_id: vec![seq as u8],
            stateless_reset_token: [0; 16],
        };
        assert_eq!(c.process_input_frame(&encode(&f)), Ok(()));
    }
    let f = Frame::NewConnectionId {
        sequence_number: 2,
        connection_id: vec![2],
        stateless_reset_token: [0; 16],
    };
    assert_eq!(c.process_input_frame(&encode(&f)), Err(Error::ConnectionIdLimit));
    assert_eq!(c.state(), State::Closing);
    assert_eq!(c.close_code(), Some(0x9));
    let out = c.output(MAX_DATAGRAM_PAYLOAD);
    assert_eq!(
        frames_of(&out),
        vec![Frame::ConnectionClose {
            close_type: CloseType::Transport,
            error_code: 0x9,
            frame_type: 0x18,
            reason_phrase: vec![],
        }]
    );
}

#[test]
fn retired_connection_id_is_ignored_afterwards() {
    let mut c = Connection::with_config(Role::Client, small());
    let f = Frame::NewConnectionId {
        sequence_number: 1,
        connection_id: vec![1],
        stateless_reset_token: [0; 16],
    };
    assert_eq!(c.process_input_frame(&encode(&f)), Ok(()));
    assert_eq!(
        c.process_input_frame(&encode(&Frame::RetireConnectionId { sequence_number: 1 })),
        Ok(())
    );
    assert_eq!(c.active_peer_ids(), 0);
    assert_eq!(
        c.process_input_frame(&encode(&Frame::RetireConnectionId { sequence_number: 1 })),
        Ok(())
    );
    assert_eq!(
        c.process_input_frame(&encode(&Frame::RetireConnectionId { sequence_number: 9 })),
        Ok(())
    );
    let again = Frame::NewConnectionId {
        sequence_number: 1,
        connection_id: vec![7, 7],
        stateless_reset_token: [1; 16],
    };
    assert_eq!(c.process_input_frame(&encode(&again)), Ok(()));
    assert_eq!(c.active_peer_ids(), 0);
    assert_eq!(c.state(), State::Init);
}

#[test]
fn reset_stream_discards_later_data() {
    let mut c = Connection::new(Role::Client);
    assert_eq!(c.stream_create(), 0);
    let reset = Frame::ResetStream { stream_id: 0, application_error_code: 1, final_size: 0 };
    assert_eq!(c.process_input_frame(&encode(&reset)), Ok(()));
    assert_eq!(c.process_input_frame(&stream_frame(0, 0, b"late", false)), Ok(()));
    assert_eq!(c.stream_next_rx_offset(0), Some(0));
    assert_eq!(c.stream_read(0), Err(Error::StreamClosed));
    assert_eq!(c.state(), State::Init);
    assert_eq!(c.stream_write(0, b"still", false), Ok(()));
}

#[test]
fn stop_sending_closes_the_write_side() {
    let mut c = Connection::new(Role::Client);
    assert_eq!(c.stream_create(), 0);
    let stop = Frame::StopSending { stream_id: 0, application_error_code: 1 };
    assert_eq!(c.process_input_frame(&encode(&stop)), Ok(()));
    assert_eq!(c.stream_write(0, b"a", false), Err(Error::StreamClosed));
    assert_eq!(c.process_input_frame(&stream_frame(0, 0, b"ok", false)), Ok(()));
    assert_eq!(c.stream_read(0), Ok(b"ok".to_vec()));
}

#[test]
fn stream_control_for_an_invalid_stream_closes_the_connection() {
    let frames = [
        Frame::ResetStream { stream_id: 4, application_error_code: 1, final_size: 0 },
        Frame::StopSending { stream_id: 4, application_error_code: 1 },
        Frame::MaxStreamData { stream_id: 4, maximum_stream_data: 100 },
        Frame::StopSending { stream_id: 3, application_error_code: 1 },
        Frame::MaxStreamData { stream_id: 3, maximum_stream_data: 100 },
    ];
    for f in frames {
        let mut c = Connection::new(Role::Client);
        assert_eq!(c.process_input_frame(&encode(&f)), Err(Error::InvalidStreamId));
        assert_eq!(c.state(), State::Closing);
    }
    let mut c = Connection::new(Role::Client);
    let f = Frame::ResetStream { stream_id: 3, application_error_code: 1, final_size: 0 };
    assert_eq!(c.process_input_frame(&encode(&f)), Ok(()));
    assert_eq!(c.stream_read(3), Err(Error::StreamClosed));
}

#[test]
fn write_queues_a_stream_frame() {
    let mut c = Connection::new(Role::Client);
    assert_eq!(c.stream_create(), 0);
    assert_eq!(c.stream_write(0, b"hello", false), Ok(()));
    assert_eq!(c.stream_write(0, b" world", true), Ok(()));
    let out = c.output(MAX_DATAGRAM_PAYLOAD);
    assert_eq!(
        frames_of(&out),
        vec![
            Frame::Stream { fin: false, stream_id: 0, offset: 0, data: b"hello".to_vec() },
            Frame::Stream { fin: true, stream_id: 0, offset: 5, data: b" world".to_vec() },
        ]
    );
    assert_eq!(c.stream_write(0, b"more", false), Err(Error::StreamClosed));
    assert_eq!(c.output(MAX_DATAGRAM_PAYLOAD), Vec::<u8>::new());
}

#[test]
fn write_beyond_the_credit_is_refused_and_changes_nothing() {
    let mut c = Connection::with_config(Role::Client, small());
    assert_eq!(c.stream_create(), 0);
    assert_eq!(c.stream_create(), 4);
    assert_eq!(c.stream_write(0, b"123456789", false), Err(Error::FlowControlViolation));
    assert_eq!(c.pending_frames(), 0);
    assert_eq!(c.stream_write(0, b"12345678", false), Ok(()));
    assert_eq!(c.stream_write(0, b"9", false), Err(Error::FlowControlViolation));
    assert_eq!(c.stream_write(4, b"1234567", false), Ok(()));
    assert_eq!(c.stream_write(4, b"89", false), Err(Error::FlowControlViolation));
    assert_eq!(c.stream_write(4, b"8", false), Ok(()));
    let out = c.output(MAX_DATAGRAM_PAYLOAD);
    assert_eq!(
        frames_of(&out),
        vec![
            Frame::Stream { fin: false, stream_id: 0, offset: 0, data: b"12345678".to_vec() },
            Frame::StreamDataBlocked { stream_id: 0, stream_data_limit: 8 },
            Frame::Stream { fin: false, stream_id: 4, offset: 0, data: b"1234567".to_vec() },
            Frame::Stream { fin: false, stream_id: 4, offset: 7, data: b"8".to_vec() },
            Frame::StreamDataBlocked { stream_id: 4, stream_data_limit: 8 },
            Frame::DataBlocked { data_limit: 16 },
        ]
    );
}

#[test]
fn credit_of_the_peer_allows_more_writes() {
    let mut c = Connection::with_config(Role::Client, small());
    assert_eq!(c.stream_create(), 0);
    assert_eq!(c.stream_write(0, b"12345678", false), Ok(()));
    assert_eq!(c.stream_write(0, b"9", false), Err(Error::FlowControlViolation));
    let more = Frame::MaxStreamData { stream_id: 0, maximum_stream_data: 20 };
    assert_eq!(c.process_input_frame(&encode(&more)), Ok(()));
    assert_eq!(c.stream_write(0, b"9abcdefg", false), Ok(()));
    assert_eq!(c.stream_write(0, b"h", false), Err(Error::FlowControlViolation));
    assert_eq!(c.process_input_frame(&encode(&Frame::MaxData { maximum_data: 10 })), Ok(()));
    assert_eq!(c.stream_write(0, b"h", false), Err(Error::FlowControlViolation));
    assert_eq!(c.process_input_frame(&encode(&Frame::MaxData { maximum_data: 18 })), Ok(()));
    assert_eq!(c.stream_write(0, b"hi", false), Ok(()));
    assert_eq!(c.stream_write(0, b"j", false), Err(Error::FlowControlViolation));
}

#[test]
fn blocked_reports_of_the_peer_are_recorded_only() {
    let mut c = Connection::with_config(Role::Client, small());
    assert_eq!(c.blocked().data, None);
    assert_eq!(c.process_input_frame(&encode(&Frame::DataBlocked { data_limit: 16 })), Ok(()));
    assert_eq!(
        c.process_input_frame(&encode(&Frame::StreamDataBlocked {
            stream_id: 1,
            stream_data_limit: 8
        })),
        Ok(())
    );
    assert_eq!(
        c.process_input_frame(&encode(&Frame::StreamsBlocked {
            stream_type: StreamType::UniDi,
            stream_limit: 3
        })),
        Ok(())
    );
    assert_eq!(
        c.process_input_frame(&encode(&Frame::MaxStreams {
            stream_type: StreamType::BiDi,
            maximum_streams: 3
        })),
        Ok(())
    );
    assert_eq!(c.blocked().data, Some(16));
    assert_eq!(c.blocked().stream_data, Some((1, 8)));
    assert_eq!(c.blocked().streams, Some((StreamType::UniDi, 3)));
    assert_eq!(c.pending_frames(), 0);
    assert_eq!(
        c.process_inbound_stream_frame(false, 1, 8, b"i".to_vec()),
        Err(Error::FlowControlViolation)
    );
    assert_eq!(c.stream_next_rx_offset(1), None);
}

#[test]
fn new_token_is_stored() {
    let mut c = Connection::new(Role::Client);
    assert_eq!(c.token(), None);
    assert_eq!(c.process_input_frame(&encode(&Frame::NewToken { token: vec![1, 2, 3] })), Ok(()));
    assert_eq!(c.token(), Some(vec![1, 2, 3]));
    assert_eq!(c.process_input_frame(&encode(&Frame::NewToken { token: vec![4] })), Ok(()));
    assert_eq!(c.token(), Some(vec![4]));
}

#[test]
fn peer_close_drains_and_then_closes() {
    let mut c = Connection::with_config(Role::Client, small());
    assert_eq!(c.stream_create(), 0);
    let close = Frame::ConnectionClose {
        close_type: CloseType::Application,
        error_code: 7,
        frame_type: 0,
        reason_phrase: b"bye".to_vec(),
    };
    assert_eq!(c.input(&datagram(&[close]), 0), Ok((None, 300)));
    assert_eq!(c.state(), State::Closing);
    assert_eq!(c.process_input_frame(&stream_frame(0, 0, b"stray", false)), Ok(()));
    assert_eq!(c.process_inbound_stream_frame(false, 0, 0, b"stray".to_vec()), Ok(()));
    assert_eq!(c.stream_next_rx_offset(0), Some(0));
    assert_eq!(c.stream_read(0), Err(Error::ConnectionClosed));
    assert_eq!(c.stream_write(0, b"a", false), Err(Error::ConnectionClosed));
    assert_eq!(c.crypto_write(b"a"), Err(Error::ConnectionClosed));
    assert_eq!(c.stream_create(), 4);
    assert_eq!(c.stream_create(), 4);
    assert_eq!(c.stream_next_rx_offset(4), None);
    assert_eq!(c.input(&datagram(&[Frame::Ping]), 300), Ok((None, 300)));
    assert!(!c.take_ack_owed());
    assert_eq!(c.state(), State::Closing);
    assert_eq!(c.input(&datagram(&[]), 301), Ok((None, u64::MAX)));
    assert_eq!(c.state(), State::Closed);
    assert_eq!(c.input(&datagram(&[]), 302), Err(Error::ConnectionClosed));
    assert_eq!(c.process_input_frame(&encode(&Frame::Ping)), Err(Error::ConnectionClosed));
    assert_eq!(
        c.process_inbound_stream_frame(false, 0, 0, vec![]),
        Err(Error::ConnectionClosed)
    );
    assert_eq!(c.output(MAX_DATAGRAM_PAYLOAD), Vec::<u8>::new());
    assert_eq!(c.state(), State::Closed);
}

#[test]
fn local_close_sends_a_closing_frame() {
    let mut c = Connection::with_config(Role::Server, small());
    c.close(0x11);
    assert_eq!(c.state(), State::Closing);
    assert_eq!(c.close_code(), Some(0x11));
    assert_eq!(c.deadline(), 300);
    c.close(0x22);
    assert_eq!(c.close_code(), Some(0x11));
    let out = c.output(MAX_DATAGRAM_PAYLOAD);
    assert_eq!(
        frames_of(&out),
        vec![Frame::ConnectionClose {
            close_type: CloseType::Application,
            error_code: 0x11,
            frame_type: 0,
            reason_phrase: vec![],
        }]
    );
}

#[test]
fn violation_in_a_datagram_stops_the_dispatch() {
    let mut c = Connection::with_config(Role::Client, small());
    let d = datagram(&[
        Frame::Stream { fin: false, stream_id: 1, offset: 0, data: b"ab".to_vec() },
        Frame::Stream { fin: false, stream_id: 4, offset: 0, data: b"xx".to_vec() },
        Frame::Stream { fin: false, stream_id: 1, offset: 2, data: b"cd".to_vec() },
        Frame::PathChallenge { data: [0; 8] },
    ]);
    let (reply, deadline) = c.input(&d, 10).unwrap();
    assert_eq!(deadline, 310);
    assert_eq!(c.state(), State::Closing);
    assert_eq!(c.stream_next_rx_offset(1), Some(2));
    assert_eq!(
        frames_of(&reply.unwrap().d),
        vec![Frame::ConnectionClose {
            close_type: CloseType::Transport,
            error_code: 0x5,
            frame_type: 0x0a,
            reason_phrase: vec![],
        }]
    );
}

#[test]
fn output_respects_the_budget() {
    let mut c = Connection::new(Role::Client);
    for i in 0..3u8 {
        assert_eq!(c.process_input_frame(&encode(&Frame::PathChallenge { data: [i; 8] })), Ok(()));
    }
    assert_eq!(c.output(8), Vec::<u8>::new());
    assert_eq!(c.pending_frames(), 3);
    assert_eq!(c.output(0), Vec::<u8>::new());
    let out = c.output(20);
    assert_eq!(frames_of(&out), vec![Frame::PathResponse { data: [0; 8] }, Frame::PathResponse { data: [1; 8] }]);
    assert_eq!(c.pending_frames(), 1);
    let out = c.output(9);
    assert_eq!(frames_of(&out), vec![Frame::PathResponse { data: [2; 8] }]);
    assert_eq!(c.pending_frames(), 0);
}

#[test]
fn input_hands_back_at_most_one_datagram_payload() {
    let mut c = Connection::new(Role::Client);
    assert_eq!(c.stream_create(), 0);
    assert_eq!(c.stream_write(0, &[7; 1000], false), Ok(()));
    assert_eq!(c.stream_write(0, &[8; 1000], false), Ok(()));
    let (reply, _) = c.input(&datagram(&[]), 0).unwrap();
    let reply = reply.unwrap();
    assert!(reply.d.len() <= MAX_DATAGRAM_PAYLOAD);
    assert_eq!(
        frames_of(&reply.d),
        vec![Frame::Stream { fin: false, stream_id: 0, offset: 0, data: vec![7; 1000] }]
    );
    assert_eq!(c.pending_frames(), 1);
}

#[test]
fn acknowledged_data_ends_the_stream() {
    let mut c = Connection::new(Role::Client);
    assert_eq!(c.stream_create(), 0);
    assert_eq!(c.stream_write(0, b"abc", true), Ok(()));
    assert_eq!(c.process_input_frame(&stream_frame(0, 0, b"", true)), Ok(()));
    assert!(!c.stream_finished(0));
    assert!(c.stream_acked(0, 0, 3));
    assert!(c.stream_finished(0));
    assert_eq!(c.stream_read(0), Err(Error::StreamClosed));
}

#[test]
fn crypto_bytes_are_queued_at_increasing_offsets() {
    let mut c = Connection::new(Role::Client);
    assert_eq!(c.crypto_write(b"hello"), Ok(()));
    assert_eq!(c.crypto_write(b""), Ok(()));
    assert_eq!(c.crypto_write(b"again"), Ok(()));
    let out = c.output(MAX_DATAGRAM_PAYLOAD);
    assert_eq!(
        frames_of(&out),
        vec![
            Frame::Crypto { offset: 0, data: b"hello".to_vec() },
            Frame::Crypto { offset: 5, data: vec![] },
            Frame::Crypto { offset: 5, data: b"again".to_vec() },
        ]
    );
}

#[test]
fn limits_of_a_configuration_are_cut_down() {
    let cfg = Config { max_data: u64::MAX, peer_max_data: 1 << 62, ..small() };
    assert_eq!(cfg.capped().max_data, (1 << 62) - 1);
    assert_eq!(cfg.capped().peer_max_data, (1 << 62) - 1);
    assert_eq!(cfg.capped().max_stream_data, 8);
    assert_eq!(Config::standard().capped(), Config::standard());
    let mut c = Connection::with_config(Role::Client, cfg);
    assert_eq!(c.stream_create(), 0);
    assert_eq!(c.stream_write(0, b"12345678", false), Ok(()));
}

#[test]
fn two_connections_talk_to_each_other() {
    let mut client = Connection::new(Role::Client);
    let mut server = Connection::new(Role::Server);
    let id = client.stream_create();
    assert_eq!(client.stream_write(id, b"request", true), Ok(()));
    let (to_server, _) = client.input(&Datagram { src: there(), dst: here(), d: vec![] }, 0).unwrap();
    let to_server = to_server.unwrap();
    let (to_client, _) = server.input(&to_server, 0).unwrap();
    assert_eq!(to_client, None);
    assert_eq!(server.state(), State::Handshaking);
    assert_eq!(server.stream_read(id), Ok(b"request".to_vec()));
    assert_eq!(server.stream_write(id, b"response", true), Ok(()));
    let (to_client, _) = server.input(&Datagram { src: here(), dst: there(), d: vec![] }, 0).unwrap();
    let to_client = to_client.unwrap();
    assert_eq!(
        frames_of(&to_client.d),
        vec![
            Frame::MaxStreamData { stream_id: 0, maximum_stream_data: 0x4_0007 },
            Frame::MaxData { maximum_data: 0x10_0007 },
            Frame::Stream { fin: true, stream_id: 0, offset: 0, data: b"response".to_vec() },
        ]
    );
    let _ = client.input(&to_client, 0).unwrap();
    assert_eq!(client.stream_read(id), Ok(b"response".to_vec()));
    assert_eq!(client.stream_read(id), Err(Error::StreamClosed));
}

#[test]
fn own_connection_ids_are_recorded_and_retired() {
    let mut c = Connection::new(Role::Server);
    assert_eq!(c.active_local_ids(), 0);
    assert!(c.add_local_id(0, &[1, 2, 3], [4; 16]));
    assert!(!c.add_local_id(0, &[9], [9; 16]));
    assert!(c.add_local_id(1, &[5, 6], [7; 16]));
    assert_eq!(c.active_local_ids(), 2);
    assert!(c.retire_local_id(0));
    assert!(!c.retire_local_id(0));
    assert_eq!(c.active_local_ids(), 1);
    assert_eq!(c.active_peer_ids(), 0);
    assert_eq!(c.state(), State::WaitInitial);
}

#[test]
fn waiting_server_is_not_troubled_by_the_clock() {
    let mut s = Connection::new(Role::Server);
    assert_eq!(s.input(&datagram(&[]), u64::MAX), Ok((None, u64::MAX)));
    assert_eq!(s.state(), State::WaitInitial);
    assert_eq!(s.take_events(), vec![]);
}

#[test]
fn deadline_stops_at_the_end_of_time() {
    let mut c = Connection::new(Role::Client);
    assert_eq!(c.input(&datagram(&[]), u64::MAX - 3), Ok((None, u64::MAX)));
    assert_eq!(c.state(), State::Handshaking);
}
