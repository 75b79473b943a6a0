use neqo_transport::error::Error;
use neqo_transport::stream::Stream;

#[test]
fn inbound_data_is_charged_by_the_highest_offset() {
    let mut s = Stream::new(10, 10);
    assert_eq!(s.inbound_credit(4), 4);
    assert_eq!(s.inbound(2, b"cd", false), Ok(()));
    assert_eq!(s.inbound_credit(4), 0);
    assert_eq!(s.inbound_credit(7), 3);
    assert_eq!(s.inbound(0, b"ab", false), Ok(()));
    assert_eq!(s.inbound_credit(7), 3);
    assert_eq!(s.next_rx_offset(), 4);
    assert_eq!(s.inbound(2, b"cd", false), Ok(()));
    assert_eq!(s.inbound_credit(5), 1);
}

#[test]
fn inbound_data_beyond_the_credit_is_refused() {
    let mut s = Stream::new(4, 10);
    assert_eq!(s.inbound(3, b"de", false), Err(Error::FlowControlViolation));
    assert_eq!(s.inbound(5, b"", false), Err(Error::FlowControlViolation));
    assert_eq!(s.inbound(0, b"abcd", false), Ok(()));
    assert_eq!(s.inbound(4, b"e", false), Err(Error::FlowControlViolation));
    assert_eq!(s.next_rx_offset(), 4);
}

#[test]
fn reading_raises_the_credit_of_the_peer() {
    let mut s = Stream::new(4, 10);
    assert_eq!(s.inbound(0, b"abc", false), Ok(()));
    let (data, limit) = s.read();
    assert_eq!(data, b"abc".to_vec());
    assert_eq!(limit, Some(7));
    let (data, limit) = s.read();
    assert_eq!(data, Vec::<u8>::new());
    assert_eq!(limit, None);
    assert_eq!(s.inbound(3, b"defg", false), Ok(()));
    assert_eq!(s.inbound(7, b"h", false), Err(Error::FlowControlViolation));
    let (data, limit) = s.read();
    assert_eq!(data, b"defg".to_vec());
    assert_eq!(limit, Some(11));
}

#[test]
fn data_on_a_reset_stream_is_discarded() {
    let mut s = Stream::new(4, 10);
    assert!(!s.read_closed());
    s.reset_read();
    assert!(s.read_closed());
    assert!(s.read_finished());
    assert_eq!(s.inbound(0, b"ab", false), Ok(()));
    assert_eq!(s.inbound(100, b"far beyond the credit", true), Ok(()));
    assert_eq!(s.next_rx_offset(), 0);
    assert_eq!(s.inbound_credit(2), 2);
}

#[test]
fn stream_errors_of_the_reassembler_pass_through() {
    let mut s = Stream::new(100, 10);
    assert_eq!(s.inbound(5, b"fgh", true), Ok(()));
    assert_eq!(s.inbound(6, b"gX", false), Err(Error::StreamDataConflict));
    assert_eq!(s.inbound(8, b"i", false), Err(Error::FinalSizeViolation));
    assert_eq!(s.inbound(u64::MAX, b"i", false), Err(Error::FinalSizeViolation));
    assert_eq!(s.inbound_credit(9), 1);
}

#[test]
fn write_is_charged_and_bounded_by_the_credit() {
    let mut s = Stream::new(4, 5);
    assert_eq!(s.tx_limit(), 5);
    assert!(!s.tx_blocked());
    assert_eq!(s.write(b"abc", false), Ok((0, 3)));
    assert_eq!(s.write(b"def", false), Err(Error::FlowControlViolation));
    assert_eq!(s.write(b"de", false), Ok((3, 5)));
    assert!(s.tx_blocked());
    assert_eq!(s.write(b"", false), Ok((5, 5)));
    assert_eq!(s.write(b"f", false), Err(Error::FlowControlViolation));
    assert!(s.credit_received(8));
    assert!(!s.credit_received(6));
    assert_eq!(s.tx_limit(), 8);
    assert_eq!(s.write(b"fgh", true), Ok((5, 8)));
    assert!(s.write_closed());
    assert_eq!(s.write(b"", false), Err(Error::StreamClosed));
}

#[test]
fn write_after_stop_sending_is_refused() {
    let mut s = Stream::new(4, 5);
    assert!(!s.write_closed());
    s.stop_sending();
    assert!(s.write_closed());
    assert_eq!(s.write(b"a", false), Err(Error::StreamClosed));
    assert_eq!(s.write(b"abcdefgh", false), Err(Error::StreamClosed));
}

#[test]
fn stream_ends_when_both_sides_are_done() {
    let mut s = Stream::new(10, 10);
    assert!(!s.finished());
    assert_eq!(s.write(b"abc", true), Ok((0, 3)));
    assert!(!s.finished());
    assert_eq!(s.inbound(0, b"xy", true), Ok(()));
    assert!(!s.read_finished());
    let (data, _) = s.read();
    assert_eq!(data, b"xy".to_vec());
    assert!(s.read_finished());
    assert!(!s.finished());
    s.mark_acked(0, 2);
    assert!(!s.finished());
    s.mark_acked(2, 3);
    assert!(s.finished());
}

#[test]
fn limits_are_cut_down_to_the_largest_offset() {
    let mut s = Stream::new(u64::MAX, u64::MAX);
    assert_eq!(s.tx_limit(), (1 << 62) - 1);
    assert!(!s.credit_received(u64::MAX));
    assert_eq!(s.tx_limit(), (1 << 62) - 1);
    assert_eq!(s.inbound((1 << 62) - 2, b"a", true), Ok(()));
    assert_eq!(s.inbound_credit((1 << 62) - 1), 0);
}
