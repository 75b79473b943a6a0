use neqo_transport::error::Error;

#[test]
fn codes_of_the_errors() {
    assert_eq!(Error::FlowControlViolation.code(), 0x3);
    assert_eq!(Error::InvalidStreamId.code(), 0x5);
    assert_eq!(Error::StreamClosed.code(), 0x5);
    assert_eq!(Error::FinalSizeViolation.code(), 0x6);
    assert_eq!(Error::MalformedFrame.code(), 0x7);
    assert_eq!(Error::ConnectionIdLimit.code(), 0x9);
    assert_eq!(Error::StreamDataConflict.code(), 0xa);
    assert_eq!(Error::DuplicateSequence.code(), 0xa);
    assert_eq!(Error::ConnectionClosed.code(), 0x0);
}

#[test]
fn violations_of_the_protocol_are_told_apart() {
    for e in [
        Error::FlowControlViolation,
        Error::FinalSizeViolation,
        Error::StreamDataConflict,
        Error::InvalidStreamId,
        Error::DuplicateSequence,
        Error::ConnectionIdLimit,
    ] {
        assert!(e.is_protocol_violation());
    }
    for e in [Error::MalformedFrame, Error::StreamClosed, Error::ConnectionClosed] {
        assert!(!e.is_protocol_violation());
    }
}
