use remote_viewer_host::protocol::{
    decode_header, frame_payload, parse_agent_message, read_message, u32_from_be, u32_to_be,
    u64_from_be, u64_to_be, write_message, FrameError, FrameHeader, ProtocolError, FRAME,
    MAX_PAYLOAD, PING, PONG,
};

#[test]
fn protocol_roundtrip_and_limit() {
    let mut bytes = Vec::new();
    write_message(&mut bytes, FRAME, &frame_payload(3, 800, 600, &[1, 2])).unwrap();
    let (kind, payload) = read_message(&mut bytes.as_slice(), 100).unwrap();
    assert_eq!(kind, FRAME);
    assert_eq!(u64::from_be_bytes(payload[..8].try_into().unwrap()), 3);
    assert!(read_message(&mut bytes.as_slice(), 3).is_err());
}

#[test]
fn message_layout_is_header_then_payload() {
    let mut bytes = Vec::new();
    write_message(&mut bytes, 7, &[9, 8, 7]).unwrap();
    assert_eq!(bytes, vec![1, 7, 0, 0, 0, 3, 9, 8, 7]);
}

#[test]
fn empty_payload_message() {
    let mut bytes = vec![0xAA];
    write_message(&mut bytes, PING, &[]).unwrap();
    assert_eq!(bytes, vec![0xAA, 1, PING, 0, 0, 0, 0]);
}

#[test]
fn oversized_payload_is_refused_and_nothing_written() {
    let mut bytes = vec![5];
    let big = vec![0u8; MAX_PAYLOAD + 1];
    assert_eq!(write_message(&mut bytes, FRAME, &big), Err(ProtocolError::PayloadTooLarge));
    assert_eq!(bytes, vec![5]);
    let exact = vec![0u8; MAX_PAYLOAD];
    assert!(write_message(&mut bytes, FRAME, &exact).is_ok());
    assert_eq!(bytes.len(), 1 + 6 + MAX_PAYLOAD);
}

#[test]
fn two_messages_read_back_in_order() {
    let mut bytes = Vec::new();
    write_message(&mut bytes, PING, &[]).unwrap();
    write_message(&mut bytes, PONG, &[4, 5]).unwrap();
    let mut reader = bytes.as_slice();
    assert_eq!(read_message(&mut reader, 10).unwrap(), (PING, vec![]));
    assert_eq!(read_message(&mut reader, 10).unwrap(), (PONG, vec![4, 5]));
    assert!(reader.is_empty());
    assert_eq!(read_message(&mut reader, 10), Err(ProtocolError::UnexpectedEof));
}

#[test]
fn read_errors() {
    let mut short: &[u8] = &[1, 5, 0];
    assert_eq!(read_message(&mut short, 10), Err(ProtocolError::UnexpectedEof));
    assert!(short.is_empty());
    let mut bad_version: &[u8] = &[2, 5, 0, 0, 0, 0, 9];
    assert_eq!(read_message(&mut bad_version, 10), Err(ProtocolError::UnsupportedVersion));
    assert_eq!(bad_version, &[9]);
    let mut over_limit: &[u8] = &[1, 5, 0, 0, 0, 4, 1, 2, 3, 4];
    assert_eq!(read_message(&mut over_limit, 3), Err(ProtocolError::PayloadLimitExceeded));
    assert_eq!(over_limit, &[1, 2, 3, 4]);
    let mut over_max: &[u8] = &[1, 5, 1, 0, 0, 1];
    assert_eq!(read_message(&mut over_max, usize::MAX), Err(ProtocolError::PayloadLimitExceeded));
    let mut truncated: &[u8] = &[1, 5, 0, 0, 0, 4, 1, 2];
    assert_eq!(read_message(&mut truncated, 10), Err(ProtocolError::UnexpectedEof));
    assert!(truncated.is_empty());
}

#[test]
fn header_decoding() {
    assert_eq!(decode_header([1, 9, 0, 0, 1, 0], 256), Ok((9, 256)));
    assert_eq!(decode_header([1, 9, 0, 0, 1, 1], 256), Err(ProtocolError::PayloadLimitExceeded));
    assert_eq!(decode_header([0, 9, 0, 0, 0, 0], 256), Err(ProtocolError::UnsupportedVersion));
    assert_eq!(decode_header([1, 9, 1, 0, 0, 0], usize::MAX), Ok((9, MAX_PAYLOAD)));
}

#[test]
fn big_endian_helpers() {
    assert_eq!(u32_to_be(0x01020304), [1, 2, 3, 4]);
    assert_eq!(u32_from_be(&[0xFF, 0, 0, 0x10]), 0xFF00_0010);
    assert_eq!(u64_to_be(0x0102030405060708), [1, 2, 3, 4, 5, 6, 7, 8]);
    assert_eq!(u64_from_be(&[0xFF; 8]), u64::MAX);
    for x in [0u64, 1, 255, 256, 0xDEADBEEF, u64::MAX] {
        assert_eq!(u64_from_be(&u64_to_be(x)), x);
        assert_eq!(u64_to_be(x), x.to_be_bytes());
    }
}

#[test]
fn frame_payload_layout() {
    let p = frame_payload(0x0102030405060708, 800, 600, &[9, 9, 9]);
    assert_eq!(
        p,
        vec![1, 2, 3, 4, 5, 6, 7, 8, 0, 0, 3, 32, 0, 0, 2, 88, 0, 0, 0, 3, 9, 9, 9]
    );
}

#[test]
fn agent_frames_are_checked() {
    let p = frame_payload(42, 1920, 1080, &[1, 2, 3]);
    assert_eq!(
        parse_agent_message(FRAME, &p),
        Ok(Some(FrameHeader { id: 42, width: 1920, height: 1080 }))
    );
    assert_eq!(parse_agent_message(PING, &[]), Ok(None));
    assert_eq!(parse_agent_message(PONG, &p), Err(FrameError::BadFrame));
    assert_eq!(parse_agent_message(FRAME, &p[..19]), Err(FrameError::BadFrame));
    assert_eq!(
        parse_agent_message(FRAME, &frame_payload(1, 0, 10, &[])),
        Err(FrameError::InvalidDimensions)
    );
    assert_eq!(
        parse_agent_message(FRAME, &frame_payload(1, 16385, 10, &[])),
        Err(FrameError::InvalidDimensions)
    );
    assert_eq!(
        parse_agent_message(FRAME, &frame_payload(1, 16384, 16384, &[])),
        Ok(Some(FrameHeader { id: 1, width: 16384, height: 16384 }))
    );
    let mut bad_len = frame_payload(1, 10, 10, &[1, 2]);
    bad_len.push(3);
    assert_eq!(parse_agent_message(FRAME, &bad_len), Err(FrameError::InvalidDimensions));
}
