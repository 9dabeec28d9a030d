use sao::error::ProtocolError;
use sao::{msg_type, parse_header, write_header, FrameCodec, HEADER_LEN, VERSION};

#[test]
fn roundtrip_over_duplex() {
    let ca = FrameCodec::new(());
    let cb = FrameCodec::new(());
    let body = br#"{"nonce":"eA==","session_id":"s1"}"#;
    let bytes = ca.encode_frame(msg_type::AUTH_CHALLENGE, body).unwrap();
    let (f, n) = cb.decode_frame(&bytes).unwrap();
    assert_eq!(f.msg_type, msg_type::AUTH_CHALLENGE);
    assert_eq!(f.payload, body);
    assert_eq!(n, bytes.len());
}

#[test]
fn payload_too_large_rejected_on_read() {
    let cb = FrameCodec::with_max_payload_len((), 10);
    let mut hdr = [0u8; HEADER_LEN];
    write_header(&mut hdr, VERSION, msg_type::ERROR, 11);
    let mut bytes = hdr.to_vec();
    bytes.extend_from_slice(&[0u8; 11]);
    let err = cb.decode_frame(&bytes).unwrap_err();
    match err {
        ProtocolError::PayloadTooLarge { len: 11, max: 10 } => {}
        e => panic!("expected PayloadTooLarge, got {e:?}"),
    }
    assert!(matches!(cb.check_header(&hdr), Err(ProtocolError::PayloadTooLarge { len: 11, max: 10 })));
}

#[test]
fn bad_magic_fails() {
    let cb = FrameCodec::new(());
    let mut bytes = b"XXX".to_vec();
    bytes.extend_from_slice(&[VERSION, 1, 0, 0, 0, 0]);
    let err = cb.decode_frame(&bytes).unwrap_err();
    assert!(matches!(err, ProtocolError::InvalidMagic));
}

#[test]
fn wrong_version_fails() {
    let cb = FrameCodec::new(());
    let mut hdr = [0u8; HEADER_LEN];
    write_header(&mut hdr, 0xFF, msg_type::ERROR, 0);
    let err = cb.decode_frame(&hdr).unwrap_err();
    assert!(matches!(err, ProtocolError::UnsupportedVersion { got: 0xFF }));
}

#[test]
fn header_layout_is_big_endian() {
    let mut hdr = [0u8; HEADER_LEN];
    write_header(&mut hdr, VERSION, msg_type::EXEC_SHELL, 0x0102_0304);
    assert_eq!(hdr, [0x53, 0x41, 0x4F, 0x01, 0x10, 0x01, 0x02, 0x03, 0x04]);
    assert_eq!(parse_header(&hdr).unwrap(), (VERSION, msg_type::EXEC_SHELL, 0x0102_0304));
}

#[test]
fn write_refuses_oversized_payload() {
    let c = FrameCodec::with_max_payload_len((), 4);
    assert_eq!(c.max_payload_len(), 4);
    assert!(matches!(
        c.encode_frame(msg_type::ERROR, &[0u8; 5]),
        Err(ProtocolError::PayloadTooLarge { len: 5, max: 4 })
    ));
    assert!(c.encode_frame(msg_type::ERROR, &[0u8; 4]).is_ok());
    let h = c.encode_header(msg_type::EXEC_EXIT, 3).unwrap();
    assert_eq!(&h[..], &[0x53, 0x41, 0x4F, 0x01, 0x13, 0, 0, 0, 3]);
}

#[test]
fn truncated_stream_is_unexpected_eof() {
    let c = FrameCodec::new(());
    let bytes = c.encode_frame(msg_type::STREAM_STDOUT, b"hello").unwrap();
    for cut in 0..bytes.len() {
        assert!(matches!(c.decode_frame(&bytes[..cut]), Err(ProtocolError::UnexpectedEof)));
    }
    let mut two = bytes.clone();
    two.extend_from_slice(&bytes);
    let (f, n) = c.decode_frame(&two).unwrap();
    assert_eq!(f.payload, b"hello");
    assert_eq!(n, bytes.len());
}

#[test]
fn codec_accessors() {
    let mut c = FrameCodec::new(vec![1u8]);
    assert_eq!(c.max_payload_len(), sao::DEFAULT_MAX_PAYLOAD_LEN);
    assert_eq!(c.get_ref(), &vec![1u8]);
    c.get_mut().push(2);
    assert_eq!(c.into_inner(), vec![1u8, 2]);
}

#[test]
fn protocol_error_messages() {
    assert_eq!(ProtocolError::UnexpectedEof.message(), "unexpected end of stream");
    assert_eq!(ProtocolError::InvalidMagic.message(), "invalid frame magic (expected SAO)");
    assert_eq!(
        ProtocolError::UnsupportedVersion { got: 0xff }.message(),
        "unsupported protocol version: 0xff"
    );
    assert_eq!(
        ProtocolError::PayloadTooLarge { len: 11, max: 10 }.message(),
        "payload length 11 exceeds maximum 10"
    );
    assert_eq!(
        ProtocolError::PayloadLengthOverflow { len: 7 }.message(),
        "payload length 7 too large for this platform"
    );
    let io = ProtocolError::from(std::io::Error::new(std::io::ErrorKind::Other, "boom"));
    assert_eq!(io.message(), "io error: boom");
}
