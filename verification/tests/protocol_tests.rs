use simple_discover::error::DiscoverError;
use simple_discover::protocol::decode_frame;
use simple_discover::protocol::decode_message;
use simple_discover::protocol::encode_frame;
use simple_discover::protocol::encode_request;
use simple_discover::protocol::encode_response;
use simple_discover::protocol::FrameError;
use simple_discover::protocol::MSG_TYPE_REQUEST;
use simple_discover::protocol::MSG_TYPE_RESPONSE;
use simple_discover::protocol::PROTOCOL_HEADER_SIZE;

fn protocol_message(res: Result<simple_discover::protocol::Frame, DiscoverError>) -> String {
    match res {
        Err(DiscoverError::Protocol(m)) => m,
        Err(other) => panic!("unexpected error: {}", other.message()),
        Ok(_) => panic!("expected an error"),
    }
}

#[test]
fn request_has_empty_payload_and_header_only() {
    let buf = encode_request();
    assert_eq!(buf.len(), PROTOCOL_HEADER_SIZE);
    assert_eq!(
        buf,
        vec![0x43, 0x53, 0x44, 0x53, 0, 0, 0, 0, 0, 0, 0, 0, 0]
    );
}

#[test]
fn checksum_is_crc32_ieee() {
    // The standard check value of CRC-32 (IEEE) on "123456789" is 0xCBF43926.
    let buf = encode_frame(7, b"123456789");
    assert_eq!(&buf[9..13], &[0x26, 0x39, 0xF4, 0xCB]);
    assert_eq!(&buf[5..9], &[9, 0, 0, 0]);
    assert_eq!(buf[4], 7);
    assert_eq!(&buf[13..], b"123456789");
}

#[test]
fn response_without_custom_data_is_empty() {
    let buf = encode_response(None);
    assert_eq!(
        buf,
        vec![0x43, 0x53, 0x44, 0x53, 1, 0, 0, 0, 0, 0, 0, 0, 0]
    );
    let frame = decode_message(&buf).ok().unwrap();
    assert_eq!(frame.msg_type, MSG_TYPE_RESPONSE);
    assert!(frame.payload.is_empty());
}

#[test]
fn response_carries_custom_data_verbatim() {
    let data = br#"{"name":"My Server","version":"1.0.0"}"#;
    let buf = encode_response(Some(&data[..]));
    assert_eq!(buf.len(), PROTOCOL_HEADER_SIZE + data.len());
    assert_eq!(&buf[13..], &data[..]);
    let frame = decode_message(&buf).ok().unwrap();
    assert_eq!(frame.msg_type, MSG_TYPE_RESPONSE);
    assert_eq!(frame.payload, data.to_vec());
}

#[test]
fn decode_gives_back_what_encode_framed() {
    for (t, payload) in [(0u8, &b""[..]), (1, &b"42"[..]), (200, &b"\"text\""[..])] {
        let buf = encode_frame(t, payload);
        let frame = decode_frame(&buf).ok().unwrap();
        assert_eq!(frame.msg_type, t);
        assert_eq!(frame.payload, payload.to_vec());
    }
}

#[test]
fn trailing_bytes_after_a_message_are_ignored() {
    let mut buf = encode_response(Some(&b"0"[..]));
    let message_len = buf.len();
    buf.extend_from_slice(b"garbage");
    let frame = decode_message(&buf).ok().unwrap();
    assert_eq!(frame.payload, b"0".to_vec());
    assert_eq!(encode_frame(frame.msg_type, &frame.payload), buf[..message_len].to_vec());
}

#[test]
fn request_decodes_as_request() {
    let frame = decode_message(&encode_request()).ok().unwrap();
    assert_eq!(frame.msg_type, MSG_TYPE_REQUEST);
    assert!(frame.payload.is_empty());
}

#[test]
fn too_short_buffer_is_refused() {
    let buf = [0x43u8, 0x53, 0x44, 0x53, 0];
    assert!(matches!(decode_frame(&buf), Err(FrameError::TooShort { len: 5 })));
    assert_eq!(
        protocol_message(decode_message(&buf)),
        "Buffer too short: 5 bytes, expected at least 13"
    );
}

#[test]
fn wrong_magic_is_refused() {
    let mut buf = encode_request();
    buf[0] = 0x44;
    assert!(matches!(decode_frame(&buf), Err(FrameError::BadMagic { magic: 0x53445344 })));
    assert_eq!(protocol_message(decode_message(&buf)), "Invalid magic: 0x53445344");
    let zeros = [0u8; 13];
    assert_eq!(protocol_message(decode_message(&zeros)), "Invalid magic: 0x00000000");
}

#[test]
fn incomplete_payload_is_refused() {
    let buf = encode_response(Some(&b"[1,2,3]"[..]));
    let cut = &buf[..buf.len() - 2];
    assert!(matches!(
        decode_frame(cut),
        Err(FrameError::Incomplete { available: 5, needed: 7 })
    ));
    assert_eq!(
        protocol_message(decode_message(cut)),
        "Incomplete message: buffer has 5 bytes, payload needs 7 bytes"
    );
}

#[test]
fn corrupted_payload_is_refused() {
    let mut buf = encode_frame(1, b"123456789");
    buf[13] = b'0';
    match decode_frame(&buf) {
        Err(FrameError::CrcMismatch { expected, actual }) => {
            assert_eq!(expected, 0xCBF43926);
            assert_ne!(actual, expected);
        }
        _ => panic!("expected a checksum mismatch"),
    }
    let message = protocol_message(decode_message(&buf));
    assert!(message.starts_with("CRC32 mismatch: expected 0xCBF43926, got 0x"));
    assert_eq!(message.len(), "CRC32 mismatch: expected 0xCBF43926, got 0x".len() + 8);
}

#[test]
fn payload_that_is_not_json_is_refused() {
    let buf = encode_frame(1, b"{not json");
    assert!(decode_frame(&buf).is_ok());
    let message = protocol_message(decode_message(&buf));
    let reason = serde_json::from_slice::<serde_json::Value>(b"{not json").unwrap_err();
    assert_eq!(message, format!("Failed to parse JSON: {}", reason));
    let mut longer = buf.clone();
    longer.extend_from_slice(b"{}");
    assert_eq!(protocol_message(decode_message(&longer)), message);
}

#[test]
fn error_texts_are_described() {
    assert_eq!(
        FrameError::Incomplete { available: 0, needed: 4294967295 }.describe(),
        "Incomplete message: buffer has 0 bytes, payload needs 4294967295 bytes"
    );
    assert_eq!(
        FrameError::CrcMismatch { expected: 0xABCDEF01, actual: 0x10 }.describe(),
        "CRC32 mismatch: expected 0xABCDEF01, got 0x00000010"
    );
    assert_eq!(
        FrameError::BadMagic { magic: 0xFFFFFFFF }.describe(),
        "Invalid magic: 0xFFFFFFFF"
    );
}

#[test]
fn trailing_bytes_do_not_change_a_refusal() {
    let mut buf = encode_frame(1, b"123456789");
    buf[13] = b'0';
    let alone = protocol_message(decode_message(&buf));
    buf.extend_from_slice(&encode_request());
    assert_eq!(protocol_message(decode_message(&buf)), alone);
}
