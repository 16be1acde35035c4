use ws_codec::cursor::BufCursor;
use ws_codec::{Frame, FragmentedMessage, IOFailure, StatusCode, VecExt};

/// Builds a masked client frame: first header byte as given, the MASK bit set
/// in the length byte, then the mask key and the masked payload.
fn client_frame(b0: u8, payload: &[u8], mask: [u8; 4]) -> Vec<u8> {
    let mut out = vec![b0];
    let len = payload.len();
    if len <= 125 {
        out.push(0x80 | (len as u8));
    } else if len <= 65535 {
        out.push(0x80 | 126);
        out.extend_from_slice(&(len as u16).to_be_bytes());
    } else {
        out.push(0x80 | 127);
        out.extend_from_slice(&(len as u64).to_be_bytes());
    }
    out.extend_from_slice(&mask);
    for (i, b) in payload.iter().enumerate() {
        out.push(b ^ mask[i % 4]);
    }
    out
}

fn parse_one(bytes: &[u8], tracker: &mut FragmentedMessage) -> Result<Frame, IOFailure> {
    let mut cursor = BufCursor::new(bytes);
    Frame::parse(&mut cursor, tracker)
}

fn empty_tracker() -> FragmentedMessage {
    FragmentedMessage::Text(Vec::new())
}

#[test]
fn length_round_trip_boundaries() {
    for len in [0usize, 1, 125, 126, 127, 65535, 65536] {
        let encoded = Frame::payload_length_response(len);
        let first = encoded[0];
        let mut cursor = BufCursor::new(&encoded[1..]);
        let decoded = Frame::payload_length(&mut cursor, first);
        assert_eq!(decoded, Ok(len as u64), "length {len}");
        assert_eq!(cursor.remaining(), 0, "length {len} left bytes over");
    }
}

#[test]
fn masking_is_self_inverse() {
    for mask in [[0x00, 0x00, 0x00, 0x00], [0x11, 0x22, 0x33, 0x44], [0xff, 0x01, 0x80, 0x7f]] {
        for len in 0..300usize {
            let payload: Vec<u8> = (0..len).map(|i| (i * 7 + 3) as u8).collect();
            let bytes = client_frame(0x82, &payload, mask);
            let mut tracker = empty_tracker();
            match parse_one(&bytes, &mut tracker) {
                Ok(Frame::Binary(decoded)) => assert_eq!(decoded, payload, "length {len}"),
                other => panic!("length {len}: unexpected result {other:?}"),
            }
        }
    }
}

#[test]
fn invalid_utf8_text_is_rejected() {
    let bytes = client_frame(0x81, &[0xff, 0xfe, 0x41], [9, 8, 7, 6]);
    let mut tracker = empty_tracker();
    match parse_one(&bytes, &mut tracker) {
        Ok(Frame::Close(StatusCode::InvalidDataFormat)) => {}
        other => panic!("unexpected result {other:?}"),
    }
}

#[test]
fn valid_text_is_decoded() {
    let bytes = client_frame(0x81, "héllo".as_bytes(), [1, 2, 3, 4]);
    let mut tracker = empty_tracker();
    match parse_one(&bytes, &mut tracker) {
        Ok(Frame::Text(s)) => assert_eq!(s, "héllo"),
        other => panic!("unexpected result {other:?}"),
    }
}

#[test]
fn lone_final_continuation_is_protocol_error() {
    let bytes = client_frame(0x80, b"tail", [1, 2, 3, 4]);
    let mut tracker = empty_tracker();
    match parse_one(&bytes, &mut tracker) {
        Ok(Frame::Close(StatusCode::ProtocolError)) => {}
        other => panic!("unexpected result {other:?}"),
    }
}

#[test]
fn lone_nonfinal_continuation_is_protocol_error() {
    let bytes = client_frame(0x00, b"tail", [1, 2, 3, 4]);
    let mut tracker = empty_tracker();
    match parse_one(&bytes, &mut tracker) {
        Ok(Frame::Close(StatusCode::ProtocolError)) => {}
        other => panic!("unexpected result {other:?}"),
    }
}

#[test]
fn close_length_rules() {
    let mut tracker = empty_tracker();
    let one = client_frame(0x88, &[0x03], [1, 2, 3, 4]);
    match parse_one(&one, &mut tracker) {
        Ok(Frame::Close(StatusCode::ProtocolError)) => {}
        other => panic!("length 1: unexpected result {other:?}"),
    }
    let long = client_frame(0x88, &[0x20; 126], [1, 2, 3, 4]);
    match parse_one(&long, &mut tracker) {
        Ok(Frame::Close(StatusCode::ProtocolError)) => {}
        other => panic!("length 126: unexpected result {other:?}"),
    }
    let empty = client_frame(0x88, &[], [1, 2, 3, 4]);
    match parse_one(&empty, &mut tracker) {
        Ok(Frame::Close(StatusCode::Normal)) => {}
        other => panic!("length 0: unexpected result {other:?}"),
    }
}

#[test]
fn close_code_rules() {
    let mut tracker = empty_tracker();
    // 1004 is not in the allow-list.
    let disallowed = client_frame(0x88, &[0x03, 0xec], [1, 2, 3, 4]);
    match parse_one(&disallowed, &mut tracker) {
        Ok(Frame::Close(StatusCode::ProtocolError)) => {}
        other => panic!("code 1004: unexpected result {other:?}"),
    }
    // 1000 with a valid UTF-8 reason is accepted as a normal closure.
    let mut payload = vec![0x03, 0xe8];
    payload.extend_from_slice("bye".as_bytes());
    let allowed = client_frame(0x88, &payload, [1, 2, 3, 4]);
    match parse_one(&allowed, &mut tracker) {
        Ok(Frame::Close(StatusCode::Normal)) => {}
        other => panic!("code 1000: unexpected result {other:?}"),
    }
    // 1000 with a reason that is not UTF-8 is a protocol error.
    let bad_reason = client_frame(0x88, &[0x03, 0xe8, 0xff], [1, 2, 3, 4]);
    match parse_one(&bad_reason, &mut tracker) {
        Ok(Frame::Close(StatusCode::ProtocolError)) => {}
        other => panic!("bad reason: unexpected result {other:?}"),
    }
}

#[test]
fn fragmented_text_reassembly() {
    let mut tracker = empty_tracker();
    let first = client_frame(0x01, b"Hel", [1, 2, 3, 4]);
    match parse_one(&first, &mut tracker) {
        Ok(Frame::Continuation(None)) => {}
        other => panic!("first fragment: unexpected result {other:?}"),
    }
    let second = client_frame(0x00, b"lo, ", [5, 6, 7, 8]);
    match parse_one(&second, &mut tracker) {
        Ok(Frame::Continuation(None)) => {}
        other => panic!("second fragment: unexpected result {other:?}"),
    }
    let last = client_frame(0x80, b"world!", [9, 10, 11, 12]);
    match parse_one(&last, &mut tracker) {
        Ok(Frame::Continuation(Some(FragmentedMessage::Text(chunks)))) => {
            let joined: Vec<u8> = chunks.concat();
            assert_eq!(joined, b"Hello, world!");
        }
        other => panic!("final fragment: unexpected result {other:?}"),
    }
}

#[test]
fn fragmented_binary_reassembly_after_reset() {
    let mut tracker = empty_tracker();
    let first = client_frame(0x02, &[1, 2], [1, 2, 3, 4]);
    match parse_one(&first, &mut tracker) {
        Ok(Frame::Continuation(None)) => {}
        other => panic!("first fragment: unexpected result {other:?}"),
    }
    let last = client_frame(0x80, &[3, 4], [5, 6, 7, 8]);
    match parse_one(&last, &mut tracker) {
        Ok(Frame::Continuation(Some(FragmentedMessage::Binary(chunks)))) => {
            assert_eq!(chunks.concat(), vec![1, 2, 3, 4]);
        }
        other => panic!("final fragment: unexpected result {other:?}"),
    }
}

#[test]
fn invalid_fragmented_text_is_rejected() {
    let mut tracker = empty_tracker();
    let first = client_frame(0x01, &[0xff], [1, 2, 3, 4]);
    assert!(matches!(parse_one(&first, &mut tracker), Ok(Frame::Continuation(None))));
    let last = client_frame(0x80, b"", [5, 6, 7, 8]);
    match parse_one(&last, &mut tracker) {
        Ok(Frame::Close(StatusCode::InvalidDataFormat)) => {}
        other => panic!("unexpected result {other:?}"),
    }
}

#[test]
fn unfragmented_frame_during_fragmentation_is_protocol_error() {
    let mut tracker = empty_tracker();
    let first = client_frame(0x01, b"He", [1, 2, 3, 4]);
    assert!(matches!(parse_one(&first, &mut tracker), Ok(Frame::Continuation(None))));
    let text = client_frame(0x81, b"oops", [5, 6, 7, 8]);
    match parse_one(&text, &mut tracker) {
        Ok(Frame::Close(StatusCode::ProtocolError)) => {}
        other => panic!("unexpected result {other:?}"),
    }
}

#[test]
fn unmasked_frame_is_protocol_error() {
    for b0 in [0x81u8, 0x82, 0x88, 0x89, 0x8a] {
        let bytes = vec![b0, 0x02, 0x41, 0x42];
        let mut tracker = empty_tracker();
        match parse_one(&bytes, &mut tracker) {
            Ok(Frame::Close(StatusCode::ProtocolError)) => {}
            other => panic!("opcode {b0:#x}: unexpected result {other:?}"),
        }
    }
}

#[test]
fn reserved_bits_are_protocol_error() {
    let bytes = client_frame(0xc1, b"hi", [1, 2, 3, 4]);
    let mut tracker = empty_tracker();
    match parse_one(&bytes, &mut tracker) {
        Ok(Frame::Close(StatusCode::ProtocolError)) => {}
        other => panic!("unexpected result {other:?}"),
    }
}

#[test]
fn unknown_opcode_is_protocol_error() {
    let bytes = client_frame(0x83, b"x", [1, 2, 3, 4]);
    let mut tracker = empty_tracker();
    match parse_one(&bytes, &mut tracker) {
        Ok(Frame::Close(StatusCode::ProtocolError)) => {}
        other => panic!("unexpected result {other:?}"),
    }
}

#[test]
fn ping_round_trip() {
    let encoded = Frame::Ping(vec![0x01, 0x02]).response().expect("ping encodes");
    // The codec answers a ping with a pong frame: FIN set, opcode 0xA.
    assert_eq!(encoded, vec![0x8a, 0x02, 0x01, 0x02]);
    // A client echo of those bytes (masked) decodes as a pong carrying the
    // original payload.
    let echoed = client_frame(encoded[0], &encoded[2..], [0x21, 0x43, 0x65, 0x87]);
    let mut tracker = empty_tracker();
    match parse_one(&echoed, &mut tracker) {
        Ok(Frame::Pong(payload)) => assert_eq!(payload, vec![0x01, 0x02]),
        other => panic!("unexpected result {other:?}"),
    }
}

#[test]
fn ping_is_decoded() {
    let bytes = client_frame(0x89, &[0x01, 0x02], [1, 2, 3, 4]);
    let mut tracker = empty_tracker();
    match parse_one(&bytes, &mut tracker) {
        Ok(Frame::Ping(payload)) => assert_eq!(payload, vec![0x01, 0x02]),
        other => panic!("unexpected result {other:?}"),
    }
}

#[test]
fn oversized_ping_is_protocol_error() {
    let bytes = client_frame(0x89, &[0x20; 126], [1, 2, 3, 4]);
    let mut tracker = empty_tracker();
    match parse_one(&bytes, &mut tracker) {
        Ok(Frame::Close(StatusCode::ProtocolError)) => {}
        other => panic!("unexpected result {other:?}"),
    }
}

#[test]
fn truncated_inputs_report_the_right_failure() {
    let mut tracker = empty_tracker();
    assert_eq!(parse_one(&[], &mut tracker).unwrap_err(), IOFailure::TruncatedHeader);
    assert_eq!(parse_one(&[0x81], &mut tracker).unwrap_err(), IOFailure::TruncatedHeader);
    assert_eq!(parse_one(&[0x81, 0xfe], &mut tracker).unwrap_err(), IOFailure::TruncatedLength);
    assert_eq!(
        parse_one(&[0x81, 0xff, 0, 0, 0, 0, 0, 0, 0], &mut tracker).unwrap_err(),
        IOFailure::TruncatedLength
    );
    assert_eq!(
        parse_one(&[0x81, 0x82, 1, 2, 3], &mut tracker).unwrap_err(),
        IOFailure::TruncatedMask
    );
    assert_eq!(
        parse_one(&[0x81, 0x82, 1, 2, 3, 4, 9], &mut tracker).unwrap_err(),
        IOFailure::TruncatedPayload
    );
}

#[test]
fn responses_are_encoded_exactly() {
    assert_eq!(
        Frame::Text("Hi".to_string()).response(),
        Some(vec![0x81, 0x02, b'H', b'i'])
    );
    assert_eq!(
        Frame::Binary(vec![9, 8, 7]).response(),
        Some(vec![0x82, 0x03, 9, 8, 7])
    );
    assert_eq!(
        Frame::Close(StatusCode::Normal).response(),
        Some(vec![0x88, 0x02, 0x03, 0xe8])
    );
    assert_eq!(
        Frame::Close(StatusCode::ProtocolError).response(),
        Some(vec![0x88, 0x02, 0x03, 0xea])
    );
    assert_eq!(
        Frame::Close(StatusCode::InvalidDataFormat).response(),
        Some(vec![0x88, 0x02, 0x03, 0xef])
    );
    assert_eq!(Frame::Continuation(None).response(), None);
    assert_eq!(Frame::Pong(vec![1]).response(), None);
    let reassembled = FragmentedMessage::Text(vec![b"ab".to_vec(), b"c".to_vec()]);
    assert_eq!(
        Frame::Continuation(Some(reassembled)).response(),
        Some(vec![0x81, 0x03, b'a', b'b', b'c'])
    );
}

#[test]
fn long_response_uses_extended_length() {
    let payload = vec![0x55u8; 300];
    let encoded = Frame::Binary(payload.clone()).response().expect("binary encodes");
    assert_eq!(encoded[0], 0x82);
    assert_eq!(encoded[1], 126);
    assert_eq!(&encoded[2..4], &(300u16).to_be_bytes());
    assert_eq!(&encoded[4..], &payload[..]);
}

#[test]
fn status_codes_have_their_wire_values() {
    assert_eq!(StatusCode::Normal.code(), 1000);
    assert_eq!(StatusCode::ProtocolError.code(), 1002);
    assert_eq!(StatusCode::InvalidDataFormat.code(), 1007);
}

#[test]
fn frame_predicates() {
    assert!(Frame::Close(StatusCode::Normal).is_close());
    assert!(!Frame::Close(StatusCode::Normal).is_text());
    assert!(Frame::Text("x".to_string()).is_text());
    assert!(Frame::Binary(vec![]).is_binary());
    assert!(Frame::Continuation(None).is_continuation());
    assert!(!Frame::Ping(vec![]).is_close());
}

#[test]
fn encoded_close_is_recognised() {
    let encoded = Frame::Close(StatusCode::Normal).response().unwrap();
    assert!(encoded.is_close());
    assert!(!vec![0x81u8, 0x00].is_close());
    assert!(!Vec::<u8>::new().is_close());
}
