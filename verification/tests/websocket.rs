use mttp::http::protocol::{parse_request, write_response};
use mttp::websocket::base64::encode;
use mttp::websocket::sha1::sha1;
use mttp::websocket::connection::{encode_message, recv_step};
use mttp::websocket::frame::{FrameParse, WebsocketFrame, WebsocketFrameRef};
use mttp::websocket::{
    websocket_handshake, CloseReason, CodeRange, OpCode, ProtocolError, RecvStep, TypeLock,
    WebSocketMessage, WebSocketMessageRef,
};

#[test]
fn base_64_dec_test1() {
    let s = "amogus amogus amogus the voices the voices the fog is coming the fog is coming";
    let encoded = encode(s.as_bytes());

    let expected = "YW1vZ3VzIGFtb2d1cyBhbW9ndXMgdGhlIHZvaWNlcyB0aGUgdm9pY2VzIHRoZSBmb2cgaXMgY29taW5nIHRoZSBmb2cgaXMgY29taW5n";

    assert_eq!(encoded, expected);
}

#[test]
fn base_64_dec_test2() {
    let s = "Lorem ipsum dolor sit amet consectetur adipisicing elit. Veniam neque in tempore sunt ut aliquid, laudantium, sapiente error soluta animi eveniet facere laboriosam fugit optio autem odio harum, vitae eligendi sint esse quasi. Vero, dolores quidem ad ipsa beatae sequi quibusdam! Facere animi accusantium quae, quo optio nobis quidem in.";
    let encoded = encode(s.as_bytes());

    let expected = "TG9yZW0gaXBzdW0gZG9sb3Igc2l0IGFtZXQgY29uc2VjdGV0dXIgYWRpcGlzaWNpbmcgZWxpdC4gVmVuaWFtIG5lcXVlIGluIHRlbXBvcmUgc3VudCB1dCBhbGlxdWlkLCBsYXVkYW50aXVtLCBzYXBpZW50ZSBlcnJvciBzb2x1dGEgYW5pbWkgZXZlbmlldCBmYWNlcmUgbGFib3Jpb3NhbSBmdWdpdCBvcHRpbyBhdXRlbSBvZGlvIGhhcnVtLCB2aXRhZSBlbGlnZW5kaSBzaW50IGVzc2UgcXVhc2kuIFZlcm8sIGRvbG9yZXMgcXVpZGVtIGFkIGlwc2EgYmVhdGFlIHNlcXVpIHF1aWJ1c2RhbSEgRmFjZXJlIGFuaW1pIGFjY3VzYW50aXVtIHF1YWUsIHF1byBvcHRpbyBub2JpcyBxdWlkZW0gaW4u";

    assert_eq!(encoded, expected);
}

#[test]
fn sha1_test1() {
    let s = "amogus amogus amogus the voices the voices the fog is coming the fog is coming";
    let hash = sha1(s.as_bytes());

    let result = [
        0x71, 0x39, 0xad, 0xa5, 0x9a, 0x60, 0x6c, 0xce, 0xbd, 0x15, 0x56, 0x44, 0x38, 0x6b, 0xd1,
        0x13, 0xa4, 0xf0, 0x8a, 0xe5,
    ];
    assert_eq!(hash, result.to_vec());
}

#[test]
fn test_frame_deser() {
    let stream = [
        0b10000001u8, // fin, opcode 1 (text)
        0b10011010,   // mask, payload len (26)
        0b11110000,   // masking key
        0b00001111,   // masking key
        0b11110000,   // masking key
        0b00001111,   // masking key
        184,          // payload
        106, 156, 99, 159, 47, 167, 96, 130, 99, 148, 47, 184, 106, 156, 99, 159, 47, 167, 96,
        130, 99, 148, 46, 209, 46,
    ];

    let parsed = match WebsocketFrame::parse(&stream).unwrap() {
        FrameParse::Frame { frame, consumed } => {
            assert_eq!(consumed, stream.len());
            frame
        }
        _ => panic!("expected a whole frame"),
    };

    assert!(parsed.fin);
    assert_eq!(parsed.opcode, OpCode::Text);
    assert_eq!(parsed.payload, b"Hello World Hello World!!!".to_vec());
}

#[test]
fn test_frame_ser() {
    const TEXT: &[u8; 16] = b"Man I love Fauna";

    let frame = WebsocketFrameRef {
        fin: true,
        opcode: OpCode::Text,
        payload: TEXT,
    };

    let written = frame.write();

    let mut reference = vec![0b10000001u8, 0b00010000];
    reference.extend(TEXT);

    assert_eq!(written, reference);
}

fn masked(header: &[u8], key: [u8; 4], payload: &[u8]) -> Vec<u8> {
    let mut out = header.to_vec();
    out.extend(key);
    for (i, b) in payload.iter().enumerate() {
        out.push(b ^ key[i % 4]);
    }
    out
}

#[test]
fn test_length_encoding_boundaries() {
    // 125 bytes: the seven-bit form
    let w = WebsocketFrameRef { fin: true, opcode: OpCode::Binary, payload: &[7u8; 125] }.write();
    assert_eq!(&w[..2], &[0x82, 125]);
    assert_eq!(w.len(), 2 + 125);

    // 126 bytes: the 16-bit form appears
    let w = WebsocketFrameRef { fin: true, opcode: OpCode::Binary, payload: &[7u8; 126] }.write();
    assert_eq!(&w[..4], &[0x82, 126, 0, 126]);
    assert_eq!(w.len(), 4 + 126);

    // 65535 bytes: still the 16-bit form
    let w =
        WebsocketFrameRef { fin: true, opcode: OpCode::Binary, payload: &vec![7u8; 65535] }.write();
    assert_eq!(&w[..4], &[0x82, 126, 0xFF, 0xFF]);
    assert_eq!(w.len(), 4 + 65535);

    // 65536 bytes: the 64-bit form
    let w =
        WebsocketFrameRef { fin: true, opcode: OpCode::Binary, payload: &vec![7u8; 65536] }.write();
    assert_eq!(&w[..10], &[0x82, 127, 0, 0, 0, 0, 0, 1, 0, 0]);
    assert_eq!(w.len(), 10 + 65536);
}

#[test]
fn test_parse_needs_more_bytes() {
    match WebsocketFrame::parse(&[0x81]).unwrap() {
        FrameParse::NeedMore { needed } => assert_eq!(needed, 2),
        _ => panic!("expected a request for more bytes"),
    }
    // masked text frame announcing 5 payload bytes, none arrived yet
    match WebsocketFrame::parse(&[0x81, 0x85, 1, 2, 3, 4]).unwrap() {
        FrameParse::NeedMore { needed } => assert_eq!(needed, 11),
        _ => panic!("expected a request for more bytes"),
    }
}

#[test]
fn test_parse_rejects_invalid_opcode() {
    assert_eq!(
        WebsocketFrame::parse(&[0x83, 0x80]),
        Err(ProtocolError::InvalidOpcode(3))
    );
}

#[test]
fn test_parse_rejects_reserved_bits() {
    assert_eq!(
        WebsocketFrame::parse(&[0xC1, 0x80]),
        Err(ProtocolError::ReservedBitsSet)
    );
}

#[test]
fn test_parse_rejects_unmasked_client_frame() {
    assert_eq!(
        WebsocketFrame::parse(&[0x81, 0x05]),
        Err(ProtocolError::UnmaskedClientMessage)
    );
}

#[test]
fn test_parse_rejects_oversized_control_payload() {
    assert_eq!(
        WebsocketFrame::parse(&[0x89, 0xFE, 0x00, 0x7E]),
        Err(ProtocolError::ControlPayloadTooLarge(126))
    );
}

#[test]
fn test_parse_rejects_payload_over_limit() {
    // a claimed 4 GiB payload is refused before any of it is read
    let bytes = [0x81, 0xFF, 0, 0, 0, 1, 0, 0, 0, 0, 9, 9, 9, 9];
    assert_eq!(
        WebsocketFrame::parse(&bytes),
        Err(ProtocolError::PayloadTooLarge(1 << 32))
    );
}

fn parse_one(bytes: &[u8]) -> WebsocketFrame {
    match WebsocketFrame::parse(bytes).unwrap() {
        FrameParse::Frame { frame, .. } => frame,
        _ => panic!("expected a whole frame"),
    }
}

#[test]
fn test_websocket_echo_handshake_and_frames() {
    // Handshake with the sample nonce
    let req = parse_request(
        b"GET /ws/test HTTP/1.1\r\nUpgrade: websocket\r\nConnection: Upgrade\r\nSec-WebSocket-Key: dGhlIHNhbXBsZSBub25jZQ==\r\n\r\n"
            .as_slice(),
    )
    .unwrap();
    let resp = websocket_handshake(&req).unwrap();
    assert_eq!(
        resp.headers.get("Sec-WebSocket-Accept").unwrap(),
        "s3pPLMBiTxaQ9kYGzzhZRbK+xOo="
    );
    assert_eq!(resp.headers.get("Upgrade").unwrap(), "websocket");
    assert_eq!(resp.headers.get("Connection").unwrap(), "Upgrade");
    let wire = write_response(resp);
    assert!(String::from_utf8(wire).unwrap().starts_with("HTTP/1.1 101 Switching Protocols"));

    // A masked Text frame carrying "Hello" echoes as an unmasked one
    let key = [0xF0u8, 0x0F, 0xAA, 0x55];
    let frame = parse_one(&masked(&[0x81, 0x85], key, b"Hello"));
    match recv_step(TypeLock::Empty, frame) {
        RecvStep::Deliver(WebSocketMessage::Text(t)) => {
            assert_eq!(t, "Hello");
            let reply = encode_message(&WebSocketMessageRef::Text(&t));
            let mut expected = vec![0x81u8, 0x05];
            expected.extend(b"Hello");
            assert_eq!(reply, expected);
        }
        _ => panic!("expected the text message"),
    }

    // A close with code 1000 is reflected with code 1000
    let frame = parse_one(&masked(&[0x88, 0x82], key, &[0x03, 0xE8]));
    match recv_step(TypeLock::Empty, frame) {
        RecvStep::CloseReply { close, msg } => {
            let close = close.unwrap();
            assert_eq!(close.raw_code(), 1000);
            assert!(matches!(close.code, CodeRange::Defined(CloseReason::Normal)));
            assert!(matches!(msg, WebSocketMessage::Close(Some(_))));
            let reply = encode_message(&WebSocketMessageRef::Close(Some(&close)));
            assert_eq!(reply, vec![0x88, 0x02, 0x03, 0xE8]);
        }
        _ => panic!("expected the close reply"),
    }
}

#[test]
fn test_handshake_missing_upgrade_header() {
    let req = parse_request(b"GET /ws HTTP/1.1\r\nSec-WebSocket-Key: abc\r\n\r\n".as_slice()).unwrap();
    let e = websocket_handshake(&req).unwrap_err();
    assert!(matches!(
        e,
        mttp::Error::MissingOrInvalidWebsocketHeader { header: "Upgrade" }
    ));
}

#[test]
fn test_handshake_missing_key_header() {
    let req =
        parse_request(b"GET /ws HTTP/1.1\r\nUpgrade: WebSocket\r\n\r\n".as_slice()).unwrap();
    let e = websocket_handshake(&req).unwrap_err();
    assert!(matches!(
        e,
        mttp::Error::MissingOrInvalidWebsocketHeader { header: "Sec-WebSocket-Key" }
    ));
}

#[test]
fn test_fragmented_text_reassembly() {
    // a 15000-byte text splits into one Text fragment and one final Continue
    let payload = vec![b'a'; 15000];
    let text = String::from_utf8(payload.clone()).unwrap();
    let wire = encode_message(&WebSocketMessageRef::Text(&text));
    assert_eq!(&wire[..4], &[0x01, 126, 0x28, 0x00]);
    let second = 4 + 10240;
    assert_eq!(&wire[second..second + 4], &[0x80, 126, 0x12, 0x98]);
    assert_eq!(wire.len(), 4 + 10240 + 4 + 4760);

    // feeding the two fragments back, masked, returns the message
    let key = [9u8, 8, 7, 6];
    let f1 = parse_one(&masked(&[0x01, 0xFE, 0x28, 0x00], key, &payload[..10240]));
    let lock = match recv_step(TypeLock::Empty, f1) {
        RecvStep::Acquire(lock) => lock,
        _ => panic!("expected the first fragment to open a message"),
    };
    let f2 = parse_one(&masked(&[0x80, 0xFE, 0x12, 0x98], key, &payload[10240..]));
    match recv_step(lock, f2) {
        RecvStep::Deliver(WebSocketMessage::Text(t)) => assert_eq!(t, text),
        _ => panic!("expected the finished message"),
    }
}

#[test]
fn test_ping_is_answered_and_noted() {
    let key = [1u8, 2, 3, 4];
    let frame = parse_one(&masked(&[0x89, 0x83], key, b"abc"));
    match recv_step(TypeLock::Empty, frame) {
        RecvStep::ReplyPong { pong, note, lock } => {
            assert_eq!(pong, b"abc".to_vec());
            assert!(matches!(note, WebSocketMessage::Ping(p) if p == b"abc".to_vec()));
            assert!(matches!(lock, TypeLock::Empty));
        }
        _ => panic!("expected the pong reply"),
    }
}

#[test]
fn test_pong_is_queued() {
    let key = [1u8, 2, 3, 4];
    let frame = parse_one(&masked(&[0x8A, 0x82], key, b"hi"));
    match recv_step(TypeLock::Empty, frame) {
        RecvStep::Enqueue(WebSocketMessage::Pong(p), TypeLock::Empty) => {
            assert_eq!(p, b"hi".to_vec())
        }
        _ => panic!("expected the pong to be queued"),
    }
}

#[test]
fn test_ping_inside_fragmented_message_keeps_the_lock() {
    let key = [3u8, 1, 4, 1];
    // a Text fragment opens a message...
    let f1 = parse_one(&masked(&[0x01, 0x83], key, b"Hel"));
    let lock = match recv_step(TypeLock::Empty, f1) {
        RecvStep::Acquire(lock) => lock,
        _ => panic!("expected the fragment to open a message"),
    };
    // ...a ping arrives in between and hands the lock back...
    let ping = parse_one(&masked(&[0x89, 0x82], key, b"hi"));
    let lock = match recv_step(lock, ping) {
        RecvStep::ReplyPong { pong, note, lock } => {
            assert_eq!(pong, b"hi".to_vec());
            assert!(matches!(note, WebSocketMessage::Ping(_)));
            lock
        }
        _ => panic!("expected the pong reply"),
    };
    assert!(matches!(lock, TypeLock::Text(_)));
    // ...and the final Continue still finishes the message
    let f2 = parse_one(&masked(&[0x80, 0x82], key, b"lo"));
    match recv_step(lock, f2) {
        RecvStep::Deliver(WebSocketMessage::Text(t)) => assert_eq!(t, "Hello"),
        _ => panic!("expected the finished message"),
    }
}

#[test]
fn test_control_frame_without_fin_is_refused() {
    let key = [1u8, 2, 3, 4];
    let frame = parse_one(&masked(&[0x09, 0x80], key, b""));
    assert!(matches!(
        recv_step(TypeLock::Empty, frame),
        RecvStep::Failed(ProtocolError::ControlFrameNotFin)
    ));
}

#[test]
fn test_continue_without_start_is_refused() {
    let key = [1u8, 2, 3, 4];
    let frame = parse_one(&masked(&[0x80, 0x80], key, b""));
    assert!(matches!(
        recv_step(TypeLock::Empty, frame),
        RecvStep::Failed(ProtocolError::ContinueWithoutStart)
    ));
}

#[test]
fn test_new_message_during_assembly_is_refused() {
    let key = [1u8, 2, 3, 4];
    let frame = parse_one(&masked(&[0x81, 0x81], key, b"x"));
    assert!(matches!(
        recv_step(TypeLock::Text(b"part".to_vec()), frame),
        RecvStep::Failed(ProtocolError::AttemptToStartNewMessageWithoutFin)
    ));
}

#[test]
fn test_invalid_utf8_text_is_refused() {
    let key = [1u8, 2, 3, 4];
    let frame = parse_one(&masked(&[0x81, 0x81], key, &[0xFF]));
    assert!(matches!(
        recv_step(TypeLock::Empty, frame),
        RecvStep::Failed(ProtocolError::InvalidUtf8)
    ));
}

#[test]
fn test_close_code_classification() {
    for code in [1000u16, 1001, 1002, 1003, 1007, 1008, 1009, 1010, 1011] {
        let cr = CodeRange::parse(code).unwrap();
        assert_eq!(cr.code(), code);
        assert!(matches!(cr, CodeRange::Defined(_)));
    }
    assert!(matches!(CodeRange::parse(3000), Ok(CodeRange::Registered(3000))));
    assert!(matches!(CodeRange::parse(4999), Ok(CodeRange::Custom(4999))));
    for code in [999u16, 1004, 1005, 1006, 1012, 2999, 5000] {
        assert_eq!(CodeRange::parse(code), Err(ProtocolError::InvalidCloseCode(code)));
    }
}

#[test]
fn test_close_frame_with_invalid_code() {
    let key = [1u8, 2, 3, 4];
    let frame = parse_one(&masked(&[0x88, 0x82], key, &[0x03, 0xEC]));
    assert!(matches!(
        recv_step(TypeLock::Empty, frame),
        RecvStep::Failed(ProtocolError::InvalidCloseCode(1004))
    ));
}

#[test]
fn test_close_frame_with_one_byte_payload() {
    let key = [1u8, 2, 3, 4];
    let frame = parse_one(&masked(&[0x88, 0x81], key, &[0x03]));
    assert!(matches!(
        recv_step(TypeLock::Empty, frame),
        RecvStep::Failed(ProtocolError::InvalidCloseFrame)
    ));
}

#[test]
fn test_close_frame_with_reason_round_trips() {
    let key = [5u8, 6, 7, 8];
    let mut payload = vec![0x03u8, 0xE8];
    payload.extend(b"bye");
    let frame = parse_one(&masked(&[0x88, 0x85], key, &payload));
    match recv_step(TypeLock::Empty, frame) {
        RecvStep::CloseReply { close, .. } => {
            let close = close.unwrap();
            assert_eq!(close.raw_code(), 1000);
            assert_eq!(close.reason.as_deref(), Some("bye"));
            let reply = encode_message(&WebSocketMessageRef::Close(Some(&close)));
            let mut expected = vec![0x88u8, 0x05, 0x03, 0xE8];
            expected.extend(b"bye");
            assert_eq!(reply, expected);
        }
        _ => panic!("expected the close reply"),
    }
}

#[test]
fn test_protocol_error_close_codes() {
    assert_eq!(ProtocolError::InvalidUtf8.close().raw_code(), 1007);
    assert_eq!(ProtocolError::PayloadTooLarge(9).close().raw_code(), 1009);
    assert_eq!(ProtocolError::ContinueWithoutStart.close().raw_code(), 1002);
}

#[test]
fn test_mask_twice_restores_payload() {
    let key = [0x12u8, 0x34, 0x56, 0x78];
    let payload = b"some payload bytes".to_vec();
    let xor = |data: &[u8]| -> Vec<u8> {
        data.iter().enumerate().map(|(i, b)| b ^ key[i % 4]).collect()
    };
    let once = xor(&payload);
    let twice = xor(&once);
    assert_eq!(twice, payload);
}
