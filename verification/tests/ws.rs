use golfsetridak::ws::base64::encode;
use golfsetridak::ws::conn::{close_payload, parse_close, ping_payload, Link, Reassembly, Step};
use golfsetridak::ws::frame::{read_frame, write_frame, Frame, FrameError, Opcode};
use golfsetridak::ws::handshake::{accept_key, client_key, is_websocket_upgrade};
use golfsetridak::ws::message::Message;

/// Encode a masked client frame the way a browser would, for round-trips.
fn masked_client_frame(fin: bool, opcode: Opcode, payload: &[u8], mask: [u8; 4]) -> Vec<u8> {
    let mut out = vec![if fin { 0x80 } else { 0 } | opcode.to_u8()];
    let len = payload.len();
    if len < 126 {
        out.push(0x80 | len as u8);
    } else if len <= u16::MAX as usize {
        out.push(0x80 | 126);
        out.extend_from_slice(&(len as u16).to_be_bytes());
    } else {
        out.push(0x80 | 127);
        out.extend_from_slice(&(len as u64).to_be_bytes());
    }
    out.extend_from_slice(&mask);
    out.extend(payload.iter().enumerate().map(|(i, b)| b ^ mask[i % 4]));
    out
}

/// Split a raw request head into its method and its header list.
fn req(raw: &str) -> (String, Vec<(String, String)>) {
    let mut lines = raw.split("\r\n");
    let request_line = lines.next().unwrap();
    let method = request_line.split(' ').next().unwrap().to_string();
    let mut headers = Vec::new();
    for line in lines {
        if line.is_empty() {
            break;
        }
        let (name, value) = line.split_once(':').unwrap();
        headers.push((name.trim().to_string(), value.trim().to_string()));
    }
    (method, headers)
}

#[test]
fn rfc4648_vectors() {
    assert_eq!(encode(b""), "");
    assert_eq!(encode(b"f"), "Zg==");
    assert_eq!(encode(b"fo"), "Zm8=");
    assert_eq!(encode(b"foo"), "Zm9v");
    assert_eq!(encode(b"foob"), "Zm9vYg==");
    assert_eq!(encode(b"fooba"), "Zm9vYmE=");
    assert_eq!(encode(b"foobar"), "Zm9vYmFy");
}

#[test]
fn encodes_high_bytes() {
    assert_eq!(encode(&[0xff, 0xff, 0xff]), "////");
    assert_eq!(encode(&[0x00, 0x00, 0x00]), "AAAA");
}

#[test]
fn reads_and_unmasks_a_short_text_frame() {
    let bytes = masked_client_frame(true, Opcode::Text, b"Hello", [0x37, 0xfa, 0x21, 0x3d]);
    let (frame, used) = read_frame(&bytes, 1024).unwrap();
    assert_eq!(used, bytes.len());
    assert_eq!(frame.opcode, Opcode::Text);
    assert!(frame.fin);
    assert_eq!(frame.payload, b"Hello");
}

#[test]
fn reads_a_126_extended_length_frame() {
    let payload = vec![b'z'; 200];
    let bytes = masked_client_frame(true, Opcode::Binary, &payload, [1, 2, 3, 4]);
    let (frame, used) = read_frame(&bytes, 1024).unwrap();
    assert_eq!(used, 2 + 2 + 4 + 200);
    assert_eq!(frame.payload, payload);
}

#[test]
fn rejects_unmasked_client_frame() {
    let bytes = vec![0x81, 0x00];
    match read_frame(&bytes, 1024) {
        Err(FrameError::Protocol(p)) => assert_eq!(p.code, 1002),
        other => panic!("expected protocol error, got {other:?}"),
    }
}

#[test]
fn rejects_oversized_payload() {
    let bytes = masked_client_frame(true, Opcode::Binary, &[0u8; 100], [9; 4]);
    match read_frame(&bytes, 10) {
        Err(FrameError::Protocol(p)) => assert_eq!(p.code, 1009),
        other => panic!("expected too-big, got {other:?}"),
    }
}

#[test]
fn rejects_fragmented_control_frame() {
    let bytes = masked_client_frame(false, Opcode::Ping, b"x", [9; 4]);
    match read_frame(&bytes, 1024) {
        Err(FrameError::Protocol(p)) => assert_eq!(p.code, 1002),
        other => panic!("expected protocol error, got {other:?}"),
    }
}

#[test]
fn server_frame_round_trips_unmasked() {
    let mut buf = Vec::new();
    write_frame(&mut buf, true, Opcode::Text, b"hi");
    assert_eq!(buf, vec![0x81, 0x02, b'h', b'i']);
}

#[test]
fn short_buffer_asks_for_more_bytes() {
    let bytes = masked_client_frame(true, Opcode::Text, b"Hello", [1, 2, 3, 4]);
    match read_frame(&bytes[..1], 1024) {
        Err(FrameError::Incomplete(n)) => assert_eq!(n, 2),
        other => panic!("expected incomplete, got {other:?}"),
    }
    match read_frame(&bytes[..7], 1024) {
        Err(FrameError::Incomplete(n)) => assert_eq!(n, bytes.len()),
        other => panic!("expected incomplete, got {other:?}"),
    }
}

#[test]
fn write_frame_uses_extended_lengths() {
    let mut buf = Vec::new();
    write_frame(&mut buf, true, Opcode::Binary, &vec![7u8; 300]);
    assert_eq!(&buf[..4], &[0x82, 126, 0x01, 0x2c]);
    assert_eq!(buf.len(), 4 + 300);
}

#[test]
fn rfc6455_accept_vector() {
    assert_eq!(
        accept_key("dGhlIHNhbXBsZSBub25jZQ=="),
        "s3pPLMBiTxaQ9kYGzzhZRbK+xOo="
    );
}

#[test]
fn recognises_a_valid_upgrade() {
    let (m, h) = req("GET /ws HTTP/1.1\r\nHost: x\r\nUpgrade: websocket\r\nConnection: keep-alive, Upgrade\r\nSec-WebSocket-Key: dGhlIHNhbXBsZSBub25jZQ==\r\nSec-WebSocket-Version: 13\r\n\r\n");
    assert!(is_websocket_upgrade(&m, &h));
    assert_eq!(client_key(&h), Some("dGhlIHNhbXBsZSBub25jZQ=="));
}

#[test]
fn case_insensitive_upgrade_token() {
    let (m, h) = req("GET / HTTP/1.1\r\nUpgrade: WebSocket\r\nConnection: UPGRADE\r\nSec-WebSocket-Key: abc\r\nSec-WebSocket-Version: 13\r\n\r\n");
    assert!(is_websocket_upgrade(&m, &h));
}

#[test]
fn rejects_wrong_version() {
    let (m, h) = req("GET / HTTP/1.1\r\nUpgrade: websocket\r\nConnection: Upgrade\r\nSec-WebSocket-Key: abc\r\nSec-WebSocket-Version: 8\r\n\r\n");
    assert!(!is_websocket_upgrade(&m, &h));
}

#[test]
fn rejects_post_and_missing_key() {
    let (m, h) = req("GET / HTTP/1.1\r\nUpgrade: websocket\r\nConnection: Upgrade\r\nSec-WebSocket-Version: 13\r\n\r\n");
    assert!(!is_websocket_upgrade(&m, &h));
    let (m, h) = req("POST / HTTP/1.1\r\nUpgrade: websocket\r\nConnection: Upgrade\r\nSec-WebSocket-Key: abc\r\nSec-WebSocket-Version: 13\r\n\r\n");
    assert!(!is_websocket_upgrade(&m, &h));
}

#[test]
fn close_payload_is_code_then_reason() {
    assert_eq!(close_payload(1000, "bye"), vec![0x03, 0xe8, b'b', b'y', b'e']);
    let long = "x".repeat(300);
    assert_eq!(close_payload(1000, &long).len(), 125);
}

#[test]
fn ping_payload_is_capped() {
    assert_eq!(ping_payload(b"abc"), b"abc".to_vec());
    assert_eq!(ping_payload(&vec![1u8; 200]).len(), 125);
}

#[test]
fn parse_close_reads_code_and_reason() {
    let c = parse_close(&[0x03, 0xe9, b'o', b'k']).unwrap();
    assert_eq!(c.code, 1001);
    assert_eq!(c.reason, "ok");
    assert!(parse_close(&[0x03]).is_none());
    // invalid UTF-8 in the reason is replaced, not refused
    let c = parse_close(&[0x03, 0xe8, 0xff]).unwrap();
    assert_eq!(c.reason, "\u{fffd}");
}

fn frame(fin: bool, opcode: Opcode, payload: &[u8]) -> Frame {
    Frame { fin, opcode, payload: payload.to_vec() }
}

#[test]
fn reassembles_fragmented_text() {
    let mut r = Reassembly::new();
    assert!(matches!(r.on_frame(frame(false, Opcode::Text, b"hel")), Step::Continue));
    match r.on_frame(frame(true, Opcode::Continuation, b"lo")) {
        Step::Deliver(Message::Text(t)) => assert_eq!(t, "hello"),
        _ => panic!("expected a text message"),
    }
}

#[test]
fn ping_is_answered_with_pong() {
    let mut r = Reassembly::new();
    match r.on_frame(frame(true, Opcode::Ping, b"p")) {
        Step::Pong(p) => assert_eq!(p, b"p".to_vec()),
        _ => panic!("expected a pong"),
    }
}

#[test]
fn invalid_utf8_text_closes_with_1007() {
    let mut r = Reassembly::new();
    match r.on_frame(frame(true, Opcode::Text, &[0xff, 0xfe])) {
        Step::Failed { reply, message: Message::Close(Some(c)) } => {
            assert_eq!(c.code, 1007);
            assert_eq!(&reply[..2], &[0x03, 0xef]);
        }
        _ => panic!("expected a failure"),
    }
}

#[test]
fn continuation_without_start_is_a_protocol_error() {
    let mut r = Reassembly::new();
    match r.on_frame(frame(true, Opcode::Continuation, b"x")) {
        Step::Failed { message: Message::Close(Some(c)), .. } => assert_eq!(c.code, 1002),
        _ => panic!("expected a failure"),
    }
}

#[test]
fn peer_close_is_echoed() {
    let mut r = Reassembly::new();
    match r.on_frame(frame(true, Opcode::Close, &[0x03, 0xe8])) {
        Step::Closed { reply, message: Message::Close(Some(c)) } => {
            assert_eq!(c.code, 1000);
            assert_eq!(reply, vec![0x03, 0xe8]);
        }
        _ => panic!("expected a close"),
    }
}

#[test]
fn no_payload_limit_with_usize_max() {
    let bytes = masked_client_frame(true, Opcode::Binary, &[7u8; 300], [1, 2, 3, 4]);
    let (frame, used) = read_frame(&bytes, usize::MAX).unwrap();
    assert_eq!(used, bytes.len());
    assert_eq!(frame.payload, vec![7u8; 300]);
    // a 64-bit length that cannot be held asks for as many bytes as fit
    let mut huge = vec![0x82, 0xff];
    huge.extend_from_slice(&(0x7fff_ffff_ffff_fff0u64).to_be_bytes());
    huge.extend_from_slice(&[0, 0, 0, 0]);
    match read_frame(&huge, usize::MAX) {
        Err(FrameError::Incomplete(n)) => assert_eq!(n as u64, 0x7fff_ffff_ffff_fff0u64 + 14),
        other => panic!("expected incomplete, got {other:?}"),
    }
}

#[test]
fn close_frame_with_code_only_has_empty_reason() {
    let bytes = masked_client_frame(true, Opcode::Close, &[0x03, 0xe8], [5, 6, 7, 8]);
    let (frame, _) = read_frame(&bytes, 1024).unwrap();
    let mut state = Reassembly::new();
    match state.on_frame(frame) {
        Step::Closed { reply, message: Message::Close(Some(c)) } => {
            assert_eq!(c.code, 1000);
            assert_eq!(c.reason, "");
            assert_eq!(reply, vec![0x03, 0xe8]);
        }
        _ => panic!("expected close"),
    }
}

#[test]
fn nothing_is_read_after_a_close() {
    let mut link = Link::new();
    assert!(link.may_read());
    link.after_step(&Step::Continue);
    link.after_step(&Step::Pong(vec![1]));
    assert!(link.may_read());
    let bytes = masked_client_frame(true, Opcode::Close, &[0x03, 0xe8], [5, 6, 7, 8]);
    let (frame, _) = read_frame(&bytes, 1024).unwrap();
    let step = Reassembly::new().on_frame(frame);
    link.after_step(&step);
    assert!(!link.may_read());
    link.after_step(&Step::Continue);
    assert!(!link.may_read());
    let mut other = Link::new();
    other.close();
    assert!(!other.may_read());
}
