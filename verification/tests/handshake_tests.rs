use base64::Engine;
use sha1::Digest;
use ws_codec::{IOFailure, Request};

const GUID: &str = "258EAFA5-E914-47DA-95CA-C5AB0DC85B11";

fn expected_accept(key: &str) -> String {
    let mut hasher = sha1::Sha1::new();
    hasher.update(key.as_bytes());
    hasher.update(GUID.as_bytes());
    base64::engine::general_purpose::STANDARD.encode(hasher.finalize())
}

fn expected_response(key: &str) -> String {
    format!(
        "HTTP/1.1 101 Switching Protocols\r\nUpgrade: websocket\r\nConnection: Upgrade\r\nSec-WebSocket-Accept: {}\r\n\r\n",
        expected_accept(key)
    )
}

#[test]
fn handshake_matches_the_protocol_example() {
    let raw = b"GET /chat HTTP/1.1\r\nHost: server.example.com\r\nUpgrade: websocket\r\nConnection: Upgrade\r\nSec-WebSocket-Key: dGhlIHNhbXBsZSBub25jZQ==\r\nSec-WebSocket-Version: 13\r\n\r\n";
    let request = Request::new(raw).expect("valid utf-8");
    let response = request.response().expect("key present");
    assert!(response.contains("Sec-WebSocket-Accept: s3pPLMBiTxaQ9kYGzzhZRbK+xOo=\r\n"));
    assert_eq!(response, expected_response("dGhlIHNhbXBsZSBub25jZQ=="));
}

#[test]
fn header_name_is_case_insensitive() {
    let raw = b"GET / HTTP/1.1\r\nSEC-WEBSOCKET-KEY: abcDEF==\r\n\r\n";
    let request = Request::new(raw).expect("valid utf-8");
    let response = request.response().expect("key present");
    assert_eq!(response, expected_response("abcDEF=="));
}

#[test]
fn later_duplicate_header_wins() {
    let raw = b"GET / HTTP/1.1\r\nSec-WebSocket-Key: first\r\nSec-WebSocket-Key: second\r\n\r\n";
    let request = Request::new(raw).expect("valid utf-8");
    let response = request.response().expect("key present");
    assert_eq!(response, expected_response("second"));
}

#[test]
fn value_whitespace_is_trimmed() {
    let raw = b"GET / HTTP/1.1\r\nSec-WebSocket-Key:   spaced==  \r\n\r\n";
    let request = Request::new(raw).expect("valid utf-8");
    let response = request.response().expect("key present");
    assert_eq!(response, expected_response("spaced=="));
}

#[test]
fn missing_key_yields_no_response() {
    let raw = b"GET / HTTP/1.1\r\nHost: example.com\r\n\r\n";
    let request = Request::new(raw).expect("valid utf-8");
    assert!(request.response().is_none());
}

#[test]
fn key_in_request_line_position_is_ignored() {
    // The first line is the request line, never a header.
    let raw = b"Sec-WebSocket-Key: sneaky\r\nHost: example.com\r\n\r\n";
    let request = Request::new(raw).expect("valid utf-8");
    assert!(request.response().is_none());
}

#[test]
fn invalid_utf8_request_is_rejected() {
    let raw = [0x47u8, 0x45, 0x54, 0xff, 0xfe];
    match Request::new(&raw) {
        Err(e) => assert_eq!(e, IOFailure::InvalidUtf8),
        Ok(_) => panic!("invalid utf-8 accepted"),
    }
}
