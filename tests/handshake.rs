use websocket::handshake::{
    accept_key, check_upgrade_response, encode_sec_key, generate_response_key, generate_sec_key, split_lines,
    upgrade_request, upgrade_response, validate_upgrade_headers, HandshakeError,
};

const REQUEST: &str = "GET / HTTP/1.1\r\nHost: example.com\r\nUpgrade: websocket\r\nConnection: Upgrade\r\nSec-WebSocket-Key: dGhlIHNhbXBsZSBub25jZQ==\r\nSec-WebSocket-Version: 13\r\n\r\n";

#[test]
fn reference_accept_value() {
    assert_eq!(
        generate_response_key("dGhlIHNhbXBsZSBub25jZQ=="),
        "s3pPLMBiTxaQ9kYGzzhZRbK+xOo="
    );
    assert_eq!(accept_key(b"dGhlIHNhbXBsZSBub25jZQ=="), "s3pPLMBiTxaQ9kYGzzhZRbK+xOo=");
    assert_eq!(accept_key(b"").len(), 28);
}

#[test]
fn sec_key_of_nonce() {
    assert_eq!(encode_sec_key(b"the sample nonce"), "dGhlIHNhbXBsZSBub25jZQ==");
    assert_eq!(encode_sec_key(&[0xfb, 0xff]), "+/8=");
    assert_eq!(encode_sec_key(&[]), "");
}

#[test]
fn accepts_a_complete_request() {
    let response = upgrade_response(REQUEST.as_bytes(), "example.com").unwrap();
    assert_eq!(
        String::from_utf8(response).unwrap(),
        "HTTP/1.1 101 Switching Protocols\r\nUpgrade: websocket\r\nConnection: upgrade\r\nSec-Websocket-Accept: s3pPLMBiTxaQ9kYGzzhZRbK+xOo=\r\n\r\n"
    );
}

#[test]
fn refuses_without_version() {
    let request = REQUEST.replace("Sec-WebSocket-Version: 13\r\n", "");
    assert_eq!(
        upgrade_response(request.as_bytes(), "example.com"),
        Err(HandshakeError::Refused)
    );
    let request = REQUEST.replace("Version: 13", "Version: 8");
    assert_eq!(
        upgrade_response(request.as_bytes(), "example.com"),
        Err(HandshakeError::Refused)
    );
}

#[test]
fn refuses_other_host_or_missing_key() {
    assert_eq!(
        upgrade_response(REQUEST.as_bytes(), "other.org"),
        Err(HandshakeError::Refused)
    );
    let request = REQUEST.replace("Sec-WebSocket-Key: dGhlIHNhbXBsZSBub25jZQ==\r\n", "");
    assert_eq!(
        upgrade_response(request.as_bytes(), "example.com"),
        Err(HandshakeError::Refused)
    );
    assert_eq!(
        upgrade_response(&[0xff, 0xfe, b'\r', b'\n'], "example.com"),
        Err(HandshakeError::InvalidData)
    );
}

#[test]
fn host_value_is_trimmed() {
    let request = REQUEST.replace("Host: example.com", "HOST:  example.com \t");
    assert_eq!(
        validate_upgrade_headers(request.as_bytes(), b"example.com"),
        Some(b"dGhlIHNhbXBsZSBub25jZQ==".to_vec())
    );
}

#[test]
fn lines_are_split_like_text_lines() {
    assert_eq!(
        split_lines(b"a\r\nb\n\nc\r"),
        vec![b"a".to_vec(), b"b".to_vec(), b"".to_vec(), b"c\r".to_vec()]
    );
    assert_eq!(split_lines(b"x\n"), vec![b"x".to_vec()]);
    assert!(split_lines(b"").is_empty());
}

#[test]
fn initiator_request_and_check() {
    let key = generate_sec_key();
    assert_eq!(key.len(), 24);
    assert!(key.ends_with("=="));
    let request = upgrade_request("example.com", &key);
    let text = String::from_utf8(request.clone()).unwrap();
    assert!(text.starts_with("GET / HTTP/1.1\r\nHost: example.com\r\n"));
    assert!(text.ends_with("Sec-Websocket-Version: 13\r\n\r\n"));
    let response = upgrade_response(&request, "example.com").unwrap();
    assert_eq!(check_upgrade_response(&response, &key), Ok(()));
    assert_eq!(
        check_upgrade_response(&response, "dGhlIHNhbXBsZSBub25jZQ=="),
        Err(HandshakeError::InvalidData)
    );
    assert_eq!(
        check_upgrade_response(b"HTTP/1.1 101 Switching Protocols\r\n\r\n", &key),
        Err(HandshakeError::InvalidData)
    );
}
