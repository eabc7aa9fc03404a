use cmux::websocket::{compute_websocket_accept, is_websocket_upgrade, websocket_key, HandshakeError};

#[test]
fn websocket_accept_matches_rfc_example() {
    let key = "dGhlIHNhbXBsZSBub25jZQ==";
    let accept = compute_websocket_accept(key);
    assert_eq!(accept, "s3pPLMBiTxaQ9kYGzzhZRbK+xOo=");
}

#[test]
fn websocket_key_is_checked() {
    assert_eq!(websocket_key(None), Err(HandshakeError::MissingKey));
    assert_eq!(websocket_key(Some("  \t")), Err(HandshakeError::InvalidKey));
    assert_eq!(websocket_key(Some(" abc== ")), Ok("abc==".to_string()));
    assert_eq!(HandshakeError::MissingKey.message(), "missing Sec-WebSocket-Key header");
}

#[test]
fn websocket_upgrade_detection() {
    let conn = vec!["keep-alive, Upgrade".to_string()];
    assert!(is_websocket_upgrade(true, &conn, Some("WebSocket"), Some("13"), true));
    assert!(!is_websocket_upgrade(false, &conn, Some("websocket"), Some("13"), true));
    assert!(!is_websocket_upgrade(true, &conn, Some("websocket"), Some("8"), true));
    assert!(!is_websocket_upgrade(true, &vec!["close".to_string()], Some("websocket"), Some("13"), true));
    assert!(!is_websocket_upgrade(true, &conn, Some("websocket"), Some("13"), false));
}
