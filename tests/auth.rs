use chat_relay::auth::{
    check_token, contains_bytes, default_token, fail_reply, is_auth_success, success_reply,
    token_frame,
};
use chat_relay::frame::encode_frame;

#[test]
fn default_token_is_the_shared_literal() {
    assert_eq!(default_token(), b"SECRET_TOKEN".to_vec());
    assert_eq!(success_reply(), b"Authentication Successful".to_vec());
    assert_eq!(fail_reply(), b"FAIL".to_vec());
}

#[test]
fn right_token_is_accepted() {
    let out = check_token(b"SECRET_TOKEN", b"SECRET_TOKEN");
    assert!(out.accepted);
    assert_eq!(out.reply, encode_frame(b"Authentication Successful"));
}

#[test]
fn wrong_token_gets_fail_frame() {
    let out = check_token(b"SECRET_TOKEN", b"SECRET_TOKEX");
    assert!(!out.accepted);
    assert_eq!(out.reply, vec![0, 0, 0, 4, b'F', b'A', b'I', b'L']);
    assert!(!check_token(b"SECRET_TOKEN", b"").accepted);
    assert!(!check_token(b"SECRET_TOKEN", b"SECRET_TOKEN ").accepted);
}

#[test]
fn token_frame_carries_the_token() {
    assert_eq!(token_frame(b"SECRET_TOKEN")[..4], [0, 0, 0, 12]);
}

#[test]
fn success_marker_is_found_anywhere() {
    assert!(is_auth_success(b"Authentication Successful"));
    assert!(is_auth_success(b"\xff Authentication Successful!"));
    assert!(!is_auth_success(b"FAIL"));
    assert!(!is_auth_success(b"Authentication Successfu"));
    assert!(!is_auth_success(b""));
}

#[test]
fn substring_search() {
    assert!(contains_bytes(b"abc", b""));
    assert!(contains_bytes(b"abc", b"bc"));
    assert!(!contains_bytes(b"abc", b"abcd"));
    assert!(!contains_bytes(b"aab", b"abb"));
}
