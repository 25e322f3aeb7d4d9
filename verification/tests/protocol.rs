//! Wire-level behaviour: decimal formatting and parsing, base64, JSON
//! escaping, message rendering and client-message parsing.

use vernam::base64::base64_encode;
use vernam::digits::{fmt_usize, parse_usize};
use vernam::messages::{
    parse_client_message, parse_stateless_request, render_server_message, ClientMessage,
    ServerMessage,
};

#[test]
fn fmt_renders_decimal() {
    assert_eq!(fmt_usize(0), "0");
    assert_eq!(fmt_usize(7), "7");
    assert_eq!(fmt_usize(16384), "16384");
    assert_eq!(fmt_usize(100000), "100000");
}

#[test]
fn parse_reads_decimal() {
    assert_eq!(parse_usize("0"), Some(0));
    assert_eq!(parse_usize("100"), Some(100));
    assert_eq!(parse_usize("+42"), Some(42));
    assert_eq!(parse_usize(""), None);
    assert_eq!(parse_usize("+"), None);
    assert_eq!(parse_usize("12a"), None);
    assert_eq!(parse_usize("-3"), None);
    assert_eq!(parse_usize("99999999999999999999999"), None);
}

#[test]
fn base64_classic_vectors() {
    assert_eq!(base64_encode(&b"".to_vec()), "");
    assert_eq!(base64_encode(&b"f".to_vec()), "Zg==");
    assert_eq!(base64_encode(&b"fo".to_vec()), "Zm8=");
    assert_eq!(base64_encode(&b"foo".to_vec()), "Zm9v");
    assert_eq!(base64_encode(&b"foob".to_vec()), "Zm9vYg==");
    assert_eq!(base64_encode(&b"fooba".to_vec()), "Zm9vYmE=");
    assert_eq!(base64_encode(&b"foobar".to_vec()), "Zm9vYmFy");
}

#[test]
fn base64_length_of_chunk() {
    let data = vec![0u8; 16384];
    assert_eq!(base64_encode(&data).len(), 4 * ((16384 + 2) / 3));
}

#[test]
fn render_progress_exact() {
    let m = ServerMessage::Progress { current: 3, total: 3 };
    assert_eq!(
        render_server_message(&m),
        r#"{"type":"progress","current":3,"total":3}"#
    );
}

#[test]
fn render_session_complete_exact() {
    let m = ServerMessage::SessionComplete { total_chunks: 5 };
    assert_eq!(
        render_server_message(&m),
        r#"{"type":"session_complete","total_chunks":5}"#
    );
}

#[test]
fn render_connected_exact() {
    let m = ServerMessage::Connected {
        session_id: String::from("abc123"),
        role: String::from("receiver"),
    };
    assert_eq!(
        render_server_message(&m),
        r#"{"type":"connected","session_id":"abc123","role":"receiver"}"#
    );
}

#[test]
fn render_escapes_strings() {
    let m = ServerMessage::Error {
        message: String::from("a\"b\\c\nd"),
    };
    let rendered = render_server_message(&m);
    assert_eq!(rendered, "{\"type\":\"error\",\"message\":\"a\\\"b\\\\c\\nd\"}");
    // the rendering is valid JSON and round-trips through a real parser
    let v: serde_json::Value = serde_json::from_str(&rendered).unwrap();
    assert_eq!(v["type"].as_str().unwrap(), "error");
    assert_eq!(v["message"].as_str().unwrap(), "a\"b\\c\nd");
}

#[test]
fn render_escapes_control_chars() {
    let m = ServerMessage::Error {
        message: String::from("x\u{1}y\ty"),
    };
    let rendered = render_server_message(&m);
    let v: serde_json::Value = serde_json::from_str(&rendered).unwrap();
    assert_eq!(v["message"].as_str().unwrap(), "x\u{1}y\ty");
}

#[test]
fn render_key_chunk_parses_back() {
    let m = ServerMessage::KeyChunk {
        index: 7,
        data: base64_encode(&vec![1u8, 2, 3]),
    };
    let rendered = render_server_message(&m);
    let v: serde_json::Value = serde_json::from_str(&rendered).unwrap();
    assert_eq!(v["type"].as_str().unwrap(), "key_chunk");
    assert_eq!(v["index"].as_u64().unwrap(), 7);
    assert_eq!(v["data"].as_str().unwrap(), "AQID");
}

#[test]
fn parse_request_key() {
    assert_eq!(
        parse_client_message(r#"{"type":"request_key","chunk_count":5}"#),
        Some(ClientMessage::RequestKey { chunk_count: 5 })
    );
}

#[test]
fn parse_request_key_whitespace_and_order() {
    assert_eq!(
        parse_client_message(" { \"chunk_count\" : 12 , \"type\" : \"request_key\" } "),
        Some(ClientMessage::RequestKey { chunk_count: 12 })
    );
}

#[test]
fn parse_end_session() {
    assert_eq!(
        parse_client_message(r#"{"type":"end_session"}"#),
        Some(ClientMessage::EndSession)
    );
}

#[test]
fn parse_ignores_unknown_fields() {
    assert_eq!(
        parse_client_message(r#"{"type":"request_key","chunk_count":2,"extra":"x","b":true}"#),
        Some(ClientMessage::RequestKey { chunk_count: 2 })
    );
}

#[test]
fn parse_drops_malformed() {
    assert_eq!(parse_client_message("not json"), None);
    assert_eq!(parse_client_message(""), None);
    assert_eq!(parse_client_message(r#"{"type":"request_key"}"#), None);
    assert_eq!(parse_client_message(r#"{"type":"unknown","chunk_count":1}"#), None);
    assert_eq!(parse_client_message(r#"{"chunk_count":1}"#), None);
    assert_eq!(
        parse_client_message(r#"{"type":"request_key","chunk_count":-1}"#),
        None
    );
    assert_eq!(
        parse_client_message(r#"{"type":"request_key","chunk_count":1.5}"#),
        None
    );
    // a count that overflows the machine word is dropped, not clamped here
    assert_eq!(
        parse_client_message(r#"{"type":"request_key","chunk_count":99999999999999999999999}"#),
        None
    );
    // duplicated protocol fields are rejected
    assert_eq!(
        parse_client_message(r#"{"type":"request_key","chunk_count":1,"chunk_count":2}"#),
        None
    );
}

#[test]
fn parse_stateless_uses_count_field() {
    assert_eq!(
        parse_stateless_request(r#"{"type":"request_key","count":3}"#),
        Some(3)
    );
    assert_eq!(parse_stateless_request(r#"{"type":"request_key","chunk_count":3}"#), None);
    assert_eq!(parse_stateless_request(r#"{"type":"end_session"}"#), None);
}

#[test]
fn parse_string_escapes_in_keys_and_values() {
    // \u escapes are outside the accepted subset: dropped
    assert_eq!(
        parse_client_message(r#"{"type":"end_sessio\u006e"}"#),
        None
    );
    assert_eq!(
        parse_client_message(r#"{"type":"end_session","note":"a\\b\"c"}"#),
        Some(ClientMessage::EndSession)
    );
}
