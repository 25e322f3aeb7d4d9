//! End-to-end behaviour of the session machine, the pacing loop, the
//! bulk endpoint and the handshake.

use vernam::bulk::{bulk_count, bulk_headers, bulk_key_body};
use vernam::handshake::connect;
use vernam::session::{DeliveryMode, Frame, Phase, VernamSession};
use vernam::{BULK_CHUNK_CEILING, CHUNK_SIZE, STREAM_CHUNK_CEILING};

fn text_frames(frames: &[Frame]) -> Vec<String> {
    frames
        .iter()
        .map(|f| match f {
            Frame::Text(s) => s.clone(),
            Frame::Binary(_) => panic!("expected a text frame"),
        })
        .collect()
}

/// `request_key{count:3}` over a streaming session yields
/// `key_chunk(0) key_chunk(1) key_chunk(2) progress(3,3)
/// session_complete(3)` after the `connected` greeting.
#[test]
fn streaming_three_chunk_sequence() {
    let mut s = VernamSession::new_session(String::from("sess1"), String::from("sender"));
    assert_eq!(
        s.connected_message(),
        r#"{"type":"connected","session_id":"sess1","role":"sender"}"#
    );
    let out = s.on_text(r#"{"type":"request_key","chunk_count":3}"#);
    assert!(out.frames.is_empty());
    assert!(!out.close);
    let frames = text_frames(&s.run_request_steps());
    assert_eq!(frames.len(), 5);
    for (i, f) in frames[..3].iter().enumerate() {
        let v: serde_json::Value = serde_json::from_str(f).unwrap();
        assert_eq!(v["type"].as_str().unwrap(), "key_chunk");
        assert_eq!(v["index"].as_u64().unwrap(), i as u64);
        let data = v["data"].as_str().unwrap();
        assert_eq!(data.len(), 4 * ((CHUNK_SIZE + 2) / 3));
        assert!(data
            .bytes()
            .all(|b| b.is_ascii_alphanumeric() || b == b'+' || b == b'/' || b == b'='));
    }
    assert_eq!(frames[3], r#"{"type":"progress","current":3,"total":3}"#);
    assert_eq!(frames[4], r#"{"type":"session_complete","total_chunks":3}"#);
    assert_eq!(s.chunks_generated, 3);
    assert!(matches!(s.phase, Phase::Idle));
}

/// Two generated chunks are never byte-identical.
#[test]
fn chunks_are_not_identical() {
    let mut s = VernamSession::stateless();
    s.on_text(r#"{"type":"request_key","count":2}"#);
    let frames = s.run_request_steps();
    let mut bodies: Vec<Vec<u8>> = Vec::new();
    for f in frames {
        if let Frame::Binary(b) = f {
            assert_eq!(b.len(), CHUNK_SIZE);
            bodies.push(b);
        }
    }
    assert_eq!(bodies.len(), 2);
    assert_ne!(bodies[0], bodies[1]);
}

/// Stateless streaming delivers raw binary frames with JSON progress
/// and completion text frames.
#[test]
fn stateless_binary_stream() {
    let mut s = VernamSession::stateless();
    assert!(matches!(s.mode, DeliveryMode::Binary));
    let out = s.on_text(r#"{"type":"request_key","count":2}"#);
    assert!(out.frames.is_empty());
    let frames = s.run_request_steps();
    assert_eq!(frames.len(), 4);
    assert!(matches!(frames[0], Frame::Binary(_)));
    assert!(matches!(frames[1], Frame::Binary(_)));
    match &frames[2] {
        Frame::Text(t) => assert_eq!(t, r#"{"type":"progress","current":2,"total":2}"#),
        _ => panic!("expected progress text frame"),
    }
    match &frames[3] {
        Frame::Text(t) => assert_eq!(t, r#"{"type":"session_complete","total_chunks":2}"#),
        _ => panic!("expected completion text frame"),
    }
}

/// Progress cadence: a transaction longer than the interval reports
/// after every hundredth chunk and once more on the final chunk, with
/// non-decreasing `current` ending at the total.
#[test]
fn progress_cadence_and_monotonicity() {
    let mut s = VernamSession::new_session(String::from("p"), String::from("sender"));
    let frames = text_frames(&s.run_request(205));
    let mut currents: Vec<u64> = Vec::new();
    for f in &frames {
        let v: serde_json::Value = serde_json::from_str(f).unwrap();
        if v["type"].as_str().unwrap() == "progress" {
            assert_eq!(v["total"].as_u64().unwrap(), 205);
            currents.push(v["current"].as_u64().unwrap());
        }
    }
    assert_eq!(currents, vec![100, 200, 205]);
    for w in currents.windows(2) {
        assert!(w[0] <= w[1]);
    }
    assert_eq!(*currents.last().unwrap(), 205);
}

/// A request of zero chunks completes immediately.
#[test]
fn zero_chunk_request_completes() {
    let mut s = VernamSession::new_session(String::from("z"), String::from("sender"));
    let out = s.on_text(r#"{"type":"request_key","chunk_count":0}"#);
    let frames = text_frames(&out.frames);
    assert_eq!(frames, vec![r#"{"type":"session_complete","total_chunks":0}"#.to_string()]);
    assert!(matches!(s.phase, Phase::Idle));
}

/// A request above the ceiling enters the same state as a request for
/// exactly the ceiling.
#[test]
fn clamp_matches_ceiling_request() {
    let mut a = VernamSession::new_session(String::from("a"), String::from("sender"));
    let mut b = VernamSession::new_session(String::from("a"), String::from("sender"));
    a.on_text(r#"{"type":"request_key","chunk_count":2000000}"#);
    b.on_text(&format!(
        r#"{{"type":"request_key","chunk_count":{}}}"#,
        STREAM_CHUNK_CEILING
    ));
    assert_eq!(a.phase, b.phase);
    match a.phase {
        Phase::Generating { next_index, total } => {
            assert_eq!(next_index, 0);
            assert_eq!(total, STREAM_CHUNK_CEILING);
        }
        _ => panic!("expected a running transaction"),
    }
}

/// `ping` is answered with `pong` and changes nothing.
#[test]
fn ping_pong() {
    let mut s = VernamSession::new_session(String::from("x"), String::from("sender"));
    let out = s.on_text("ping");
    assert_eq!(text_frames(&out.frames), vec!["pong".to_string()]);
    assert!(!out.close);
    assert!(matches!(s.phase, Phase::Idle));
    // the liveness probe is answered in every phase, with no state change
    s.on_text(r#"{"type":"end_session"}"#);
    let out = s.on_text("ping");
    assert_eq!(text_frames(&out.frames), vec!["pong".to_string()]);
    assert!(matches!(s.phase, Phase::Closed));
}

/// Malformed frames are silently dropped.
#[test]
fn malformed_frames_are_dropped() {
    let mut s = VernamSession::new_session(String::from("x"), String::from("sender"));
    for t in ["", "{", "garbage", r#"{"type":"nope"}"#] {
        let out = s.on_text(t);
        assert!(out.frames.is_empty());
        assert!(!out.close);
        assert!(matches!(s.phase, Phase::Idle));
    }
}

/// `end_session` closes the session: the completion is sent, the
/// transport is told to close, and nothing is ever generated again.
#[test]
fn end_session_halts_generation() {
    let mut s = VernamSession::new_session(String::from("e"), String::from("sender"));
    let out = s.on_text(r#"{"type":"end_session"}"#);
    assert_eq!(
        text_frames(&out.frames),
        vec![r#"{"type":"session_complete","total_chunks":0}"#.to_string()]
    );
    assert!(out.close);
    assert!(matches!(s.phase, Phase::Closed));
    let again = s.on_text(r#"{"type":"request_key","chunk_count":5}"#);
    assert!(again.frames.is_empty());
    assert!(matches!(s.phase, Phase::Closed));
    assert!(s.generate_step().is_empty());
    assert_eq!(s.chunks_generated, 0);
}

/// `end_session` during a transaction also closes, and no chunk begins
/// after the close was observed.
#[test]
fn end_session_mid_transaction() {
    let mut s = VernamSession::new_session(String::from("m"), String::from("sender"));
    s.on_text(r#"{"type":"request_key","chunk_count":10}"#);
    let _first = s.generate_step();
    let generated = s.chunks_generated;
    let out = s.on_text(r#"{"type":"end_session"}"#);
    assert!(out.close);
    assert!(matches!(s.phase, Phase::Closed));
    assert!(s.generate_step().is_empty());
    assert_eq!(s.chunks_generated, generated);
}

/// Session identity survives suspend and resume: the attachment carries
/// id, role and counter, and the rehydrated session greets with the
/// same identity.
#[test]
fn suspend_resume_preserves_identity() {
    let mut s = VernamSession::new_session(String::from("sess42"), String::from("receiver"));
    s.run_request(3);
    assert_eq!(s.chunks_generated, 3);
    let attachment = s.attachment();
    drop(s);
    let resumed = VernamSession::resume(attachment);
    assert_eq!(resumed.session_id, "sess42");
    assert_eq!(resumed.role, "receiver");
    assert_eq!(resumed.chunks_generated, 3);
    assert!(matches!(resumed.phase, Phase::Idle));
    assert_eq!(
        resumed.connected_message(),
        r#"{"type":"connected","session_id":"sess42","role":"receiver"}"#
    );
}

/// A second `request_key` while one is generating is not interleaved:
/// it is dropped and the first transaction continues unchanged.
#[test]
fn concurrent_request_is_not_interleaved() {
    let mut s = VernamSession::new_session(String::from("c"), String::from("sender"));
    s.on_text(r#"{"type":"request_key","chunk_count":2}"#);
    let _ = s.generate_step();
    let out = s.on_text(r#"{"type":"request_key","chunk_count":50}"#);
    assert!(out.frames.is_empty());
    match s.phase {
        Phase::Generating { next_index, total } => {
            assert_eq!(next_index, 1);
            assert_eq!(total, 2);
        }
        _ => panic!("first transaction should still be running"),
    }
}

/// `GET /key/2` semantics: a 2-chunk bulk body is exactly two chunk
/// sizes long and the headers report count and size.
#[test]
fn bulk_two_chunks_body_and_headers() {
    let count = bulk_count("2");
    assert_eq!(count, 2);
    let body = bulk_key_body(count).unwrap();
    assert_eq!(body.len(), 32768);
    let headers = bulk_headers(count);
    assert_eq!(headers.len(), 2);
    assert_eq!(headers[0].0, "X-Chunk-Count");
    assert_eq!(headers[0].1, "2");
    assert_eq!(headers[1].0, "X-Chunk-Size");
    assert_eq!(headers[1].1, "16384");
}

/// Bulk bodies are fresh randomness: two requests never return the same
/// bytes, and the byte distribution is not degenerate.
#[test]
fn bulk_bodies_differ_and_look_random() {
    let a = bulk_key_body(1).unwrap();
    let b = bulk_key_body(1).unwrap();
    assert_eq!(a.len(), CHUNK_SIZE);
    assert_ne!(a, b);
    let mut seen = [false; 256];
    for byte in &a {
        seen[*byte as usize] = true;
    }
    let distinct = seen.iter().filter(|x| **x).count();
    assert!(distinct > 128, "only {} distinct byte values", distinct);
}

/// The bulk count parameter falls back to one chunk and clamps at the
/// bulk ceiling.
#[test]
fn bulk_count_fallback_and_clamp() {
    assert_eq!(bulk_count("5"), 5);
    assert_eq!(bulk_count("abc"), 1);
    assert_eq!(bulk_count(""), 1);
    assert_eq!(bulk_count("999999"), BULK_CHUNK_CEILING);
}

/// The handshake rejects non-upgrade requests and derives identity from
/// path and query.
#[test]
fn handshake_connect() {
    let (s, greeting) = connect(
        "/session/abc123",
        "role=receiver",
        &Some(String::from("websocket")),
    )
    .unwrap();
    assert_eq!(s.session_id, "abc123");
    assert_eq!(s.role, "receiver");
    assert_eq!(s.chunks_generated, 0);
    assert_eq!(
        greeting,
        r#"{"type":"connected","session_id":"abc123","role":"receiver"}"#
    );
    assert!(connect("/session/abc123", "", &None).is_err());
    assert!(connect("/session/abc123", "", &Some(String::from("h2c"))).is_err());
}

/// The role defaults to `sender`, and a later `role` pair overrides an
/// earlier one as a collected map would.
#[test]
fn handshake_role_rules() {
    let (s, _) = connect("/s/x", "", &Some(String::from("websocket"))).unwrap();
    assert_eq!(s.role, "sender");
    let (s, _) = connect("/s/x", "a=1&role=first&b=2&role=second", &Some(String::from("websocket")))
        .unwrap();
    assert_eq!(s.role, "second");
    let (s, _) = connect("/s/x", "role", &Some(String::from("websocket"))).unwrap();
    assert_eq!(s.role, "");
    // query components are form-decoded, as collected query pairs are
    let (s, _) = connect("/s/x", "role=key%20holder", &Some(String::from("websocket"))).unwrap();
    assert_eq!(s.role, "key holder");
    let (s, _) = connect("/s/x", "role=a+b", &Some(String::from("websocket"))).unwrap();
    assert_eq!(s.role, "a b");
    let (s, _) = connect("/s/x", "%72ole=r", &Some(String::from("websocket"))).unwrap();
    assert_eq!(s.role, "r");
}
