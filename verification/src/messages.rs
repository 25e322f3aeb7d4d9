//! The control messages of the key-delivery protocol and their exact JSON
//! wire forms.

use vstd::prelude::*;
use crate::digits::spec_digits;
use crate::digits::spec_parse_usize;
use crate::digits::fmt_usize;
use crate::digits::parse_usize;
use crate::json::escape_string;
use crate::json::append_escaped;
use crate::json::parse_object;
use crate::json::parse_object_exec;
use crate::json::ProtocolFields;

verus! {

/// A control message from the client, as a closed sum type.
#[derive(Clone, Copy, PartialEq, Eq, Structural, Debug)]
pub enum ClientMessage {
    /// Requests generation and delivery of this many chunks.
    RequestKey { chunk_count: usize },
    /// Graceful client-initiated termination of the session.
    EndSession,
}

/// A message from the server to the client.
#[derive(Debug)]
pub enum ServerMessage {
    /// Greets a (re)connecting client with the session's identity.
    Connected { session_id: String, role: String },
    /// One base64-encoded chunk with its zero-based sequence index.
    KeyChunk { index: usize, data: String },
    /// Periodic progress report for the running request.
    Progress { current: usize, total: usize },
    /// Terminal success signal for the current request.
    SessionComplete { total_chunks: usize },
    /// Terminal failure signal for the current request.
    Error { message: String },
}

/// The wire form of a `connected` message.
pub open spec fn render_connected(id: Seq<char>, role: Seq<char>) -> Seq<char> {
    "{\"type\":\"connected\",\"session_id\":\""@ + escape_string(id) + "\",\"role\":\""@
        + escape_string(role) + "\"}"@
}

/// The wire form of a `key_chunk` message.
pub open spec fn render_key_chunk(index: int, data: Seq<char>) -> Seq<char> {
    "{\"type\":\"key_chunk\",\"index\":"@ + spec_digits(index) + ",\"data\":\""@
        + escape_string(data) + "\"}"@
}

/// The wire form of a `progress` message.
pub open spec fn render_progress(current: int, total: int) -> Seq<char> {
    "{\"type\":\"progress\",\"current\":"@ + spec_digits(current) + ",\"total\":"@
        + spec_digits(total) + "}"@
}

/// The wire form of a `session_complete` message.
pub open spec fn render_session_complete(total_chunks: int) -> Seq<char> {
    "{\"type\":\"session_complete\",\"total_chunks\":"@ + spec_digits(total_chunks) + "}"@
}

/// The wire form of an `error` message.
pub open spec fn render_error(message: Seq<char>) -> Seq<char> {
    "{\"type\":\"error\",\"message\":\""@ + escape_string(message) + "\"}"@
}

/// The wire form of a server message.
pub open spec fn spec_render(m: ServerMessage) -> Seq<char> {
    match m {
        ServerMessage::Connected { session_id, role } => render_connected(session_id@, role@),
        ServerMessage::KeyChunk { index, data } => render_key_chunk(index as int, data@),
        ServerMessage::Progress { current, total } => render_progress(
            current as int,
            total as int,
        ),
        ServerMessage::SessionComplete { total_chunks } => render_session_complete(
            total_chunks as int,
        ),
        ServerMessage::Error { message } => render_error(message@),
    }
}

/// Renders a server message to its JSON wire form.
pub fn render_server_message(m: &ServerMessage) -> (r: String)
    ensures
        r@ == spec_render(*m),
{
    match m {
        ServerMessage::Connected { session_id, role } => {
            let mut out = String::from_str("{\"type\":\"connected\",\"session_id\":\"");
            append_escaped(&mut out, session_id.as_str());
            out.append("\",\"role\":\"");
            append_escaped(&mut out, role.as_str());
            out.append("\"}");
            assert(out@ =~= spec_render(*m));
            out
        },
        ServerMessage::KeyChunk { index, data } => {
            let mut out = String::from_str("{\"type\":\"key_chunk\",\"index\":");
            let idx = fmt_usize(*index);
            out.append(idx.as_str());
            out.append(",\"data\":\"");
            append_escaped(&mut out, data.as_str());
            out.append("\"}");
            assert(out@ =~= spec_render(*m));
            out
        },
        ServerMessage::Progress { current, total } => {
            let mut out = String::from_str("{\"type\":\"progress\",\"current\":");
            let c = fmt_usize(*current);
            out.append(c.as_str());
            out.append(",\"total\":");
            let t = fmt_usize(*total);
            out.append(t.as_str());
            out.append("}");
            assert(out@ =~= spec_render(*m));
            out
        },
        ServerMessage::SessionComplete { total_chunks } => {
            let mut out = String::from_str("{\"type\":\"session_complete\",\"total_chunks\":");
            let t = fmt_usize(*total_chunks);
            out.append(t.as_str());
            out.append("}");
            assert(out@ =~= spec_render(*m));
            out
        },
        ServerMessage::Error { message } => {
            let mut out = String::from_str("{\"type\":\"error\",\"message\":\"");
            append_escaped(&mut out, message.as_str());
            out.append("\"}");
            assert(out@ =~= spec_render(*m));
            out
        },
    }
}

/// Reads a session-mode client message out of parsed protocol fields:
/// `request_key` carries its count in `chunk_count`.
pub open spec fn interpret_session_fields(f: ProtocolFields) -> Option<ClientMessage> {
    match f.tag {
        None => None,
        Some(t) => {
            if t == "request_key"@ {
                match f.chunk_count {
                    Some(d) => match spec_parse_usize(d) {
                        Some(n) => Some(ClientMessage::RequestKey { chunk_count: n }),
                        None => None,
                    },
                    None => None,
                }
            } else if t == "end_session"@ {
                Some(ClientMessage::EndSession)
            } else {
                None
            }
        },
    }
}

/// What a session-mode text frame means: a control message, or nothing
/// for any frame outside the protocol (which is silently dropped).
pub open spec fn spec_parse_client_message(t: Seq<char>) -> Option<ClientMessage> {
    match parse_object(t) {
        Some(f) => interpret_session_fields(f),
        None => None,
    }
}

/// Parses one session-mode client text frame.
pub fn parse_client_message(text: &str) -> (r: Option<ClientMessage>)
    ensures
        r == spec_parse_client_message(text@),
{
    match parse_object_exec(text) {
        None => None,
        Some(f) => {
            match f.tag {
                None => None,
                Some(t) => {
                    if crate::strutil::str_eq(t.as_str(), "request_key") {
                        match f.chunk_count {
                            Some(d) => match parse_usize(d.as_str()) {
                                Some(n) => Some(ClientMessage::RequestKey { chunk_count: n }),
                                None => None,
                            },
                            None => None,
                        }
                    } else if crate::strutil::str_eq(t.as_str(), "end_session") {
                        Some(ClientMessage::EndSession)
                    } else {
                        None
                    }
                },
            }
        },
    }
}

/// Reads a stateless-mode request out of parsed protocol fields:
/// `request_key` carries its count in `count`; no other message starts
/// a stream.
pub open spec fn interpret_stateless_fields(f: ProtocolFields) -> Option<usize> {
    match f.tag {
        None => None,
        Some(t) => {
            if t == "request_key"@ {
                match f.count {
                    Some(d) => spec_parse_usize(d),
                    None => None,
                }
            } else {
                None
            }
        },
    }
}

/// What a stateless-mode text frame means: the chunk count of a key
/// request, or nothing.
pub open spec fn spec_parse_stateless_request(t: Seq<char>) -> Option<usize> {
    match parse_object(t) {
        Some(f) => interpret_stateless_fields(f),
        None => None,
    }
}

/// Parses one stateless-mode client text frame.
pub fn parse_stateless_request(text: &str) -> (r: Option<usize>)
    ensures
        r == spec_parse_stateless_request(text@),
{
    match parse_object_exec(text) {
        None => None,
        Some(f) => {
            match f.tag {
                None => None,
                Some(t) => {
                    if crate::strutil::str_eq(t.as_str(), "request_key") {
                        match f.count {
                            Some(d) => parse_usize(d.as_str()),
                            None => None,
                        }
                    } else {
                        None
                    }
                },
            }
        },
    }
}

} // verus!
