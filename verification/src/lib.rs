//! Paced delivery of one-time-pad key material.
//!
//! The service generates one half of a split one-time pad ("keyB") as a
//! stream of fixed-size chunks of cryptographically secure random bytes and
//! delivers it either as one bounded binary response (bulk mode) or over a
//! long-lived duplex connection (streaming mode), with progress reporting,
//! clamped request sizes, and per-session counters that survive suspension
//! of the underlying connection.

use vstd::prelude::*;

pub mod base64;
pub mod bulk;
pub mod digits;
pub mod entropy;
pub mod handshake;
pub mod json;
pub mod laws;
pub mod messages;
pub mod session;
pub mod strutil;

verus! {

/// Size in bytes of one key chunk, shared by producer and consumers.
pub const CHUNK_SIZE: usize = 16384;

/// Hard ceiling on the chunk count of one streaming request.
pub const STREAM_CHUNK_CEILING: usize = 100000;

/// Hard ceiling on the chunk count of one bulk request.
pub const BULK_CHUNK_CEILING: usize = 1000;

/// A progress message is emitted after every this many chunks,
/// and after the final chunk of a request.
pub const PROGRESS_INTERVAL: usize = 100;

} // verus!
