//! The bulk delivery mode: one bounded request names a chunk count and
//! receives the chunks concatenated as a single binary body, with
//! descriptive headers for the client to interpret framing.

use vstd::prelude::*;
use crate::CHUNK_SIZE;
use crate::BULK_CHUNK_CEILING;
use crate::digits::spec_digits;
use crate::digits::spec_parse_usize;
use crate::digits::fmt_usize;
use crate::digits::parse_usize;
use crate::entropy::random_bytes;
use crate::entropy::EntropyUnavailable;

verus! {

/// Clamps a requested chunk count to the bulk ceiling.
pub open spec fn clamp_bulk(n: int) -> int {
    if n > BULK_CHUNK_CEILING as int {
        BULK_CHUNK_CEILING as int
    } else {
        n
    }
}

/// The chunk count a bulk path parameter names: an unparsable value
/// falls back to one chunk, and the count is clamped to the ceiling.
pub open spec fn spec_bulk_count(s: Seq<char>) -> int {
    clamp_bulk(
        match spec_parse_usize(s) {
            Some(v) => v as int,
            None => 1,
        },
    )
}

/// Parses the `{count}` path parameter of the bulk endpoint.
pub fn bulk_count(s: &str) -> (r: usize)
    ensures
        r as int == spec_bulk_count(s@),
        r <= BULK_CHUNK_CEILING,
{
    match parse_usize(s) {
        Some(v) => if v > BULK_CHUNK_CEILING {
            BULK_CHUNK_CEILING
        } else {
            v
        },
        None => 1,
    }
}

/// The body of one bulk response: exactly `count` chunks of fresh
/// random bytes, concatenated, or the entropy failure (reported as an
/// error response, never as degraded randomness).
pub fn bulk_key_body(count: usize) -> (r: Result<Vec<u8>, EntropyUnavailable>)
    requires
        count <= BULK_CHUNK_CEILING,
    ensures
        r matches Ok(b) ==> b@.len() == count as int * CHUNK_SIZE as int,
{
    assert(count * CHUNK_SIZE <= BULK_CHUNK_CEILING * CHUNK_SIZE) by (nonlinear_arith)
        requires
            count <= BULK_CHUNK_CEILING,
    ;
    let total = count * CHUNK_SIZE;
    random_bytes(total)
}

/// The descriptive headers of a bulk response: the chunk count and the
/// shared chunk size.
pub fn bulk_headers(count: usize) -> (r: Vec<(String, String)>)
    ensures
        r@.len() == 2,
        r@[0].0@ == "X-Chunk-Count"@,
        r@[0].1@ == spec_digits(count as int),
        r@[1].0@ == "X-Chunk-Size"@,
        r@[1].1@ == spec_digits(CHUNK_SIZE as int),
{
    let mut v: Vec<(String, String)> = Vec::new();
    v.push((String::from_str("X-Chunk-Count"), fmt_usize(count)));
    v.push((String::from_str("X-Chunk-Size"), fmt_usize(CHUNK_SIZE)));
    v
}

} // verus!
