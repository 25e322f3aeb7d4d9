//! The cryptographically secure random source behind chunk generation.
//!
//! Failure of the entropy source is surfaced as an error and never as
//! degraded randomness; nothing is stated of the bytes themselves, so
//! every caller is verified for every value the source can return.

use vstd::prelude::*;

verus! {

/// The random source failed; the current request is aborted.
#[derive(Clone, Copy, PartialEq, Eq, Structural, Debug)]
pub struct EntropyUnavailable;

/// Relies on `getrandom::getrandom`: fills the buffer from the system's
/// preferred random source and returns `Err` on any failure, including a
/// partial read; the buffer's contents on error are unspecified, and the
/// bytes on success depend on the entropy source, so nothing is stated
/// of them.
#[verifier::external_body]
fn fill_random(buf: &mut Vec<u8>) -> (r: Result<(), EntropyUnavailable>)
    ensures
        final(buf)@.len() == old(buf)@.len(),
{
    match getrandom::getrandom(buf.as_mut_slice()) {
        Ok(()) => Ok(()),
        Err(_) => Err(EntropyUnavailable),
    }
}

/// One fresh buffer of `len` uniformly random bytes, or the entropy
/// failure.
pub fn random_bytes(len: usize) -> (r: Result<Vec<u8>, EntropyUnavailable>)
    ensures
        r matches Ok(b) ==> b@.len() == len,
{
    let mut buf: Vec<u8> = Vec::new();
    let mut i: usize = 0;
    while i < len
        invariant
            i <= len,
            buf@.len() == i,
        decreases len - i,
    {
        buf.push(0u8);
        i += 1;
    }
    match fill_random(&mut buf) {
        Ok(()) => Ok(buf),
        Err(e) => Err(e),
    }
}

} // verus!
