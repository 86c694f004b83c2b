//! Core of a miniature Redis-compatible in-memory key/value server with
//! pub/sub semantics: the RESP frame codec with incremental buffered parsing,
//! the shared key/value store with per-key TTL bookkeeping, the command layer,
//! and the client-side response validation.
//!
//! Everything here is plain, verified computation. The surrounding runtime
//! (sockets, tasks, locks, timers) lives outside this crate and drives these
//! functions with plain values.
use vstd::prelude::*;

pub mod client;
pub mod cmd;
pub mod codec;
pub mod db;
pub mod digits;
pub mod frame;
pub mod parse;
pub mod pubsub;
pub mod roundtrip;
pub mod server;
pub mod text;

use vstd::string::StrSliceExecFns;

verus! {

/// Default port that a redis server listens on.
pub const DEFAULT_PORT: u16 = 6379;

/// Reads a duration given on a command line: a run of decimal digits,
/// denoting milliseconds.
pub fn duration_from(src: &str) -> (r: Option<u64>)
    ensures
        r == crate::parse::dec_of_bytes(vstd::utf8::encode_utf8(src@)),
{
    let bytes = src.as_bytes_vec();
    proof {
        assert(bytes@.subrange(0, bytes@.len() as int) =~= bytes@);
    }
    crate::digits::u64_from_digits(&bytes, 0, bytes.len())
}

} // verus!
