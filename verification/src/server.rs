//! The listener's decisions: connection admission and the exponential
//! backoff of a failing accept. The accept loop itself, the tasks, and the
//! shutdown choreography are the runtime's; they consult these values.
use vstd::prelude::*;

verus! {

/// The most connections admitted at once.
pub const MAX_CONNECTIONS: usize = 500;

/// The first backoff delay, in seconds, after a failed accept.
pub const INITIAL_BACKOFF_SECS: u64 = 1;

/// What the accept loop does after a failed accept with the current backoff
/// delay: give up once the delay has reached 64 seconds, otherwise sleep for
/// the delay and double it. The delays run 1, 2, 4, 8, 16, 32; when the
/// retry after the 32-second delay still fails, the error is fatal.
pub fn backoff_step(backoff: u64) -> (r: Option<u64>)
    requires
        1 <= backoff <= 64,
    ensures
        r == if backoff >= 64 {
            None::<u64>
        } else {
            Some((backoff * 2) as u64)
        },
{
    if backoff >= 64 {
        None
    } else {
        Some(backoff * 2)
    }
}

} // verus!
