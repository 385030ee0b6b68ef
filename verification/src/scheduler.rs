//! Cadence arithmetic for the refresh loop.
//!
//! The refresh cycle runs on a fixed interval; the delay before the next
//! cycle is the interval minus the time the cycle itself consumed, floored
//! at zero so that an overrunning cycle is followed immediately by the next
//! one rather than by a queue of catch-up cycles.

use vstd::prelude::*;

verus! {

/// The fixed refresh interval, in seconds.
pub const REFRESH_INTERVAL_SECS: u64 = 15;

/// How long the scheduler should sleep after a cycle that took
/// `elapsed_secs`: the remainder of the interval, or zero if the cycle
/// overran it.
pub fn compute_sleep_seconds(interval_secs: u64, elapsed_secs: u64) -> (sleep: u64)
    ensures
        sleep == if elapsed_secs >= interval_secs {
            0u64
        } else {
            (interval_secs - elapsed_secs) as u64
        },
        elapsed_secs >= interval_secs ==> sleep == 0,
{
    if elapsed_secs >= interval_secs {
        0
    } else {
        interval_secs - elapsed_secs
    }
}

} // verus!
