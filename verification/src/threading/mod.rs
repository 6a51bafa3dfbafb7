//! The scheduler thread's decisions and the worker pool.

pub mod thread_pool;

use vstd::prelude::*;

verus! {

/// How long the scheduler thread waits when no job is scheduled: one second,
/// in nanoseconds.
pub const DEFAULT_WAIT_NO_WORK: u128 = 1_000_000_000;

/// How long the scheduler thread sleeps before it hands out the next job,
/// given how long until the first job fires (`None` when nothing is
/// scheduled). It does not sleep when the result is zero.
pub fn wait_before_dispatch(next_fire: Option<u128>) -> (w: u128)
    ensures
        w == match next_fire {
            Some(d) => d,
            None => DEFAULT_WAIT_NO_WORK,
        },
{
    match next_fire {
        Some(d) => d,
        None => DEFAULT_WAIT_NO_WORK,
    }
}

} // verus!
