//! Reading the system clock. A time point is a signed number of nanoseconds
//! from the UNIX epoch (negative before it), and a span of time is a number of
//! nanoseconds. Both lie within what a `std::time::Duration` can hold: at most
//! `u64::MAX` seconds and 999 999 999 nanoseconds, on either side of the epoch.

use vstd::prelude::*;

verus! {

/// The largest span of time, in nanoseconds: `u64::MAX` seconds and
/// 999 999 999 nanoseconds, the most a `std::time::Duration` holds.
pub const MAX_NANOS: u128 = 18_446_744_073_709_551_615_999_999_999;

/// `t` is a time point: no further from the epoch than `MAX_NANOS`.
pub open spec fn is_time_point(t: i128) -> bool {
    -(MAX_NANOS as int) <= t <= MAX_NANOS as int
}

/// `d` is a span of time: at most `MAX_NANOS`.
pub open spec fn is_span(d: u128) -> bool {
    d <= MAX_NANOS
}

/// Calls `std::time::SystemTime::elapsed` on `UNIX_EPOCH`, and converts the
/// `Duration` it returns, or the one that its error carries
/// (`SystemTimeError::duration`, how far the clock is before the epoch), to
/// whole nanoseconds with `Duration::as_nanos`. The documentation of
/// `Duration` gives it at most `u64::MAX` whole seconds and a fraction below
/// one second, so the count is at most `MAX_NANOS`. Which value comes back
/// depends on the clock, and nothing more is stated of it.
#[verifier::external_body]
fn nanos_from_epoch() -> (r: Result<u128, u128>)
    ensures
        match r {
            Ok(n) => is_span(n),
            Err(n) => is_span(n),
        },
{
    match std::time::UNIX_EPOCH.elapsed() {
        Ok(d) => Ok(d.as_nanos()),
        Err(e) => Err(e.duration().as_nanos()),
    }
}

/// The time point that a clock reading stands for: `Ok(n)` is `n` nanoseconds
/// after the epoch, `Err(n)` is `n` nanoseconds before it.
pub open spec fn reading_time_point(reading: Result<u128, u128>) -> int {
    match reading {
        Ok(n) => n as int,
        Err(n) => -(n as int),
    }
}

/// Turns a clock reading into a time point, as `reading_time_point` says.
pub fn time_point_of(reading: Result<u128, u128>) -> (t: i128)
    requires
        match reading {
            Ok(n) => is_span(n),
            Err(n) => is_span(n),
        },
    ensures
        t == reading_time_point(reading),
        is_time_point(t),
{
    match reading {
        Ok(n) => n as i128,
        Err(n) => -(n as i128),
    }
}

/// The current time point. It depends on the system clock alone, so nothing
/// more is stated of it than that it is a time point.
pub fn now() -> (t: i128)
    ensures
        is_time_point(t),
{
    let reading = nanos_from_epoch();
    time_point_of(reading)
}

} // verus!
