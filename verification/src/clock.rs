//! The monotonic clock that drives the simulation, reduced to whole
//! milliseconds.

use vstd::prelude::*;

verus! {

/// `std::time::Instant`: a reading of the monotonic clock, carried through
/// as it is. Nothing is known of what it holds.
#[verifier::external_type_specification]
#[verifier::external_body]
pub struct ExInstant(std::time::Instant);

/// Calls `std::time::Instant::now`. The reading depends on when the call is
/// made, so nothing is claimed of it.
#[verifier::external_body]
pub(crate) fn now() -> (t: std::time::Instant) {
    std::time::Instant::now()
}

/// Calls `std::time::Instant::elapsed` on `since`. How much time has passed
/// depends on when the call is made, so nothing is claimed of the result.
#[verifier::external_body]
pub(crate) fn elapsed(since: &std::time::Instant) -> (d: std::time::Duration) {
    since.elapsed()
}

/// Calls `std::time::Duration::as_millis`, which gives the whole
/// milliseconds in `d`. Nothing is claimed of the number.
#[verifier::external_body]
pub(crate) fn whole_millis(d: &std::time::Duration) -> (ms: u128) {
    d.as_millis()
}

/// Milliseconds that have passed since `since`, limited to the range of
/// `u64`.
pub(crate) fn millis_since(since: &std::time::Instant) -> (ms: u64) {
    let d = elapsed(since);
    limit_millis(whole_millis(&d))
}

/// A count of milliseconds limited to the range of `u64`.
pub open spec fn limited_millis(ms: int) -> int {
    if ms > u64::MAX {
        u64::MAX as int
    } else {
        ms
    }
}

/// Limits a count of milliseconds to the range of `u64`: a count within the
/// range is kept as it is, a longer one becomes the longest that fits.
pub fn limit_millis(ms: u128) -> (limited: u64)
    ensures
        limited == limited_millis(ms as int),
{
    if ms > u64::MAX as u128 {
        u64::MAX
    } else {
        ms as u64
    }
}

} // verus!
