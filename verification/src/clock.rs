use vstd::prelude::*;

verus! {

/// Upper bound (`2^62` seconds) on the timestamps the pipeline computes
/// with.  It keeps `now` plus the largest backoff delay (`2^61` seconds)
/// representable as an `i64`.
pub const MAX_TIMESTAMP: i64 = 0x4000_0000_0000_0000;

/// A usable pipeline timestamp: non-negative and far below overflow.
pub open spec fn time_ok(t: int) -> bool {
    0 <= t <= MAX_TIMESTAMP
}

/// Relies on std's `SystemTime::now` and `duration_since`: the current
/// wall-clock time as seconds since the Unix epoch, negative for a clock
/// set before it (the `Err` arm carries the duration back to the epoch),
/// clamped into `i64` rather than panicking.  Nothing is promised of the
/// value; verified callers state what holds of every time.
#[verifier::external_body]
pub(crate) fn now_seconds() -> i64 {
    match std::time::SystemTime::now().duration_since(std::time::UNIX_EPOCH) {
        Ok(since) => i64::try_from(since.as_secs()).unwrap_or(i64::MAX),
        Err(before) => i64::try_from(before.duration().as_secs())
            .unwrap_or(i64::MAX)
            .saturating_neg(),
    }
}

} // verus!
