//! The system's clocks. What they say cannot be foretold, so nothing is
//! promised of any reading.

use std::time::{Duration, Instant, SystemTime, UNIX_EPOCH};
use vstd::prelude::*;

verus! {

/// The system clock's points in time, carried through as opaque values.
#[verifier::external_type_specification]
#[verifier::external_body]
pub struct ExSystemTime(SystemTime);

/// The monotonic clock's points in time, carried through as opaque values.
#[verifier::external_type_specification]
#[verifier::external_body]
pub struct ExInstant(Instant);

/// Calls `SystemTime::now`. Nothing is promised of the result: it is
/// whatever the system clock says.
#[verifier::external_body]
pub(crate) fn now() -> SystemTime {
    SystemTime::now()
}

/// Calls `SystemTime::duration_since` with the epoch. Nothing is promised
/// of the result; there is none where the time lies before the epoch.
#[verifier::external_body]
fn since_epoch(time: &SystemTime) -> Option<Duration> {
    time.duration_since(UNIX_EPOCH).ok()
}

/// Calls `Duration::as_secs`. Nothing is promised of the result.
#[verifier::external_body]
fn whole_seconds(span: &Duration) -> u64 {
    span.as_secs()
}

/// Calls `Instant::now`. Nothing is promised of the result.
#[verifier::external_body]
pub(crate) fn start_clock() -> Instant {
    Instant::now()
}

/// Calls `Instant::elapsed`. Nothing is promised of the result: it is
/// whatever time has passed.
#[verifier::external_body]
fn elapsed(start: &Instant) -> Duration {
    start.elapsed()
}

/// Calls `Duration::as_millis`. Nothing is promised of the result.
#[verifier::external_body]
fn whole_millis(span: &Duration) -> u128 {
    span.as_millis()
}

/// The seconds since the epoch by the system clock; a clock that stands
/// before the epoch counts as zero.
pub(crate) fn unix_time() -> u64 {
    match since_epoch(&now()) {
        Some(span) => whole_seconds(&span),
        None => 0,
    }
}

/// The milliseconds that have passed since `start`, as far as 64 bits hold
/// them.
pub(crate) fn elapsed_ms(start: &Instant) -> u64 {
    let ms = whole_millis(&elapsed(start));
    if ms > 0xffff_ffff_ffff_ffffu128 {
        u64::MAX
    } else {
        ms as u64
    }
}

} // verus!
