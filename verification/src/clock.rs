//! Reading the clocks. What a clock returns depends on when it is read, so
//! nothing is promised of the values; the gateway's decisions take them as
//! arguments.
use std::time::{Duration, Instant, SystemTime};
use vstd::prelude::*;

verus! {

#[verifier::external_type_specification]
#[verifier::external_body]
pub struct ExInstant(Instant);

#[verifier::external_type_specification]
#[verifier::external_body]
pub struct ExSystemTime(SystemTime);

/// `Instant::now`: the current reading of the monotonic clock.
#[verifier::external_body]
pub(crate) fn instant_now() -> (t: Instant) {
    Instant::now()
}

/// `Instant::elapsed`: the time since `origin` (zero if the clock reads earlier).
#[verifier::external_body]
pub(crate) fn instant_elapsed(origin: &Instant) -> (d: Duration) {
    origin.elapsed()
}

/// `Duration::as_millis`: whole milliseconds in `d`.
#[verifier::external_body]
pub(crate) fn duration_as_millis(d: &Duration) -> (ms: u128) {
    d.as_millis()
}

/// `Duration::as_secs`: whole seconds in `d`.
#[verifier::external_body]
pub(crate) fn duration_as_secs(d: &Duration) -> (s: u64) {
    d.as_secs()
}

/// `SystemTime::now`: the current wall-clock time.
#[verifier::external_body]
pub(crate) fn system_time_now() -> (t: SystemTime) {
    SystemTime::now()
}

/// `SystemTime::duration_since(UNIX_EPOCH)`: the time since the Unix epoch, or
/// `None` when the wall clock reads before it.
#[verifier::external_body]
pub(crate) fn since_unix_epoch(t: &SystemTime) -> (d: Option<Duration>) {
    t.duration_since(std::time::UNIX_EPOCH).ok()
}

/// Milliseconds since `origin`, saturating at `u64::MAX`.
pub fn elapsed_ms(origin: &Instant) -> u64 {
    let d = instant_elapsed(origin);
    let ms = duration_as_millis(&d);
    if ms > 0xffff_ffff_ffff_ffffu128 {
        0xffff_ffff_ffff_ffffu64
    } else {
        ms as u64
    }
}

/// Seconds since the Unix epoch, or zero when the wall clock reads before it.
pub fn unix_seconds() -> u64 {
    let now = system_time_now();
    match since_unix_epoch(&now) {
        Some(d) => duration_as_secs(&d),
        None => 0,
    }
}

} // verus!
