//! The clock. Nothing is claimed of what it shows.

use vstd::prelude::*;

verus! {

/// `std::time::Instant`, a moment on a clock that never goes back.
#[verifier::external_type_specification]
#[verifier::external_body]
pub struct ExInstant(std::time::Instant);

/// `std::time::SystemTime`, a moment on the clock of the machine.
#[verifier::external_type_specification]
#[verifier::external_body]
pub struct ExSystemTime(std::time::SystemTime);

/// `std::time::SystemTimeError`: a moment was earlier than what it was held against.
#[verifier::external_type_specification]
#[verifier::external_body]
pub struct ExSystemTimeError(std::time::SystemTimeError);

/// The present moment, by `std::time::SystemTime::now`.
#[verifier::external_body]
fn system_now() -> std::time::SystemTime {
    std::time::SystemTime::now()
}

/// The time from 1970 to `t`, by `std::time::SystemTime::duration_since`.
#[verifier::external_body]
fn since_epoch(t: &std::time::SystemTime) -> Result<
    std::time::Duration,
    std::time::SystemTimeError,
> {
    t.duration_since(std::time::UNIX_EPOCH)
}

/// The whole seconds of a duration, by `std::time::Duration::as_secs`.
#[verifier::external_body]
fn whole_secs(d: &std::time::Duration) -> u64 {
    d.as_secs()
}

/// The present moment, by `std::time::Instant::now`.
#[verifier::external_body]
pub(crate) fn instant_now() -> std::time::Instant {
    std::time::Instant::now()
}

/// The time from `start` to now, by `std::time::Instant::elapsed`.
#[verifier::external_body]
fn elapsed(start: &std::time::Instant) -> std::time::Duration {
    start.elapsed()
}

/// The nanoseconds of a duration, by `std::time::Duration::as_nanos`.
#[verifier::external_body]
fn all_nanos(d: &std::time::Duration) -> u128 {
    d.as_nanos()
}

/// The seconds since 1970; none on a clock that is set to an earlier time.
pub(crate) fn seconds_since_epoch() -> u64 {
    match since_epoch(&system_now()) {
        Ok(d) => whole_secs(&d),
        Err(_) => 0,
    }
}

/// The nanoseconds since `start`, as far as 64 bits hold them.
pub(crate) fn nanos_since(start: &std::time::Instant) -> u64 {
    let n: u128 = all_nanos(&elapsed(start));
    if n <= u64::MAX as u128 {
        n as u64
    } else {
        u64::MAX
    }
}

} // verus!
