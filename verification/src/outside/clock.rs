//! Readings of the wall clock and of the monotonic clock.

use vstd::prelude::*;
use chrono::Utc;
use std::time::Duration;
use tokio::time::Instant;

verus! {

/// `tokio::time::Instant`, taken as it is: a reading of the monotonic
/// clock of which nothing is known here.
#[verifier::external_type_specification]
#[verifier::external_body]
pub struct ExInstant(Instant);

/// `std::time::Instant`, taken as it is.
#[verifier::external_type_specification]
#[verifier::external_body]
pub struct ExStdInstant(std::time::Instant);

/// `chrono::Utc::now`, turned into milliseconds since the Unix epoch by
/// `DateTime::timestamp_millis`. Nothing is claimed of the value: it is
/// whatever the system clock reads. (`Utc::now` gives up on a clock that
/// is set to a time before 1970.)
#[verifier::external_body]
pub(crate) fn utc_now_millis() -> i64 {
    Utc::now().timestamp_millis()
}

/// `tokio::time::Instant::now`. Nothing is claimed of the value.
#[verifier::external_body]
pub(crate) fn instant_now() -> Instant {
    Instant::now()
}

/// `tokio::time::Instant::elapsed`, in the whole seconds that
/// `Duration::as_secs` gives. Nothing is claimed of the value: it depends
/// on when the call is made.
#[verifier::external_body]
pub(crate) fn elapsed_secs(since: &Instant) -> u64 {
    since.elapsed().as_secs()
}

/// `std::time::Instant::now`. Nothing is claimed of the value.
#[verifier::external_body]
pub(crate) fn stopwatch_start() -> std::time::Instant {
    std::time::Instant::now()
}

/// `std::time::Instant::elapsed`. Nothing is claimed of the value: it
/// depends on when the call is made.
#[verifier::external_body]
pub(crate) fn stopwatch_read(start: &std::time::Instant) -> Duration {
    start.elapsed()
}

} // verus!
