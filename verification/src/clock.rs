//! Readings of the system clock.

use vstd::prelude::*;

verus! {

/// The current UTC time as nanoseconds since the Unix epoch
/// (`time::OffsetDateTime::now_utc().unix_timestamp_nanos()`).
/// Stated: only that the instant lies within 10^21 ns of the epoch, as every value of the
/// time library does (its years run from -9999 to 9999); which instant it is depends on
/// the clock.
#[verifier::external_body]
pub(crate) fn now_utc_nanos() -> (r: i128)
    ensures
        -1_000_000_000_000_000_000_000 <= r <= 1_000_000_000_000_000_000_000,
{
    time::OffsetDateTime::now_utc().unix_timestamp_nanos()
}

/// The current Unix time in whole seconds (`SystemTime::now()` since `UNIX_EPOCH`).
/// Nothing is stated of the value: it depends on the clock. A clock set before 1970,
/// which `duration_since` reports as an error, reads as 0.
#[verifier::external_body]
pub(crate) fn current_unix_time() -> (r: u64) {
    match std::time::SystemTime::now().duration_since(std::time::UNIX_EPOCH) {
        Ok(d) => d.as_secs(),
        Err(_) => 0,
    }
}

} // verus!
