//! The wall clock, read through the standard library.

use vstd::prelude::*;

verus! {

/// `std::time::SystemTimeError`, the error of a clock that stands before the
/// moment it is compared with. Nothing is read from it.
#[verifier::external_type_specification]
#[verifier::external_body]
pub struct ExSystemTimeError(std::time::SystemTimeError);

/// `std::time::SystemTime::elapsed`, called on `UNIX_EPOCH`: the time that
/// has passed since the epoch, or an error when the clock stands before it.
/// Nothing is claimed of the result.
#[verifier::external_body]
fn elapsed_since_epoch() -> (elapsed: Result<core::time::Duration, std::time::SystemTimeError>) {
    std::time::UNIX_EPOCH.elapsed()
}

/// `core::time::Duration::as_nanos`: the whole duration in nanoseconds.
/// A `Duration` is opaque here, so nothing is claimed of the result.
#[verifier::external_body]
fn duration_nanos(duration: &core::time::Duration) -> (nanos: u128) {
    duration.as_nanos()
}

/// Nanoseconds since the Unix epoch; zero when the clock stands before it.
pub(crate) fn now_nanos() -> (nanos: u128) {
    let reading = match elapsed_since_epoch() {
        Ok(duration) => Some(duration_nanos(&duration)),
        Err(_) => None,
    };
    timestamp_from(reading)
}

/// The timestamp that a reading of the clock stands for: the nanoseconds
/// it gave, or zero where the clock stood before the epoch and gave none.
pub open spec fn timestamp_of(reading: Option<u128>) -> u128 {
    match reading {
        Some(nanos) => nanos,
        None => 0,
    }
}

/// Turns a reading of the clock into a timestamp.
pub fn timestamp_from(reading: Option<u128>) -> (nanos: u128)
    ensures
        nanos == timestamp_of(reading),
{
    match reading {
        Some(nanos) => nanos,
        None => 0,
    }
}

} // verus!
