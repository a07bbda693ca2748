//! The wall clock, read as a plain number.
use vstd::prelude::*;

verus! {

/// `std::time::SystemTime`, a reading of the system clock. Nothing inside it
/// is visible here.
#[verifier::external_type_specification]
#[verifier::external_body]
pub struct ExSystemTime(std::time::SystemTime);

/// `std::time::SystemTimeError`, which says that one reading lies before
/// another. Nothing inside it is visible here.
#[verifier::external_type_specification]
#[verifier::external_body]
pub struct ExSystemTimeError(std::time::SystemTimeError);

/// Calls `std::time::SystemTime::now`. Nothing is claimed of the reading:
/// two readings may differ in either direction.
#[verifier::external_body]
fn system_now() -> (reading: std::time::SystemTime) {
    std::time::SystemTime::now()
}

/// Calls `std::time::SystemTime::duration_since` against the Unix epoch.
/// Nothing is claimed of the outcome.
#[verifier::external_body]
fn since_unix_epoch(reading: &std::time::SystemTime) -> (elapsed: Result<
    std::time::Duration,
    std::time::SystemTimeError,
>) {
    reading.duration_since(std::time::UNIX_EPOCH)
}

/// Calls `std::time::Duration::as_nanos`. Nothing is claimed of the number.
#[verifier::external_body]
fn whole_nanos(elapsed: &std::time::Duration) -> (nanos: u128) {
    elapsed.as_nanos()
}

/// The current time in nanoseconds since the Unix epoch. A clock that stands
/// before the epoch reads as zero. Every caller is verified for whatever
/// number comes back.
pub(crate) fn wall_clock_nanos() -> (now: u128) {
    let reading = system_now();
    match since_unix_epoch(&reading) {
        Ok(elapsed) => whole_nanos(&elapsed),
        Err(_) => 0,
    }
}

} // verus!
