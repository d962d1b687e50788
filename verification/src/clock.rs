//! The system clock, read as whole seconds since the Unix epoch.

use vstd::prelude::*;

verus! {

/// Declares `std::time::SystemTime`, carried through opaquely.
#[verifier::external_type_specification]
#[verifier::external_body]
pub struct ExSystemTime(std::time::SystemTime);

/// Declares `std::time::SystemTimeError`, carried through opaquely.
#[verifier::external_type_specification]
#[verifier::external_body]
pub struct ExSystemTimeError(std::time::SystemTimeError);

/// Calls `SystemTime::now`. The current time is not a function of anything
/// the program holds, so nothing is stated of it.
#[verifier::external_body]
fn system_time_now() -> std::time::SystemTime {
    std::time::SystemTime::now()
}

/// Calls `SystemTime::duration_since` with the Unix epoch. Nothing is
/// stated of the outcome.
#[verifier::external_body]
fn duration_since_epoch(t: &std::time::SystemTime) -> Result<
    core::time::Duration,
    std::time::SystemTimeError,
> {
    t.duration_since(std::time::UNIX_EPOCH)
}

/// Calls `Duration::as_secs`: the whole seconds of a duration. Nothing is
/// stated of the result, since a `Duration` is opaque here.
#[verifier::external_body]
fn duration_whole_secs(d: &core::time::Duration) -> u64 {
    d.as_secs()
}

/// The current time in whole seconds since the Unix epoch; 0 where the
/// clock stands before the epoch.
pub fn unix_now_secs() -> u64 {
    let now = system_time_now();
    match duration_since_epoch(&now) {
        Ok(d) => duration_whole_secs(&d),
        Err(_) => 0,
    }
}

} // verus!
