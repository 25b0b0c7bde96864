//! The wall clock, in whole seconds since the Unix epoch.

use vstd::prelude::*;
use std::time::Duration;
use std::time::SystemTime;
use std::time::SystemTimeError;
use std::time::UNIX_EPOCH;

verus! {

/// `std::time::SystemTime`, a point in time as the system clock measures it.
/// Nothing is known of a value of it.
#[verifier::external_type_specification]
#[verifier::external_body]
pub struct ExSystemTime(SystemTime);

/// `std::time::SystemTimeError`, the error of `SystemTime::duration_since`.
/// Nothing is known of a value of it.
#[verifier::external_type_specification]
#[verifier::external_body]
pub struct ExSystemTimeError(SystemTimeError);

/// `SystemTime::now` reads the system clock. Nothing is claimed of the time
/// it returns: two readings may be in any order.
pub assume_specification[ SystemTime::now ]() -> (now: SystemTime);

/// `SystemTime::duration_since` gives the time elapsed from `earlier` to
/// `time`, or an error where `earlier` is the later of the two. Nothing is
/// claimed of which of them it returns.
pub assume_specification[ SystemTime::duration_since ](
    time: &SystemTime,
    earlier: SystemTime,
) -> (elapsed: Result<Duration, SystemTimeError>);

/// `Duration::as_secs` gives the whole seconds of a duration. Nothing is
/// claimed of their number.
pub assume_specification[ Duration::as_secs ](duration: &Duration) -> (secs: u64);

/// `std::time::UNIX_EPOCH`, the start of 1970 in UTC.
#[verifier::external_body]
fn unix_epoch() -> (epoch: SystemTime) {
    UNIX_EPOCH
}

/// The time now, in whole seconds since the Unix epoch. A clock that is set
/// before the epoch reads as the epoch itself.
pub fn get_unix_epoch() -> (secs: u64) {
    let now = SystemTime::now();
    match now.duration_since(unix_epoch()) {
        Ok(elapsed) => elapsed.as_secs(),
        Err(_) => 0,
    }
}

} // verus!
