//! The wall clock, in whole seconds since the Unix epoch.

use vstd::prelude::*;
use std::time::{Duration, SystemTimeError};

verus! {

/// `std::time::SystemTimeError`, the error of a clock that stands before the
/// moment it is compared with.
#[verifier::external_type_specification]
#[verifier::external_body]
pub struct ExSystemTimeError(SystemTimeError);

/// `std::time::SystemTime::elapsed` of the Unix epoch: the time that has
/// passed since the epoch, or an error where the system clock stands before
/// it. Nothing is claimed of the result: it is whatever the clock says at the
/// moment of the call.
#[verifier::external_body]
fn elapsed_since_epoch() -> (elapsed: Result<Duration, SystemTimeError>) {
    std::time::UNIX_EPOCH.elapsed()
}

/// `std::time::Duration::as_secs`: the whole seconds of a duration.
pub assume_specification[ Duration::as_secs ](duration: &Duration) -> (seconds: u64)
;

/// The current Unix timestamp in seconds, or 0 where the system clock stands
/// before the epoch.
pub fn get_current_timestamp() -> (now: u64) {
    match elapsed_since_epoch() {
        Ok(elapsed) => elapsed.as_secs(),
        Err(_) => 0,
    }
}

} // verus!
