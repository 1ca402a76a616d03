//! The system clock, read in whole seconds since the Unix epoch.

use std::time::{Duration, SystemTime, SystemTimeError, UNIX_EPOCH};
use vstd::prelude::*;

use crate::stores::StoreError;

verus! {

/// `std::time::SystemTime`, a reading of the system clock. It is carried
/// from one call to the next, and nothing is read from it.
#[verifier::external_type_specification]
#[verifier::external_body]
pub struct ExSystemTime(SystemTime);

/// `std::time::SystemTimeError`, what `SystemTime::duration_since` fails
/// with. Nothing is read from it.
#[verifier::external_type_specification]
#[verifier::external_body]
pub struct ExSystemTimeError(SystemTimeError);

/// `SystemTime::now` reads the system clock. Nothing is stated of the time
/// that it returns: it differs from call to call.
pub assume_specification[ SystemTime::now ]() -> SystemTime;

/// `SystemTime::duration_since` measures the time from `earlier` to `time`,
/// and fails where `earlier` is the later of the two. Nothing is stated of
/// either outcome.
pub assume_specification[ SystemTime::duration_since ](
    time: &SystemTime,
    earlier: SystemTime,
) -> Result<Duration, SystemTimeError>;

/// `Duration::as_secs` gives the whole seconds of a duration. Nothing is
/// stated of the number.
pub assume_specification[ Duration::as_secs ](duration: &Duration) -> u64;

/// `UNIX_EPOCH`, the time from which the clock counts: the constant is handed
/// on as it is, and nothing is stated of it.
#[verifier::external_body]
fn unix_epoch() -> (epoch: SystemTime) {
    UNIX_EPOCH
}

/// Reads the system clock: the whole seconds that have passed since the Unix
/// epoch. Fails where the clock is set to a time before the epoch.
pub(crate) fn unix_now() -> (r: Result<u64, StoreError>) {
    let now = SystemTime::now();
    match now.duration_since(unix_epoch()) {
        Ok(elapsed) => Ok(elapsed.as_secs()),
        Err(_) => Err(StoreError::Clock),
    }
}

/// Whether a reading of the system clock may come out as `reading`: the
/// second that it shows, or the failure. Nothing ties one reading to the
/// next; all that is known of a reading is that `unix_now` returned it.
pub closed spec fn clock_gives(reading: Result<u64, StoreError>) -> bool {
    call_ensures(unix_now, (), reading)
}

/// What `unix_now` has returned is a reading of the clock.
pub(crate) proof fn lemma_unix_now_is_a_reading(reading: Result<u64, StoreError>)
    requires
        call_ensures(unix_now, (), reading),
    ensures
        clock_gives(reading),
{
}

} // verus!
