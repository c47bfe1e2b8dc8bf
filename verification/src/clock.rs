//! The wall clock, in seconds since 1970.

use std::time::{Duration, SystemTime, UNIX_EPOCH};
use vstd::prelude::*;

verus! {

/// `std::time::SystemTime`, a reading of the system clock.
#[verifier::external_type_specification]
#[verifier::external_body]
pub struct ExSystemTime(SystemTime);

/// How long after the start of 1970 a reading was taken, if it was not taken before.
pub uninterp spec fn since_1970(t: SystemTime) -> Option<Duration>;

/// The whole seconds of a duration.
pub uninterp spec fn whole_seconds(d: Duration) -> u64;

/// `SystemTime::now` reads the system clock; nothing is claimed of what it shows.
pub assume_specification[ SystemTime::now ]() -> (now: SystemTime);

/// `SystemTime::duration_since`, from `UNIX_EPOCH` on: the time that passed between the start of 1970
/// and a reading, or an error where the reading is the earlier one.
#[verifier::external_body]
fn passed_since_1970(t: &SystemTime) -> (passed: Option<Duration>)
    ensures
        passed == since_1970(*t),
{
    t.duration_since(UNIX_EPOCH).ok()
}

/// `Duration::as_secs` gives the whole seconds of a duration.
pub assume_specification[ Duration::as_secs ](d: &Duration) -> (seconds: u64)
    ensures
        seconds == whole_seconds(*d),
;

/// What a reading of the system clock shows, in seconds since 1970; one from before that counts as
/// zero.
pub open spec fn seconds_of(t: SystemTime) -> u64 {
    match since_1970(t) {
        Some(d) => whole_seconds(d),
        None => 0,
    }
}

/// The seconds of a reading; a clock that is set before 1970 counts as zero.
pub fn seconds_or_zero(reading: Option<u64>) -> (seconds: u64)
    ensures
        seconds == match reading {
            Some(s) => s,
            None => 0,
        },
{
    match reading {
        Some(s) => s,
        None => 0,
    }
}

/// Seconds since 1970 by the system clock: those of some reading of it. Which reading is up to the
/// clock.
pub fn unix_now() -> (seconds: u64)
    ensures
        exists|t: SystemTime| seconds == #[trigger] seconds_of(t),
{
    let now = SystemTime::now();
    let reading = match passed_since_1970(&now) {
        Some(d) => Some(d.as_secs()),
        None => None,
    };
    let seconds: u64 = seconds_or_zero(reading);
    assert(seconds == seconds_of(now));
    seconds
}

/// A reading shows the whole seconds since 1970, and zero where it was taken before.
pub proof fn readings_show_seconds(t: SystemTime)
    ensures
        since_1970(t) matches Some(d) ==> seconds_of(t) == whole_seconds(d),
        since_1970(t) is None ==> seconds_of(t) == 0,
{
}

} // verus!
