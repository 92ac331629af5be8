//! The clock.

use std::time::{Duration, SystemTime, SystemTimeError, UNIX_EPOCH};
use vstd::prelude::*;

verus! {

/// A reading of the system clock.
#[verifier::external_type_specification]
#[verifier::external_body]
pub struct ExSystemTime(SystemTime);

/// The error of `SystemTime::duration_since`.
#[verifier::external_type_specification]
#[verifier::external_body]
pub struct ExSystemTimeError(SystemTimeError);

/// The whole seconds in a duration.
pub uninterp spec fn whole_seconds(d: Duration) -> u64;

/// The whole seconds from the Unix epoch to a clock reading, or `None` for a reading
/// before the epoch.
pub uninterp spec fn seconds_after_epoch(t: SystemTime) -> Option<u64>;

/// `SystemTime::now` reads the clock. Nothing can be said of the reading.
pub assume_specification[ SystemTime::now ]() -> (t: SystemTime)
;

/// `Duration::as_secs` gives the whole seconds of a duration.
pub assume_specification[ Duration::as_secs ](d: &Duration) -> (secs: u64)
    ensures
        secs == whole_seconds(*d),
;

/// `SystemTime::duration_since`, asked about the Unix epoch, succeeds exactly for readings
/// that are not before it, and then gives the time since.
#[verifier::external_body]
fn since_epoch(t: SystemTime) -> (r: Result<Duration, SystemTimeError>)
    ensures
        r is Ok <==> seconds_after_epoch(t) is Some,
        r is Ok ==> seconds_after_epoch(t) == Some(whole_seconds(r->Ok_0)),
{
    t.duration_since(UNIX_EPOCH)
}

/// The time that a clock reading stands for, in seconds since the Unix epoch. A reading
/// before the epoch counts as the epoch.
pub open spec fn epoch_seconds(t: SystemTime) -> u64 {
    match seconds_after_epoch(t) {
        Some(secs) => secs,
        None => 0,
    }
}

/// The clock reading `t` in seconds since the Unix epoch.
pub fn secs_at(t: SystemTime) -> (secs: u64)
    ensures
        secs == epoch_seconds(t),
{
    match since_epoch(t) {
        Ok(d) => d.as_secs(),
        Err(_) => 0,
    }
}

/// The time in seconds since the Unix epoch: that of some reading of the clock.
pub fn now_secs() -> (secs: u64)
    ensures
        exists|t: SystemTime| secs == #[trigger] epoch_seconds(t),
{
    secs_at(SystemTime::now())
}

// ---- Laws -------------------------------------------------------------------------

/// A clock reading is counted in whole seconds from the epoch on, and as zero before it.
pub proof fn readings_are_counted_from_the_epoch(t: SystemTime)
    ensures
        seconds_after_epoch(t) matches Some(secs) ==> epoch_seconds(t) == secs,
        seconds_after_epoch(t) is None ==> epoch_seconds(t) == 0,
{
}

} // verus!
