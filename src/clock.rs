//! Filesystem times as Unix timestamps.

use vstd::prelude::*;
use std::time::SystemTime;

verus! {

#[verifier::external_type_specification]
#[verifier::external_body]
pub struct ExSystemTime(SystemTime);

/// The whole seconds from the Unix epoch to a time, or `None` for a time
/// before the epoch.
pub uninterp spec fn unix_secs_of(t: SystemTime) -> Option<u64>;

/// Relies on SystemTime::duration_since against UNIX_EPOCH and
/// Duration::as_secs: the result depends on the time alone.
#[verifier::external_body]
fn unix_secs(time: &SystemTime) -> (r: Option<u64>)
    ensures
        r == unix_secs_of(*time),
{
    time.duration_since(SystemTime::UNIX_EPOCH).ok().map(|d| d.as_secs())
}

/// Whole seconds since the Unix epoch; 0 for a time before it.
pub fn system_time_to_unix_timestamp(time: SystemTime) -> (r: u64)
    ensures
        r == match unix_secs_of(time) {
            Some(s) => s,
            None => 0,
        },
{
    match unix_secs(&time) {
        Some(s) => s,
        None => 0,
    }
}

} // verus!
