//! The wall clock.

use std::time::SystemTime;

use vstd::prelude::*;

verus! {

/// The standard library's `SystemTime`.
#[verifier::external_type_specification]
#[verifier::external_body]
pub struct ExSystemTime(SystemTime);

/// The standard library's `SystemTime::now`. Nothing is promised of the time.
pub assume_specification[ SystemTime::now ]() -> SystemTime
;

/// The standard library's `SystemTime::duration_since` with the Unix epoch: the whole seconds and
/// the nanoseconds behind them, fewer than make up a second; nothing for a time before the epoch.
/// Which time gives which numbers is left unsaid: a `SystemTime` shows nothing of what it holds.
#[verifier::external_body]
fn since_epoch(time: SystemTime) -> (r: Option<(u64, u32)>)
    ensures
        r matches Some(d) ==> d.1 < 1_000_000_000,
{
    match time.duration_since(std::time::UNIX_EPOCH) {
        Ok(d) => Some((d.as_secs(), d.subsec_nanos())),
        Err(_) => None,
    }
}

/// The seconds since the Unix epoch: a reading of the clock, put through [`seconds_of`].
pub fn seconds() -> (n: u64) {
    seconds_of(since_epoch(SystemTime::now()))
}

/// The nanoseconds behind the whole second: a reading of the clock, put through [`nanos_of`].
///
/// Whatever the clock says, they do not make up another second. Nothing else holds of every
/// reading.
pub fn subsec_nanos() -> (n: u32)
    ensures
        n < 1_000_000_000,
{
    nanos_of(since_epoch(SystemTime::now()))
}

/// The whole seconds of a reading of the clock; 0 where it stands before the epoch.
pub fn seconds_of(reading: Option<(u64, u32)>) -> (n: u64)
    ensures
        n == match reading {
            Some((secs, _)) => secs,
            None => 0,
        },
{
    match reading {
        Some((secs, _)) => secs,
        None => 0,
    }
}

/// The nanoseconds behind the whole second of a reading of the clock; 0 where it stands before
/// the epoch.
pub fn nanos_of(reading: Option<(u64, u32)>) -> (n: u32)
    ensures
        n == match reading {
            Some((_, nanos)) => nanos,
            None => 0,
        },
{
    match reading {
        Some((_, nanos)) => nanos,
        None => 0,
    }
}

} // verus!
