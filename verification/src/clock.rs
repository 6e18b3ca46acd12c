//! The wall clock, read through small trusted wrappers, one per std
//! function. Nothing is promised of the instant it reports beyond the range
//! of its sub-second part.

use vstd::prelude::*;
use std::time::{Duration, SystemTime, UNIX_EPOCH};

verus! {

/// The wall-clock instant type of std, opaque to Verus.
#[verifier::external_type_specification]
#[verifier::external_body]
pub struct ExSystemTime(SystemTime);

/// Reads the clock with `SystemTime::now`. Nothing is promised of the reading.
#[verifier::external_body]
fn system_now() -> (t: SystemTime) {
    SystemTime::now()
}

/// `SystemTime::duration_since(UNIX_EPOCH)`, `None` when the instant lies
/// before the epoch. Nothing is promised of the duration.
#[verifier::external_body]
fn since_epoch(t: &SystemTime) -> (d: Option<Duration>) {
    t.duration_since(UNIX_EPOCH).ok()
}

/// `Duration::as_secs`: the whole seconds. Nothing more is promised.
#[verifier::external_body]
fn whole_seconds(d: &Duration) -> (s: u64) {
    d.as_secs()
}

/// `Duration::subsec_nanos`: the fractional part in nanoseconds, which std
/// documents to be below one billion.
#[verifier::external_body]
fn fraction_nanos(d: &Duration) -> (n: u32)
    ensures
        n < 1_000_000_000,
{
    d.subsec_nanos()
}

/// `t` is a reading the clock gave: what some call of `unix_time` returned.
pub open spec fn clock_reading(t: Option<(u64, u32)>) -> bool {
    call_ensures(unix_time, (), t)
}

/// The whole seconds since the epoch of a reading (zero before the epoch).
pub open spec fn reading_seconds(t: Option<(u64, u32)>) -> u64 {
    match t {
        Some(t) => t.0,
        None => 0,
    }
}

/// The milliseconds since the epoch of a reading, truncated to 64 bits
/// (zero before the epoch).
pub open spec fn reading_millis(t: Option<(u64, u32)>) -> u64 {
    match t {
        Some(t) => (t.0 * 1000 + t.1 / 1_000_000) as u64,
        None => 0,
    }
}

/// The time since the epoch as whole seconds and nanoseconds; `None` when
/// the clock stands before the epoch.
pub fn unix_time() -> (now: Option<(u64, u32)>)
    ensures
        now matches Some(t) ==> t.1 < 1_000_000_000,
{
    let t = system_now();
    match since_epoch(&t) {
        Some(d) => Some((whole_seconds(&d), fraction_nanos(&d))),
        None => None,
    }
}

} // verus!
