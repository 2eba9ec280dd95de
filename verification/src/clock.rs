//! Wall-clock time.

use std::time::{SystemTime, UNIX_EPOCH};
use vstd::prelude::*;

verus! {

/// `std`'s `SystemTime::duration_since` from the Unix epoch to now, in milliseconds; `None`
/// when the clock stands before the epoch. What the clock shows is left open.
#[verifier::external_body]
fn millis_since_epoch() -> (r: Option<u128>) {
    SystemTime::now().duration_since(UNIX_EPOCH).ok().map(|duration| duration.as_millis())
}

/// What the clock's reading is recorded as: its low 64 bits, or 0 before the epoch.
pub open spec fn stamp(reading: Option<u128>) -> i64 {
    match reading {
        Some(millis) => millis as i64,
        None => 0,
    }
}

/// The time stamp of a clock reading.
pub fn stamp_of(reading: Option<u128>) -> (r: i64)
    ensures
        r == stamp(reading),
{
    match reading {
        Some(millis) => #[verifier::truncate] (millis as i64),
        None => 0,
    }
}

/// The present time in Unix milliseconds.
pub fn now_millis() -> i64 {
    stamp_of(millis_since_epoch())
}

} // verus!
