//! The wall clock.

use vstd::prelude::*;

verus! {

/// The milliseconds from the Unix epoch to `std::time::SystemTime::now`, by
/// `duration_since`; none where the clock stands before the epoch. Nothing is
/// claimed of the result.
#[verifier::external_body]
fn millis_since_epoch() -> (r: Option<u128>) {
    std::time::SystemTime::now()
        .duration_since(std::time::UNIX_EPOCH)
        .ok()
        .map(|d| d.as_millis())
}

/// The time that a reading of the clock stands for: 0 where the clock stands
/// before the epoch.
pub fn time_of_reading(millis: Option<u128>) -> (r: i64)
    ensures
        r == match millis {
            Some(m) => m as i64,
            None => 0,
        },
{
    match millis {
        Some(m) => m as i64,
        None => 0,
    }
}

/// Milliseconds since the Unix epoch.
pub(crate) fn now_ms() -> (r: i64) {
    time_of_reading(millis_since_epoch())
}

} // verus!
