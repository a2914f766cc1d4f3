//! The wall clock, taken on trust.

use vstd::prelude::*;

verus! {

/// Relies on `SystemTime::now`: the current time as milliseconds since the
/// Unix epoch, or zero if the clock reads before the epoch. Nothing is
/// assumed about the value; durations derived from it are informational.
#[verifier::external_body]
pub fn now_unix_millis() -> u64 {
    std::time::SystemTime::now().duration_since(std::time::UNIX_EPOCH).map_or(
        0,
        |d| d.as_millis() as u64,
    )
}

} // verus!
