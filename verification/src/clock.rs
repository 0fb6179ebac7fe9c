//! The wall clock.

use vstd::prelude::*;

verus! {

/// Reads the system clock through `std::time::SystemTime::now` and hands back
/// the milliseconds elapsed since the Unix epoch, or 0 where the clock stands
/// before the epoch. Nothing is promised of the value: two readings may
/// differ in any way.
#[verifier::external_body]
pub(crate) fn now_millis() -> u64 {
    std::time::SystemTime::now().duration_since(std::time::UNIX_EPOCH).unwrap_or_default().as_millis() as u64
}

} // verus!
