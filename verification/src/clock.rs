//! The system clock.

use vstd::prelude::*;

verus! {

/// The milliseconds since the Unix epoch that `std::time::SystemTime::now`
/// reads, zero before the epoch. Nothing is promised of the clock.
#[verifier::external_body]
pub(crate) fn current_time_unix_ms() -> (now: u64) {
    let now = std::time::SystemTime::now().duration_since(std::time::UNIX_EPOCH);
    now.unwrap_or_default().as_millis() as u64
}

/// The whole seconds since the Unix epoch; which time the clock gives is left open.
pub fn current_unix_secs() -> (now: u64)
    ensures
        now <= u64::MAX / 1000,
{
    whole_seconds(current_time_unix_ms())
}

/// The whole seconds in a time in milliseconds.
pub fn whole_seconds(unix_ms: u64) -> (secs: u64)
    ensures
        secs == unix_ms / 1000,
{
    unix_ms / 1000
}

} // verus!
