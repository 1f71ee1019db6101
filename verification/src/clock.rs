use std::time::{Duration, SystemTime, SystemTimeError, UNIX_EPOCH};
use vstd::prelude::*;

verus! {

#[verifier::external_type_specification]
#[verifier::external_body]
pub struct ExSystemTime(SystemTime);

#[verifier::external_type_specification]
#[verifier::external_body]
pub struct ExSystemTimeError(SystemTimeError);

/// Calls `SystemTime::now`. Nothing is stated of the result: it is the
/// machine's clock.
#[verifier::external_body]
fn system_now() -> SystemTime {
    SystemTime::now()
}

/// Calls `SystemTime::duration_since` with the Unix epoch as the earlier
/// time. `SystemTime` and `Duration` are opaque here, so nothing is stated of
/// the result; `duration_since` does not panic.
#[verifier::external_body]
fn since_unix_epoch(t: &SystemTime) -> Result<Duration, SystemTimeError> {
    t.duration_since(UNIX_EPOCH)
}

/// Calls `Duration::as_millis`, the whole milliseconds of `d`. `Duration` is
/// opaque here, so the value is not stated.
#[verifier::external_body]
fn whole_millis(d: &Duration) -> u128 {
    d.as_millis()
}

/// Milliseconds since the Unix epoch as a `u64`: the elapsed milliseconds cut
/// to their low 64 bits, or zero when the clock stands before the epoch.
pub fn epoch_millis(elapsed: Option<u128>) -> (r: u64)
    ensures
        r == match elapsed {
            Some(ms) => ms as u64,
            None => 0u64,
        },
{
    match elapsed {
        Some(ms) => ms as u64,
        None => 0,
    }
}

/// The current time in milliseconds since the Unix epoch, zero when the
/// clock stands before the epoch.
pub fn now_millis() -> u64 {
    let now = system_now();
    let elapsed = match since_unix_epoch(&now) {
        Ok(d) => Some(whole_millis(&d)),
        Err(_) => None,
    };
    epoch_millis(elapsed)
}

} // verus!
