use vstd::prelude::*;
use std::time::{Duration, SystemTime, SystemTimeError, UNIX_EPOCH};

verus! {

#[verifier::external_type_specification]
#[verifier::external_body]
pub struct ExSystemTime(SystemTime);

#[verifier::external_type_specification]
#[verifier::external_body]
pub struct ExSystemTimeError(SystemTimeError);

/// Calls `SystemTime::now`. The result depends on the clock: nothing is
/// claimed of it.
#[verifier::external_body]
fn system_time_now() -> (r: SystemTime) {
    SystemTime::now()
}

/// Calls `SystemTime::duration_since` with the Unix epoch. The result depends
/// on the clock: nothing is claimed of it.
#[verifier::external_body]
fn since_unix_epoch(t: &SystemTime) -> (r: Result<Duration, SystemTimeError>) {
    t.duration_since(UNIX_EPOCH)
}

/// Calls `Duration::as_millis`. Nothing is claimed of the result: the
/// duration's contents are opaque here.
#[verifier::external_body]
fn whole_millis(d: &Duration) -> (r: u128) {
    d.as_millis()
}

/// The clock reading in milliseconds, as an `i64` (truncated the way `as`
/// truncates), or 0 when the clock is before the Unix epoch.
pub fn millis_or_zero(ms: Option<u128>) -> (r: i64)
    ensures
        r == match ms {
            Some(m) => m as i64,
            None => 0i64,
        },
{
    match ms {
        Some(m) => #[verifier::truncate] (m as i64),
        None => 0,
    }
}

/// Milliseconds since the Unix epoch by the system clock, or 0 when the clock
/// is set before it. Nothing is claimed of the value: it is the clock's.
pub fn now_ms() -> (r: i64) {
    let t = system_time_now();
    let ms = match since_unix_epoch(&t) {
        Ok(d) => Some(whole_millis(&d)),
        Err(_) => None,
    };
    millis_or_zero(ms)
}

} // verus!
