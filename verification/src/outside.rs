//! The calls this library makes into outside crates, each behind a small trusted item.

use vstd::prelude::*;

verus! {

/// Earliest instant, in milliseconds since the Unix epoch (UTC), that a
/// `chrono::DateTime<Utc>` can hold (January 1st of year -262143), which the
/// stored timestamps are read back into.
pub const MIN_TIMESTAMP_MS: i64 = -8_334_601_315_200_000;

/// Latest instant, in milliseconds since the Unix epoch (UTC), that the
/// timestamps are kept within (a bound a little past the end of year 262142,
/// the last year a `chrono::DateTime<Utc>` holds).
pub const MAX_TIMESTAMP_MS: i64 = 8_210_298_412_799_999;

/// A timestamp in milliseconds that a UTC date-time can represent.
pub open spec fn valid_ms(ms: i64) -> bool {
    MIN_TIMESTAMP_MS <= ms <= MAX_TIMESTAMP_MS
}

/// Calls `std::time::SystemTime::now()` and measures it from the Unix epoch
/// (`SystemTime::duration_since`, `Duration::as_millis`): `Ok` with the
/// milliseconds after the epoch, or `Err` with the milliseconds before it when
/// the clock reads earlier. Nothing is claimed of the value.
#[verifier::external_body]
fn system_clock_ms() -> (r: Result<u128, u128>) {
    match std::time::SystemTime::now().duration_since(std::time::UNIX_EPOCH) {
        Ok(d) => Ok(d.as_millis()),
        Err(e) => Err(e.duration().as_millis()),
    }
}

/// The current time in milliseconds since the Unix epoch (negative before
/// it), kept within the range a UTC date-time can hold.
pub fn now_millis() -> (ms: i64)
    ensures
        valid_ms(ms),
{
    match system_clock_ms() {
        Ok(after) => if after > MAX_TIMESTAMP_MS as u128 {
            MAX_TIMESTAMP_MS
        } else {
            after as i64
        },
        Err(before) => if before > (-MIN_TIMESTAMP_MS) as u128 {
            MIN_TIMESTAMP_MS
        } else {
            -(before as i64)
        },
    }
}

/// Calls `uuid::Uuid::new_v4()` and returns the identifier as its 128-bit
/// integer (`Uuid::as_u128`). The value is random: nothing is claimed of it.
#[verifier::external_body]
pub(crate) fn fresh_task_id() -> (id: u128) {
    uuid::Uuid::new_v4().as_u128()
}


/// A point in time on the monotonic clock, used to recognise double key presses.
#[verifier::external_type_specification]
#[verifier::external_body]
pub struct ExInstant(std::time::Instant);

pub use std::time::Instant;

/// Calls `std::time::Instant::now()`. Nothing is claimed of the instant.
#[verifier::external_body]
pub(crate) fn instant_now() -> (i: Instant) {
    Instant::now()
}

/// Calls `std::time::Instant::elapsed` and reads the duration in whole
/// milliseconds (`Duration::as_millis`). Nothing is claimed of the value.
#[verifier::external_body]
pub(crate) fn elapsed_millis(i: &Instant) -> (ms: u128) {
    i.elapsed().as_millis()
}

} // verus!
