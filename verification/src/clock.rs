//! Wall-clock readings.
use std::time::Instant;
use vstd::prelude::*;

verus! {

/// Milliseconds since the Unix epoch by `std::time::SystemTime::now()`
/// (0 when the clock reads earlier than the epoch), truncated to 64 bits.
/// Nothing is stated of the value: it comes from the system clock.
#[verifier::external_body]
pub fn unix_millis() -> u64 {
    std::time::SystemTime::now().duration_since(std::time::UNIX_EPOCH).unwrap_or_default().as_millis() as u64
}

/// Microseconds since the Unix epoch by `std::time::SystemTime::now()`
/// (0 when the clock reads earlier than the epoch), truncated to 64 bits.
/// Nothing is stated of the value: it comes from the system clock.
#[verifier::external_body]
pub fn unix_micros() -> u64 {
    std::time::SystemTime::now().duration_since(std::time::UNIX_EPOCH).unwrap_or_default().as_micros() as u64
}

#[verifier::external_type_specification]
#[verifier::external_body]
pub struct ExInstant(Instant);

/// `Instant::now()`: the current reading of the monotonic clock. Nothing is
/// stated of it.
#[verifier::external_body]
pub fn instant_now() -> Instant {
    Instant::now()
}

} // verus!
