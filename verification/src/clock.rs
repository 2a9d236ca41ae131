//! The system clock.

use vstd::prelude::*;

verus! {

#[verifier::external_type_specification]
#[verifier::external_body]
pub struct ExSystemTime(std::time::SystemTime);

/// Reads the system clock with `std::time::SystemTime::now`. Nothing is
/// claimed of the instant returned.
#[verifier::external_body]
fn system_now() -> std::time::SystemTime {
    std::time::SystemTime::now()
}

/// Nanoseconds from the Unix epoch to `t` with
/// `std::time::SystemTime::duration_since`; `None` for instants before the
/// epoch. Nothing is claimed of the number.
#[verifier::external_body]
fn nanos_since_epoch(t: &std::time::SystemTime) -> Option<u128> {
    t.duration_since(std::time::UNIX_EPOCH).ok().map(|d| d.as_nanos())
}

/// The current instant in nanoseconds since the Unix epoch; `None` when the
/// clock reads an instant before the epoch.
pub fn current_time() -> Option<u128> {
    let t = system_now();
    nanos_since_epoch(&t)
}

} // verus!
