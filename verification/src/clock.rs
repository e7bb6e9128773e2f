//! Elapsed time.
use std::time::{Duration, Instant};

use vstd::prelude::*;

verus! {

/// An instant of the machine's monotonic clock.
#[verifier::external_type_specification]
#[verifier::external_body]
pub struct ExInstant(Instant);

/// `Instant::now` reads the clock. Nothing is claimed of what it reads.
pub assume_specification[ Instant::now ]() -> Instant;

/// `Instant::elapsed` reads the clock again. Nothing is claimed of the time
/// between.
pub assume_specification[ Instant::elapsed ](instant: &Instant) -> Duration;

/// `Duration::as_millis` counts whole milliseconds. Nothing is claimed of their
/// number.
pub assume_specification[ Duration::as_millis ](duration: &Duration) -> u128;

/// A number of milliseconds as far as an answer can carry it.
pub open spec fn bounded(ms: u128) -> u64 {
    if ms <= u64::MAX {
        ms as u64
    } else {
        u64::MAX
    }
}

/// A number of milliseconds as far as an answer can carry it.
pub fn bounded_millis(ms: u128) -> (res: u64)
    ensures
        res == bounded(ms),
{
    if ms <= 0xffff_ffff_ffff_ffff {
        ms as u64
    } else {
        0xffff_ffff_ffff_ffff
    }
}

/// A number of milliseconds that fits is carried as it is, and one that does not
/// as the largest that does.
pub proof fn milliseconds_are_carried_as_they_are(ms: u128)
    ensures
        ms <= 0xffff_ffff_ffff_ffff ==> bounded(ms) == ms,
        ms > 0xffff_ffff_ffff_ffff ==> bounded(ms) == 0xffff_ffff_ffff_ffff,
{
}

} // verus!
