//! The clock by which the age of unfinished messages is measured.

use vstd::prelude::*;
use std::time::Instant;

verus! {

#[verifier::external_type_specification]
#[verifier::external_body]
pub struct ExInstant(std::time::Instant);

/// `Instant::now`: the present moment. Nothing is known of it beforehand.
#[verifier::external_body]
pub(crate) fn clock_now() -> (now: Instant) {
    Instant::now()
}

/// `Instant::elapsed` with `Duration::as_millis`: the milliseconds that have
/// passed since `start`, as far as they fit 64 bits. Nothing is known of
/// the number beforehand.
#[verifier::external_body]
pub(crate) fn clock_elapsed_ms(start: &Instant) -> (ms: u64) {
    u64::try_from(start.elapsed().as_millis()).unwrap_or(u64::MAX)
}

} // verus!
