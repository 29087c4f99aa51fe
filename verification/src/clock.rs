//! The time at which a workbench is born.

use std::time::Instant;
use vstd::prelude::*;

verus! {

/// `std::time::Instant`: a point in time of a clock that never goes back.
#[verifier::external_type_specification]
#[verifier::external_body]
pub struct ExInstant(Instant);

/// Calls `std::time::Instant::now`.
///
/// Nothing is promised of the instant: it is read from the clock.
#[verifier::external_body]
pub(crate) fn now() -> (instant: Instant) {
    Instant::now()
}

} // verus!
