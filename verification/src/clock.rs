//! The clock that stamps the start of a session.

use vstd::prelude::*;
use std::time::Instant;

verus! {

/// `std::time::Instant`, a point in time that only the clock can produce.
/// Nothing is known of a value of it.
#[verifier::external_type_specification]
#[verifier::external_body]
pub struct ExInstant(Instant);

/// The present moment, read with `Instant::now`. Nothing is claimed of the
/// value: it differs from call to call.
#[verifier::external_body]
pub(crate) fn now() -> Instant {
    Instant::now()
}

} // verus!
