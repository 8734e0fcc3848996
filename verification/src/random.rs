//! The source of chance for the shuffle.

use vstd::prelude::*;
use rand::Rng;

verus! {

/// A number from the generator of the running thread: `rand::thread_rng`
/// hands out the generator and `Rng::gen` draws the number. Nothing is
/// claimed of the number, and every call may return another one. The
/// generator is seeded from the system and cannot start without it.
#[verifier::external_body]
pub(crate) fn random_number() -> usize {
    rand::thread_rng().gen::<usize>()
}

} // verus!
