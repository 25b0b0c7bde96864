//! The source of random identities.

use vstd::prelude::*;
use rand::rngs::ThreadRng;
use rand::Rng;

verus! {

/// `rand::rngs::ThreadRng`, the handle of the random number generator of the
/// current thread. Nothing is known of a value of it.
#[verifier::external_type_specification]
#[verifier::external_body]
pub struct ExThreadRng(ThreadRng);

/// `rand::thread_rng` hands out the generator of the current thread, seeded
/// by the system. Nothing is claimed of it.
pub assume_specification[ rand::thread_rng ]() -> (rng: ThreadRng);

/// `Rng::gen` draws a value from the generator, here 128 bits. Nothing is
/// claimed of the value: every draw may give any identity.
#[verifier::external_body]
pub(crate) fn draw_id(rng: &mut ThreadRng) -> (id: u128) {
    rng.gen()
}

} // verus!
