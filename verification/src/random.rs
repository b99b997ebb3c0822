//! Random draws, from the thread-local generator of the `rand` crate.
use vstd::prelude::*;
use rand::rngs::ThreadRng;
use rand::Rng;

verus! {

/// The thread-local random number generator of `rand`.
#[verifier::external_type_specification]
#[verifier::external_body]
pub struct ExThreadRng(ThreadRng);

/// Calls `rand::thread_rng`, which hands out a handle to the lazily seeded
/// generator of the current thread. Nothing is claimed of the handle. (The
/// call panics if the operating system cannot seed the generator; no input
/// of ours decides that.)
#[verifier::external_body]
pub(crate) fn thread_rng() -> ThreadRng {
    rand::thread_rng()
}

/// Calls `Rng::gen_range(0..bound)` on the generator: a value drawn
/// uniformly from `0..bound`. Claimed: the value lies in `0..bound`. The
/// call panics on an empty range, which the `requires` leaves out.
#[verifier::external_body]
pub(crate) fn random_below(rng: &mut ThreadRng, bound: u64) -> (r: u64)
    requires
        bound > 0,
    ensures
        r < bound,
{
    rng.gen_range(0..bound)
}

} // verus!
