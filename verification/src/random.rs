//! The random source: the thread-local generator of the `rand` crate, behind
//! trusted declarations. Nothing is assumed about which value comes back, only
//! that a drawn index lies below its bound.

use vstd::prelude::*;
use rand::Rng;

verus! {

/// Relies on rand::rngs::ThreadRng being an ordinary owned handle; the type
/// is declared opaquely so values of it can be held and passed around.
#[verifier::external_type_specification]
#[verifier::external_body]
pub struct ExThreadRng(rand::rngs::ThreadRng);

/// Relies on rand::thread_rng: returns a handle to the thread-local
/// generator. Nothing is stated of it; the handle is opaque.
pub assume_specification[ rand::thread_rng ]() -> rand::rngs::ThreadRng;

/// Relies on Rng::gen_range over the range `0..bound`: the drawn value lies
/// in that range, uniformly; it panics only on an empty range, which the
/// precondition rules out. Uniformity is a distributional fact that no single
/// call exhibits, so only membership is stated.
#[verifier::external_body]
pub(crate) fn index_below(rng: &mut rand::rngs::ThreadRng, bound: usize) -> (r: usize)
    requires
        bound >= 1,
    ensures
        r < bound,
{
    rng.gen_range(0..bound)
}

} // verus!
