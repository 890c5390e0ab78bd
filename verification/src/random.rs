//! The random source: the calling thread's generator of the `rand` crate.
//!
//! Nothing here is proved. Each function below makes one call into `rand`,
//! and its contract states what that crate documents of every outcome.

use rand::rngs::ThreadRng;
use rand::Rng;
use vstd::prelude::*;

verus! {

/// `rand::rngs::ThreadRng`, the handle to a thread's generator. Nothing
/// inside it is seen here.
#[verifier::external_type_specification]
#[verifier::external_body]
pub struct ExThreadRng(ThreadRng);

/// `rand::thread_rng`: a handle to the generator of the calling thread, which
/// the system seeds. Nothing is claimed of it.
#[verifier::external_body]
pub(crate) fn rng_for_thread() -> ThreadRng {
    rand::thread_rng()
}

/// `Rng::gen_range` on the half-open range from zero to `bound`: some index
/// below `bound`. The call panics on an empty range, so `bound` is positive.
#[verifier::external_body]
pub(crate) fn index_below(rng: &mut ThreadRng, bound: usize) -> (index: usize)
    requires
        bound > 0,
    ensures
        index < bound,
{
    rng.gen_range(0..bound)
}

/// `Rng::gen` for `bool`: one of the two values, each as likely as the other.
/// Nothing is claimed of which one comes back.
#[verifier::external_body]
pub(crate) fn coin(rng: &mut ThreadRng) -> bool {
    rng.gen::<bool>()
}

} // verus!
