//! The source of chance that scatters the mines.

use rand::Rng;
use vstd::prelude::*;

verus! {

/// `rand::rngs::ThreadRng`, the random number generator that a thread keeps
/// for itself. Nothing inside it is visible here: a value is only handed on
/// to the call that draws from it.
#[verifier::external_type_specification]
#[verifier::external_body]
pub struct ExThreadRng(rand::rngs::ThreadRng);

/// `rand::thread_rng` hands out the generator of the current thread. Nothing
/// is claimed of the generator it returns.
pub assume_specification[ rand::thread_rng ]() -> (rng: rand::rngs::ThreadRng)
;

/// `Rng::gen_range` on the half-open range `0..bound` of `usize`. The call
/// panics on an empty range, so `bound` must not be zero. Taken on trust: the
/// number drawn lies in the range, that is, below `bound`. Which number it
/// is depends on chance, and nothing is claimed of that.
#[verifier::external_body]
pub(crate) fn draw_below(rng: &mut rand::rngs::ThreadRng, bound: usize) -> (drawn: usize)
    requires
        bound > 0,
    ensures
        drawn < bound,
{
    rng.gen_range(0..bound)
}

} // verus!
