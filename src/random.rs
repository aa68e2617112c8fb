use rand::rngs::StdRng;
use rand::Rng;
use vstd::prelude::*;

verus! {

/// The caller-supplied random source, threaded through every draw.
#[verifier::external_type_specification]
#[verifier::external_body]
pub struct ExStdRng(rand::rngs::StdRng);

/// Relies on `rand::Rng::gen_range` (rand 0.8): a value of the half-open range
/// `lo..hi`, which it panics on when empty.
#[verifier::external_body]
pub(crate) fn draw_range(rng: &mut StdRng, lo: i32, hi: i32) -> (r: i32)
    requires
        lo < hi,
    ensures
        lo <= r < hi,
{
    rng.gen_range(lo..hi)
}

/// Relies on `rand::Rng::gen::<bool>` (rand 0.8): a fair coin; either value may come.
#[verifier::external_body]
pub(crate) fn draw_bool(rng: &mut StdRng) -> (r: bool) {
    rng.gen::<bool>()
}

} // verus!
