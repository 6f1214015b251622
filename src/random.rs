use rand::Rng;
use rand::RngCore;
use rand_xoshiro::Xoshiro256PlusPlus;
use vstd::prelude::*;

verus! {

/// The generator that drives the animation; Verus sees nothing inside it.
#[verifier::external_type_specification]
#[verifier::external_body]
pub struct ExXoshiro256PlusPlus(Xoshiro256PlusPlus);

/// Relies on `RngCore::next_u32` of `Xoshiro256PlusPlus`: the next 32 bits of
/// the stream; any value may come back.
#[verifier::external_body]
pub(crate) fn next_u32(rng: &mut Xoshiro256PlusPlus) -> u32 {
    rng.next_u32()
}

/// Relies on `rand::Rng::gen_range` over `0..n`: a value in `[0, n)`. It
/// panics on an empty range, hence `n > 0`.
#[verifier::external_body]
pub(crate) fn below(rng: &mut Xoshiro256PlusPlus, n: usize) -> (r: usize)
    requires
        n > 0,
    ensures
        r < n,
{
    rng.gen_range(0..n)
}

} // verus!
