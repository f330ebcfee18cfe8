//! Random draws.
//!
//! The generator is the xoshiro256++ generator of the `rand_xoshiro` crate,
//! driven through the `rand` crate. Nothing here is proved: each function
//! states what the two crates document for the call it makes. Which value a
//! draw yields is left open, so verified callers hold for every outcome.

use rand::Rng;
use rand::SeedableRng;
use rand_xoshiro::Xoshiro256PlusPlus;
use vstd::prelude::*;

verus! {

/// The xoshiro256++ generator of the `rand_xoshiro` crate. Nothing of its
/// state is visible here.
#[verifier::external_type_specification]
#[verifier::external_body]
pub struct ExXoshiro256PlusPlus(rand_xoshiro::Xoshiro256PlusPlus);

/// `Xoshiro256PlusPlus::seed_from_u64`: a generator whose state is derived
/// from `seed`. Nothing is claimed of the generator.
#[verifier::external_body]
pub(crate) fn seeded_generator(seed: u64) -> (rng: Xoshiro256PlusPlus) {
    Xoshiro256PlusPlus::seed_from_u64(seed)
}

/// `Rng::gen_range` on `0..bound`: the value drawn lies in the range. The
/// call panics on an empty range, which `requires` rules out.
#[verifier::external_body]
pub(crate) fn draw_below(rng: &mut Xoshiro256PlusPlus, bound: usize) -> (r: usize)
    requires
        bound > 0,
    ensures
        r < bound,
{
    rng.gen_range(0..bound)
}

/// `Rng::gen` for `u8`: any byte.
#[verifier::external_body]
pub(crate) fn draw_byte(rng: &mut Xoshiro256PlusPlus) -> (r: u8) {
    rng.gen()
}

/// `Rng::fill` on the bytes of `buffer`: every byte is overwritten with a
/// drawn one, and the length stays.
#[verifier::external_body]
pub(crate) fn fill_random(rng: &mut Xoshiro256PlusPlus, buffer: &mut Vec<u8>)
    ensures
        final(buffer)@.len() == old(buffer)@.len(),
{
    rng.fill(&mut buffer[..]);
}

} // verus!
