//! The deterministic pseudo-random stream the resolver replays.
//!
//! Determinism is load-bearing: every resolver instance, on any machine,
//! must draw the identical sequence from the identical seed, since that is
//! what keeps all listeners in lock-step.  The draws come from the `frand`
//! crate, whose generator holds a single 64-bit word of state;
//! [`rand_state`] names that word, and the wrappers below state the exact
//! state transition and output of the two operations used, so that the
//! whole replay is a mathematical function of the seed.

use vstd::prelude::*;

verus! {

#[verifier::external_type_specification]
#[verifier::external_body]
pub struct ExRand(frand::Rand);

/// The one 64-bit word of state a `frand` generator holds (frand 0.10.1,
/// src/lib.rs: `pub struct Rand { seed: u64 }`).
pub uninterp spec fn rand_state(rng: frand::Rand) -> u64;

/// 64-bit product, reduced to the low 64 bits.
pub open spec fn spec_wrap_mul64(a: u64, b: u64) -> u64 {
    ((a * b) % 0x1_0000_0000_0000_0000) as u64
}

/// 64-bit sum, reduced to the low 64 bits.
pub open spec fn spec_wrap_add64(a: u64, b: u64) -> u64 {
    ((a + b) % 0x1_0000_0000_0000_0000) as u64
}

/// The seed-scrambling hash `frand` applies to a user seed before storing
/// it: two rounds of xor-shift and multiplication, then a final xor-shift.
pub open spec fn spec_seed_hash(seed: u64) -> u64 {
    let h1 = spec_wrap_mul64(seed ^ (seed >> 32), 4997996261773036203);
    let h2 = spec_wrap_mul64(h1 ^ (h1 >> 32), 4997996261773036203);
    h2 ^ (h2 >> 32)
}

/// The generator state after one draw: the state advances by a fixed
/// constant, wrapping.
pub open spec fn spec_rand_next(state: u64) -> u64 {
    spec_wrap_add64(state, 12964901029718341801)
}

/// The raw 32-bit output of one draw: the high half of the advanced state
/// multiplied, wrapping, with a masked copy of itself.
pub open spec fn spec_rand_output(state: u64) -> u32 {
    let value = spec_rand_next(state);
    (spec_wrap_mul64(value, 18162115696561729952 ^ value) >> 32) as u32
}

/// What drawing from the half-open range below `bound` yields: the raw
/// output reduced modulo the bound.
pub open spec fn spec_rand_below(state: u64, bound: u32) -> u32 {
    spec_rand_output(state) % bound
}

/// A generator seeded as the station definition demands.
///
/// Relies on `frand::Rand::with_seed` (frand 0.10.1, src/lib.rs): it
/// stores exactly the scrambled seed `spec_seed_hash` describes.
#[verifier::external_body]
pub fn rand_with_seed(seed: u64) -> (r: frand::Rand)
    ensures
        rand_state(r) == spec_seed_hash(seed),
{
    frand::Rand::with_seed(seed)
}

/// One draw from `0..bound`.
///
/// Relies on `frand::Rand::gen_range` at `u32` (frand 0.10.1,
/// src/gen/mod.rs and src/gen/int.rs): for the range `0..bound` it returns
/// `u32::random(rng) % bound`, where `u32::random` advances the stored
/// word by a fixed constant and hashes it down to 32 bits, exactly as
/// `spec_rand_below` and `spec_rand_next` describe.  A zero bound would
/// divide by zero there, so it is excluded here.
#[verifier::external_body]
pub fn rand_below(rng: &mut frand::Rand, bound: u32) -> (r: u32)
    requires
        bound >= 1,
    ensures
        rand_state(*final(rng)) == spec_rand_next(rand_state(*old(rng))),
        r == spec_rand_below(rand_state(*old(rng)), bound),
{
    rng.gen_range(0..bound)
}

/// A draw below a positive bound lands below the bound.
pub broadcast proof fn lemma_rand_below_in_range(state: u64, bound: u32)
    requires
        bound >= 1,
    ensures
        #[trigger] spec_rand_below(state, bound) < bound,
{
}

} // verus!
