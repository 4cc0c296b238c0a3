//! The random source behind the dice: the standard generator of the `rand`
//! crate. Verus does not look inside it; what this file states of it is taken
//! on trust.

use vstd::prelude::*;
use rand::Rng;
use rand::RngCore;
use rand::SeedableRng;

verus! {

/// `rand::rngs::StdRng`, carried through verified code as an opaque value.
#[verifier::external_type_specification]
#[verifier::external_body]
pub struct ExStdRng(rand::rngs::StdRng);

/// The state of a generator: all that its later samples depend on.
pub uninterp spec fn state_of(rng: rand::rngs::StdRng) -> Seq<u8>;

/// The state of the generator that `StdRng::seed_from_u64` builds from `seed`.
pub uninterp spec fn seeded(seed: u64) -> Seq<u8>;

/// What `gen_range(low, high)` yields on a generator in the state `state`: the
/// sample, and the state in which the call leaves the generator.
pub uninterp spec fn sampled(state: Seq<u8>, low: i64, high: i64) -> (i64, Seq<u8>);

/// Calls `OsRng::next_u64`: 64 bits from the operating system's entropy
/// source. Nothing is claimed of the value. The call panics if the operating
/// system cannot supply entropy.
#[verifier::external_body]
pub(crate) fn entropy() -> u64 {
    rand::rngs::OsRng.next_u64()
}

/// Calls `StdRng::seed_from_u64`. The crate documents the generator's
/// algorithm as deterministic, so the state of the new generator is a function
/// of the seed: the contract claims that and nothing else.
#[verifier::external_body]
pub(crate) fn seed_from_u64(seed: u64) -> (rng: rand::rngs::StdRng)
    ensures
        state_of(rng) == seeded(seed),
{
    rand::rngs::StdRng::seed_from_u64(seed)
}

/// Calls `Rng::gen_range(low, high)` on the generator, which panics unless
/// `low < high`. The contract claims that the sample lies in `[low, high)`, as
/// the crate documents, and that the sample and the generator's next state are
/// a function of the generator's state and the two bounds, the algorithm being
/// deterministic.
#[verifier::external_body]
pub(crate) fn gen_range(rng: &mut rand::rngs::StdRng, low: i64, high: i64) -> (sample: i64)
    requires
        low < high,
    ensures
        low <= sample < high,
        (sample, state_of(*final(rng))) == sampled(state_of(*old(rng)), low, high),
{
    rng.gen_range(low, high)
}

} // verus!
