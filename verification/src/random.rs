//! The random-number calls the game makes, through `rand`'s standard
//! generator.

use vstd::prelude::*;
use rand::rngs::StdRng;
use rand::seq::SliceRandom;
use rand::Rng;
use rand::SeedableRng;

verus! {

/// `rand`'s standard generator, carried through the library unopened.
#[verifier::external_type_specification]
#[verifier::external_body]
pub struct ExStdRng(StdRng);

/// The generator that `StdRng::seed_from_u64` builds from `seed`. In
/// `rand_core`'s `SeedableRng` the seed is expanded by a fixed PCG32 sequence
/// and handed to `from_seed`, so the generator depends on the seed alone.
pub uninterp spec fn seeded_generator(seed: u64) -> StdRng;

/// A standard generator seeded from a `u64`, by `StdRng::seed_from_u64`
/// (`rand_core`'s `SeedableRng`). The contract claims that the result is
/// [`seeded_generator`] of the seed: the same seed always gives the same
/// generator. What the generator then draws is not stated.
#[verifier::external_body]
pub(crate) fn seeded_rng(seed: u64) -> (r: StdRng)
    ensures
        r == seeded_generator(seed),
{
    StdRng::seed_from_u64(seed)
}

/// A uniformly drawn index in `0..n`, by `Rng::gen_range(0..n)`. The contract
/// claims only that the index is in range (the draw depends on the
/// generator's state); `gen_range` panics on an empty range, hence `n > 0`.
#[verifier::external_body]
pub(crate) fn random_index(rng: &mut StdRng, n: usize) -> (r: usize)
    requires
        n > 0,
    ensures
        r < n,
{
    rng.gen_range(0..n)
}

/// Up to `amount` items of `items` picked without repetition, in random
/// order, by `SliceRandom::choose_multiple` on the slice, copied out. The
/// contract claims the length `min(amount, len)` and that the items sit at
/// pairwise distinct positions of `items`; which positions, and their order,
/// depend on the generator's state and are not stated.
#[verifier::external_body]
pub(crate) fn choose_multiple_copied<T: Copy>(items: &Vec<T>, amount: usize, rng: &mut StdRng) -> (r: Vec<T>)
    ensures
        r@.len() == (if amount < items@.len() { amount as int } else { items@.len() as int }),
        exists|idx: Seq<int>|
            #![trigger idx.len()]
            idx.len() == r@.len() && idx.no_duplicates() && forall|k: int|
                0 <= k < idx.len() ==> 0 <= #[trigger] idx[k] < items@.len() && r@[k] == items@[idx[k]],
{
    items.as_slice().choose_multiple(rng, amount).copied().collect()
}

} // verus!
