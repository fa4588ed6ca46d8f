//! The random source behind a new game's deal.
//!
//! Nothing here is proved: the generator and the shuffle come from the
//! `rand` crate, and the contracts below are taken on trust.

use rand::rngs::StdRng;
use rand::seq::SliceRandom;
use rand::SeedableRng;
use vstd::prelude::*;

verus! {

/// The generator of the `rand` crate, `rand::rngs::StdRng`, carried through
/// as an opaque value: the proofs see nothing inside it.
#[verifier::external_type_specification]
#[verifier::external_body]
pub struct ExStdRng(StdRng);

/// The order in which `SliceRandom::shuffle` leaves `portions` when it
/// draws from an `StdRng` freshly made by `StdRng::seed_from_u64(seed)`.
/// Both read nothing but the seed and the slice, so the order is a
/// function of the two; which function is not spelled out.
pub uninterp spec fn shuffled_order(seed: u64, portions: Seq<i32>) -> Seq<i32>;

/// Seeds a generator with `StdRng::seed_from_u64`, shuffles the portions
/// with `SliceRandom::shuffle` drawing from it, and hands the generator
/// back. Two things are claimed of the outcome. The order that comes out
/// is the one named by `shuffled_order` for this seed and these portions.
/// And since the shuffle only swaps elements of the slice, that order
/// holds the same portions as before, each as many times.
#[verifier::external_body]
pub(crate) fn shuffle_seeded(portions: &mut Vec<i32>, seed: u64) -> (rng: StdRng)
    ensures
        final(portions)@ == shuffled_order(seed, old(portions)@),
        final(portions)@.to_multiset() == old(portions)@.to_multiset(),
{
    let mut rng = StdRng::seed_from_u64(seed);
    portions.shuffle(&mut rng);
    rng
}

} // verus!
