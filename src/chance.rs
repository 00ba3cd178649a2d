//! The random draws of the search, taken from a seeded small generator.
use vstd::prelude::*;
use rand::rngs::SmallRng;
use rand::seq::SliceRandom;
use rand::Rng;

verus! {

#[verifier::external_type_specification]
#[verifier::external_body]
pub struct ExSmallRng(SmallRng);

/// Relies on `rand::Rng::gen::<usize>`: a value drawn from the generator, of
/// which nothing is known.
#[verifier::external_body]
pub(crate) fn draw(rng: &mut SmallRng) -> usize {
    rng.gen::<usize>()
}

/// Relies on `rand::seq::SliceRandom::shuffle`, which reorders the slice by
/// swapping its elements.
#[verifier::external_body]
pub(crate) fn shuffle<T>(items: &mut Vec<T>, rng: &mut SmallRng)
    ensures
        final(items)@.len() == old(items)@.len(),
        final(items)@.to_multiset() == old(items)@.to_multiset(),
        forall|i: int| 0 <= i < final(items)@.len() ==> old(items)@.contains(#[trigger] final(items)@[i]),
{
    items.shuffle(rng)
}

} // verus!
