use vstd::prelude::*;

use crate::grid::Position;

verus! {

/// The rand crate's thread-local generator, declared so its values can flow
/// through verified code.  Nothing is assumed about the numbers it yields.
#[verifier::external_type_specification]
#[verifier::external_body]
pub struct ExThreadRng(rand::rngs::ThreadRng);

/// Relies on rand::rng: hands out the thread-local generator.
#[verifier::external_body]
pub fn fresh_rng() -> rand::rngs::ThreadRng {
    rand::rng()
}

/// Relies on rand::Rng::random_range over `0..n`: the result is a valid
/// index below `n` (the call panics on an empty range, so `n` must be
/// positive).
#[verifier::external_body]
pub fn random_index(rng: &mut rand::rngs::ThreadRng, n: usize) -> (r: usize)
    requires
        n > 0,
    ensures
        r < n,
{
    rand::Rng::random_range(rng, 0..n)
}

/// Relies on rand::Rng::random for `bool`: a coin flip, about which nothing
/// can be promised.
#[verifier::external_body]
pub fn random_flip(rng: &mut rand::rngs::ThreadRng) -> bool {
    rand::Rng::random::<bool>(rng)
}

/// Relies on rand::seq::SliceRandom::shuffle: permutes the vector in place,
/// so the multiset of cells is kept.
#[verifier::external_body]
pub fn shuffle_cells(rng: &mut rand::rngs::ThreadRng, v: &mut Vec<Position>)
    ensures
        final(v)@.to_multiset() == old(v)@.to_multiset(),
{
    rand::seq::SliceRandom::shuffle(v.as_mut_slice(), rng)
}

} // verus!
