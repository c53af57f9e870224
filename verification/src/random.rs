//! The agent's random numbers.

use vstd::prelude::*;

use rand::rngs::StdRng;
use rand::seq::SliceRandom;
use rand::SeedableRng;

verus! {

/// The generator of the `rand` crate, carried as it is.
#[verifier::external_type_specification]
#[verifier::external_body]
pub struct ExStdRng(StdRng);

/// The generator that a seed gives.
pub uninterp spec fn seeded(seed: u64) -> StdRng;

/// Calls `rand`'s `SeedableRng::seed_from_u64` on `StdRng`: the generator is a function of
/// the seed alone.
#[verifier::external_body]
pub(crate) fn seed_rng(seed: u64) -> (r: StdRng)
    ensures
        r == seeded(seed),
{
    StdRng::seed_from_u64(seed)
}

/// Calls `rand`'s `SliceRandom::shuffle`, which swaps entries in place: what was in the
/// list stays in it, equally often. The order that comes out is the generator's and is
/// left open, as is the state the generator is left in.
#[verifier::external_body]
pub(crate) fn shuffle(order: &mut Vec<usize>, rng: &mut StdRng)
    ensures
        final(order)@.to_multiset() == old(order)@.to_multiset(),
{
    order.shuffle(rng);
}

/// An ordering of the positions below `n`.
pub open spec fn ordering(order: Seq<usize>, n: nat) -> bool {
    &&& order.len() == n
    &&& order.no_duplicates()
    &&& forall|i: int| 0 <= i < order.len() ==> (#[trigger] order[i]) < n
}

/// A list with the entries of an ordering is an ordering.
pub proof fn rearranged_is_ordering(a: Seq<usize>, b: Seq<usize>, n: nat)
    requires
        ordering(a, n),
        a.to_multiset() == b.to_multiset(),
    ensures
        ordering(b, n),
{
    a.to_multiset_ensures();
    b.to_multiset_ensures();
    a.lemma_multiset_has_no_duplicates();
    b.lemma_multiset_has_no_duplicates_conv();
    assert forall|i: int| 0 <= i < b.len() implies (#[trigger] b[i]) < n by {
        assert(b.contains(b[i]));
        assert(b.to_multiset().count(b[i]) > 0);
        assert(a.contains(b[i]));
    }
}

/// The positions below `n`, in order.
pub fn natural_order(n: usize) -> (r: Vec<usize>)
    ensures
        r@ == Seq::new(n as nat, |i: int| i as usize),
        ordering(r@, n as nat),
{
    let mut order: Vec<usize> = Vec::new();
    for i in 0..n
        invariant
            order@.len() == i,
            forall|j: int| 0 <= j < i ==> order@[j] == j,
    {
        order.push(i);
    }
    assert(order@ =~= Seq::new(n as nat, |i: int| i as usize));
    order
}

/// The positions below `n` in a random order.
pub fn random_order(n: usize, rng: &mut StdRng) -> (r: Vec<usize>)
    ensures
        ordering(r@, n as nat),
{
    let mut order = natural_order(n);
    let ghost before = order@;
    shuffle(&mut order, rng);
    proof {
        rearranged_is_ordering(before, order@, n as nat);
    }
    order
}

} // verus!
