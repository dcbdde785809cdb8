//! The answer-drawing order for random mode: the indices of the
//! answer list, shuffled by a seeded generator.

use vstd::prelude::*;
use rand::SeedableRng;
use rand::seq::SliceRandom;

verus! {

#[verifier::external_type_specification]
#[verifier::external_body]
pub struct ExStdRng(rand::rngs::StdRng);

/// Relies on rand's StdRng::seed_from_u64: builds a generator from a
/// seed. Nothing is assumed of the values it will produce.
#[verifier::external_body]
fn rng_from_seed(seed: u64) -> rand::rngs::StdRng {
    rand::rngs::StdRng::seed_from_u64(seed)
}

/// Relies on rand's SliceRandom::shuffle: a Fisher-Yates pass of
/// in-place swaps, so whatever order comes out, the slice holds the
/// same values as before.
#[verifier::external_body]
fn shuffle_indices(v: &mut Vec<usize>, rng: &mut rand::rngs::StdRng)
    ensures
        final(v)@.to_multiset() == old(v)@.to_multiset(),
{
    v.as_mut_slice().shuffle(rng);
}

/// The indices `0 .. len` in order.
pub open spec fn identity_order(len: int) -> Seq<usize> {
    Seq::new(len as nat, |i: int| i as usize)
}

/// Draw the order in which answers are taken from the answer list in
/// random mode: a permutation of `0 .. len`, picked by the seed.
pub fn select_order(len: usize, seed: u64) -> (r: Vec<usize>)
    ensures
        r@.len() == len,
        r@.to_multiset() == identity_order(len as int).to_multiset(),
        forall|i: int| 0 <= i < len ==> #[trigger] r@[i] < len,
{
    let mut v: Vec<usize> = Vec::new();
    let mut i: usize = 0;
    while i < len
        invariant
            i <= len,
            v@.len() == i,
            forall|j: int| 0 <= j < i ==> #[trigger] v@[j] == j,
        decreases len - i,
    {
        v.push(i);
        i += 1;
    }
    proof {
        assert(v@ =~= identity_order(len as int));
    }
    let mut rng = rng_from_seed(seed);
    shuffle_indices(&mut v, &mut rng);
    proof {
        let ident = identity_order(len as int);
        vstd::seq_lib::to_multiset_len(v@);
        vstd::seq_lib::to_multiset_len(ident);
        assert(v@.len() == len);
        assert forall|i: int| 0 <= i < len implies #[trigger] v@[i] < len by {
            assert(v@.contains(v@[i]));
            vstd::seq_lib::to_multiset_contains(v@, v@[i]);
            vstd::seq_lib::to_multiset_contains(ident, v@[i]);
            assert(ident.contains(v@[i]));
            let j = choose|j: int| 0 <= j < ident.len() && ident[j] == v@[i];
            assert(v@[i] == j as usize);
        }
    }
    v
}

} // verus!
