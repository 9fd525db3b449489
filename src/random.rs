use vstd::prelude::*;

use rand::rngs::StdRng;
use rand::seq::{IteratorRandom, SliceRandom};

verus! {

/// rand's standard seedable generator, carried through the library unopened.
#[verifier::external_type_specification]
#[verifier::external_body]
pub struct ExStdRng(rand::rngs::StdRng);

/// Relies on rand's `IteratorRandom::choose_multiple`, applied to the positions
/// `0..n`: it keeps `min(amount, n)` items of the iterator, each item at most
/// once, so the positions it returns are below `n` and pairwise distinct.
/// It reserves room for `amount` items first, so `amount` stays within `n`.
#[verifier::external_body]
pub(crate) fn choose_positions(rng: &mut StdRng, n: usize, amount: usize) -> (r: Vec<usize>)
    requires
        amount <= n,
    ensures
        r@.len() == (if amount < n {
            amount
        } else {
            n
        }),
        forall|i: int| 0 <= i < r@.len() ==> #[trigger] r@[i] < n,
        forall|i: int, j: int| 0 <= i < j < r@.len() ==> #[trigger] r@[i] != #[trigger] r@[j],
{
    (0..n).choose_multiple(rng, amount)
}

/// Relies on rand's `SliceRandom::choose`: `None` for an empty slice, else one
/// of the slice's items.
#[verifier::external_body]
pub(crate) fn choose_one(rng: &mut StdRng, items: &[i64]) -> (r: Option<i64>)
    ensures
        r is None <==> items@.len() == 0,
        r matches Some(v) ==> items@.contains(v),
{
    items.choose(rng).copied()
}

} // verus!
