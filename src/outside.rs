use vstd::prelude::*;

use itertools::Itertools;
use rand::Rng;
use rand_xoshiro::Xoshiro256PlusPlus;

verus! {

/// The random generator the optimizer draws from.
#[verifier::external_type_specification]
#[verifier::external_body]
pub struct ExXoshiro256PlusPlus(Xoshiro256PlusPlus);

/// Relies on rand's `Rng::random_range` over `0..n`, drawing from a
/// Xoshiro256++ generator: a value below `n`, which must not be zero (the call
/// panics on an empty range).
#[verifier::external_body]
pub(crate) fn random_below(rng: &mut Xoshiro256PlusPlus, n: u64) -> (r: u64)
    requires
        n > 0,
    ensures
        r < n,
{
    rng.random_range(0..n)
}

/// Relies on itertools' `sorted_by_key`, a stable sort (it calls
/// `slice::sort_by_key`): the indices of `keys`, largest key first, equal keys
/// in index order.
#[verifier::external_body]
pub(crate) fn indices_by_key_desc(keys: &Vec<u128>) -> (r: Vec<usize>)
    ensures
        r@.len() == keys@.len(),
        forall|i: int| 0 <= i < r@.len() ==> #[trigger] r@[i] < keys@.len(),
        forall|k: usize| k < keys@.len() ==> #[trigger] r@.contains(k),
        forall|i: int, j: int| 0 <= i < j < r@.len() ==> {
            let (a, b) = (#[trigger] r@[i] as int, #[trigger] r@[j] as int);
            keys@[a] > keys@[b] || (keys@[a] == keys@[b] && a < b)
        },
{
    (0..keys.len()).sorted_by_key(|i| std::cmp::Reverse(keys[*i])).collect()
}

} // verus!
