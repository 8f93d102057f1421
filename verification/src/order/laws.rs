//! What sorting promises.
use vstd::prelude::*;
use crate::order;
use crate::order::stable_order;

verus! {

/// Every place comes once, from the smallest key to the greatest, and places with one key keep their
/// order.
pub proof fn law_order_of_keys(keys: &[u64], r: Vec<usize>, i: int, j: int, k: int)
    requires
        call_ensures(stable_order, (keys,), r),
        0 <= i < j < keys@.len(),
        0 <= k < keys@.len() <= usize::MAX,
    ensures
        r@.len() == keys@.len(),
        r@[i] < keys@.len() && r@[j] < keys@.len(),
        keys@[r@[i] as int] <= keys@[r@[j] as int],
        keys@[r@[i] as int] == keys@[r@[j] as int] ==> r@[i] < r@[j],
        r@.contains(k as usize),
{
    order::lemma_order_covers(keys@, r@, k);
    let p = choose|p: int| 0 <= p < r@.len() && r@[p] == k as usize;
    assert(r@[p] == k as usize);
}

} // verus!
