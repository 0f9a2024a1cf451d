//! A small array analysis: the running-maximum scan over a numeric
//! sequence.

use vstd::prelude::*;

verus! {

/// Largest element of a non-empty array, found by a running maximum.
pub fn max_subarray_sum(arr: &Vec<i32>) -> (r: i32)
    requires
        arr@.len() > 0,
    ensures
        forall|k: int| 0 <= k < arr@.len() ==> #[trigger] arr@[k] <= r,
        exists|k: int| 0 <= k < arr@.len() && arr@[k] == r,
{
    let mut max_sum = arr[0];
    let mut current_sum = arr[0];
    let mut i: usize = 1;
    while i < arr.len()
        invariant
            1 <= i <= arr@.len(),
            forall|k: int| 0 <= k < i ==> #[trigger] arr@[k] <= max_sum,
            exists|k: int| 0 <= k < i && arr@[k] == max_sum,
            exists|k: int| 0 <= k < i && arr@[k] == current_sum,
        decreases arr@.len() - i,
    {
        if arr[i] > current_sum {
            current_sum = arr[i];
        }
        if current_sum > max_sum {
            max_sum = current_sum;
        }
        i = i + 1;
    }
    max_sum
}

} // verus!
