//! Whether a value is in a list.

use vstd::prelude::*;

verus! {

/// Values that can be told apart.
pub trait Same: Copy {
    fn same(&self, other: &Self) -> (r: bool)
        ensures
            r == (*self == *other),
    ;
}

impl Same for u64 {
    fn same(&self, other: &u64) -> (r: bool) {
        *self == *other
    }
}

impl Same for usize {
    fn same(&self, other: &usize) -> (r: bool) {
        *self == *other
    }
}

pub fn holds<T: Same>(v: &Vec<T>, x: T) -> (r: bool)
    ensures
        r == v@.contains(x),
{
    let n: usize = v.len();
    for i in 0..n
        invariant
            n == v@.len(),
            forall|j: int| 0 <= j < i ==> #[trigger] v@[j] != x,
    {
        if v[i].same(&x) {
            return true;
        }
    }
    false
}

} // verus!
