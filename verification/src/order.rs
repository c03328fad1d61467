//! A generic minimum over any partially ordered type.

use vstd::prelude::*;
use vstd::std_specs::cmp::PartialOrdSpec;

verus! {

/// The smaller of `a` and `b`; `b` when they are equal or unordered.
pub fn min<T: PartialOrd>(a: T, b: T) -> (r: T)
    ensures
        r == a || r == b,
        T::obeys_partial_cmp_spec() ==> r == if a.partial_cmp_spec(&b) == Some(
            core::cmp::Ordering::Less,
        ) {
            a
        } else {
            b
        },
{
    if a.lt(&b) {
        a
    } else {
        b
    }
}

} // verus!
