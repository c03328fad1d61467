//! Addition exercises: through a shared reference, in place, and
//! componentwise over fixed-size vectors.

use vstd::prelude::*;

verus! {

/// The sum of `*a` and `b`.
pub fn add(a: &i32, b: i32) -> (r: i32)
    requires
        i32::MIN <= *a + b <= i32::MAX,
    ensures
        r == *a + b,
{
    *a + b
}

/// Adds `b` to `*a` in place.
pub fn add_assign(a: &mut i32, b: i32)
    requires
        i32::MIN <= *old(a) + b <= i32::MAX,
    ensures
        *final(a) == *old(a) + b,
{
    *a += b;
}

/// The componentwise sum of the two vectors.
pub fn add_vectors(a: [i32; 3], b: [i32; 3]) -> (r: [i32; 3])
    requires
        forall|i: int| 0 <= i < 3 ==> i32::MIN <= #[trigger] (a[i] + b[i]) <= i32::MAX,
    ensures
        forall|i: int| 0 <= i < 3 ==> #[trigger] r[i] == a[i] + b[i],
{
    [a[0] + b[0], a[1] + b[1], a[2] + b[2]]
}

} // verus!
