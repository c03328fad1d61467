//! Walking a Collatz trajectory, reporting each odd value met.

use vstd::prelude::*;

verus! {

/// Whether `tr` is a complete Collatz trajectory from `start` down to
/// one: each even value is halved, each odd value `v` stays small enough
/// that `3 * v + 1` fits and is followed by it.
pub open spec fn collatz_trace_ok(tr: Seq<u32>, start: u32) -> bool {
    &&& tr.len() >= 1
    &&& tr[0] == start
    &&& tr.last() == 1
    &&& forall|k: int|
        0 <= k < tr.len() - 1 ==> #[trigger] tr[k] != 1 && (if tr[k] % 2 == 0 {
            tr[k + 1] == tr[k] / 2
        } else {
            tr[k] <= (u32::MAX - 1) / 3 && tr[k + 1] == 3 * tr[k] + 1
        })
}

/// Follows the Collatz trajectory from `start`, handing each odd value
/// met to `f`, then hands it the final one. The trajectory must reach
/// one without overflowing.
pub fn collayz<F: Fn(u32)>(start: u32, f: F)
    requires
        exists|tr: Seq<u32>| collatz_trace_ok(tr, start),
        forall|x: u32| #[trigger] f.requires((x,)),
{
    let ghost tr = choose|tr: Seq<u32>| collatz_trace_ok(tr, start);
    let ghost mut k: int = 0;
    let mut n = start;
    while n != 1
        invariant
            collatz_trace_ok(tr, start),
            0 <= k < tr.len(),
            tr[k] == n,
            forall|x: u32| #[trigger] f.requires((x,)),
        decreases tr.len() - k,
    {
        proof {
            assert(k < tr.len() - 1) by {
                if k == tr.len() - 1 {
                    assert(tr.last() == 1);
                }
            }
        }
        if n % 2 == 0 {
            n = n / 2;
        } else {
            f(n);
            n = 3 * n + 1;
        }
        proof {
            k = k + 1;
        }
    }
    f(n);
}

} // verus!
