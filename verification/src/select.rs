//! Selection sort over integers, built on a minimum scan.

use vstd::prelude::*;

verus! {

/// Whether `s` is sorted in ascending order.
pub open spec fn sorted(s: Seq<i32>) -> bool {
    forall|i: int, j: int| 0 <= i <= j < s.len() ==> s[i] <= s[j]
}

/// The index of the smallest value in `slice`; when several positions hold
/// the minimum, the last of them.
pub fn min_of(slice: &[i32]) -> (r: usize)
    requires
        slice@.len() > 0,
    ensures
        r < slice@.len(),
        forall|j: int| 0 <= j < slice@.len() ==> slice@[r as int] <= slice@[j],
        forall|j: int| r < j < slice@.len() ==> slice@[r as int] < slice@[j],
{
    let mut min_index: usize = 0;
    let mut min_so_far: i32 = i32::MAX;
    let mut i: usize = 0;
    while i < slice.len()
        invariant
            i <= slice@.len(),
            i == 0 ==> min_index == 0 && min_so_far == i32::MAX,
            i > 0 ==> min_index < i && min_so_far == slice@[min_index as int],
            forall|j: int| 0 <= j < i ==> min_so_far <= slice@[j],
            forall|j: int| min_index < j < i ==> min_so_far < slice@[j],
        decreases slice@.len() - i,
    {
        if slice[i] <= min_so_far {
            min_so_far = slice[i];
            min_index = i;
        }
        i += 1;
    }
    min_index
}

/// Exchanges the values at positions `i` and `j`.
fn swap_values(v: &mut Vec<i32>, i: usize, j: usize)
    requires
        i < old(v)@.len(),
        j < old(v)@.len(),
    ensures
        final(v)@ == old(v)@.update(i as int, old(v)@[j as int]).update(j as int, old(v)@[i as int]),
        final(v)@.to_multiset() == old(v)@.to_multiset(),
{
    let ghost orig = v@;
    let a = v[i];
    let b = v[j];
    v[i] = b;
    v[j] = a;
    proof {
        broadcast use vstd::seq_lib::group_to_multiset_ensures;
        broadcast use vstd::seq_lib::to_multiset_update;
        broadcast use vstd::multiset::group_multiset_axioms;

        let s1 = orig.update(i as int, b);
        let s2 = s1.update(j as int, a);
        if i == j {
            assert(s2 =~= orig);
        } else {
            assert(s1[j as int] == b);
            assert(s1.to_multiset() =~= orig.to_multiset().remove(orig[i as int]).insert(b));
            assert(s2.to_multiset() =~= s1.to_multiset().remove(b).insert(a));
            assert(s2.to_multiset() =~= orig.to_multiset());
        }
    }
}

/// Sorts `slice` in ascending order; the result holds the same values with
/// the same repetitions.
pub fn sort_slice(slice: &mut Vec<i32>)
    ensures
        sorted(final(slice)@),
        final(slice)@.to_multiset() == old(slice)@.to_multiset(),
        final(slice)@.len() == old(slice)@.len(),
{
    proof {
        broadcast use vstd::seq_lib::group_to_multiset_ensures;
    }
    let ghost orig = slice@;
    let len = slice.len();
    let mut i: usize = 0;
    while i < len
        invariant
            i <= len,
            len == slice@.len(),
            slice@.to_multiset() == orig.to_multiset(),
            forall|a: int, b: int| 0 <= a <= b < i ==> slice@[a] <= slice@[b],
            forall|a: int, b: int| 0 <= a < i && i <= b < len ==> slice@[a] <= slice@[b],
        decreases len - i,
    {
        let tail = vstd::slice::slice_subrange(slice.as_slice(), i, len);
        let m = i + min_of(tail);
        proof {
            assert(forall|j: int|
                i <= j < len ==> slice@[m as int] <= #[trigger] slice@[j]) by {
                assert(forall|j: int|
                    i <= j < len ==> slice@[j] == tail@[j - i]);
            }
        }
        swap_values(slice, i, m);
        i += 1;
    }
    proof {
        broadcast use vstd::seq_lib::group_to_multiset_ensures;
    }
}

} // verus!
