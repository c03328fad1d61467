//! Sorting boxes so that each one fits into the one before it.

use vstd::prelude::*;

verus! {

/// Whether box `a` fits into box `b`: no smaller in either dimension.
pub open spec fn spec_fits_into(a: [u32; 2], b: [u32; 2]) -> bool {
    a[0] <= b[0] && a[1] <= b[1]
}

/// Whether any two boxes of `s` are comparable: one of them fits into the
/// other. Only such a collection can be chained by size.
pub open spec fn comparable(s: Seq<[u32; 2]>) -> bool {
    forall|i: int, j: int|
        0 <= i < s.len() && 0 <= j < s.len() ==> spec_fits_into(#[trigger] s[i], #[trigger] s[j])
            || spec_fits_into(s[j], s[i])
}

/// Returns whether `a` fits into `b`.
pub fn fits_into(a: [u32; 2], b: [u32; 2]) -> (r: bool)
    ensures
        r == spec_fits_into(a, b),
{
    a[0] <= b[0] && a[1] <= b[1]
}

/// The index of a largest box: one that every other box fits into.
pub fn find_max(boxes: &[[u32; 2]]) -> (r: usize)
    requires
        boxes@.len() > 0,
        comparable(boxes@),
    ensures
        r < boxes@.len(),
        forall|j: int| 0 <= j < boxes@.len() ==> spec_fits_into(#[trigger] boxes@[j], boxes@[r as int]),
{
    let mut max_so_far: usize = 0;
    let mut i: usize = 1;
    while i < boxes.len()
        invariant
            max_so_far < i <= boxes@.len(),
            boxes@.len() > 0,
            comparable(boxes@),
            forall|j: int| 0 <= j < i ==> spec_fits_into(#[trigger] boxes@[j], boxes@[max_so_far as int]),
        decreases boxes@.len() - i,
    {
        if fits_into(boxes[max_so_far], boxes[i]) {
            max_so_far = i;
        }
        i += 1;
    }
    max_so_far
}

/// Exchanges the boxes at positions `i` and `j`.
fn swap_boxes(v: &mut Vec<[u32; 2]>, i: usize, j: usize)
    requires
        i < old(v)@.len(),
        j < old(v)@.len(),
    ensures
        final(v)@ == old(v)@.update(i as int, old(v)@[j as int]).update(j as int, old(v)@[i as int]),
        final(v)@.to_multiset() == old(v)@.to_multiset(),
{
    let ghost orig = v@;
    let a = v[i];
    let b = v[j];
    v[i] = b;
    v[j] = a;
    proof {
        broadcast use vstd::seq_lib::group_to_multiset_ensures;
        broadcast use vstd::seq_lib::to_multiset_update;
        broadcast use vstd::multiset::group_multiset_axioms;

        let s1 = orig.update(i as int, b);
        let s2 = s1.update(j as int, a);
        if i == j {
            assert(s2 =~= orig);
        } else {
            assert(s1.to_multiset() =~= orig.to_multiset().remove(orig[i as int]).insert(b));
            assert(s2.to_multiset() =~= s1.to_multiset().remove(b).insert(a));
            assert(s2.to_multiset() =~= orig.to_multiset());
        }
    }
}

/// Sorts the boxes into decreasing size, so that each box fits into the
/// one before it. The boxes must be pairwise comparable: on other inputs
/// no such chain exists.
pub fn sort_boxes(boxes: &mut Vec<[u32; 2]>)
    requires
        comparable(old(boxes)@),
    ensures
        final(boxes)@.to_multiset() == old(boxes)@.to_multiset(),
        final(boxes)@.len() == old(boxes)@.len(),
        forall|i: int|
            0 <= i && i + 1 < final(boxes)@.len() ==> spec_fits_into(
                #[trigger] final(boxes)@[i + 1],
                final(boxes)@[i],
            ),
{
    proof {
        broadcast use vstd::seq_lib::group_to_multiset_ensures;
    }
    let ghost orig = boxes@;
    let len = boxes.len();
    let mut i: usize = 0;
    while i < len
        invariant
            i <= len,
            len == boxes@.len(),
            boxes@.to_multiset() == orig.to_multiset(),
            comparable(boxes@),
            forall|a: int|
                0 <= a && a + 1 < i ==> spec_fits_into(#[trigger] boxes@[a + 1], boxes@[a]),
            forall|a: int, b: int|
                0 <= a < i && i <= b < len ==> spec_fits_into(#[trigger] boxes@[b], #[trigger] boxes@[a]),
        decreases len - i,
    {
        let tail = vstd::slice::slice_subrange(boxes.as_slice(), i, len);
        proof {
            assert(forall|a: int, b: int|
                0 <= a < tail@.len() && 0 <= b < tail@.len() ==> #[trigger] tail@[a] == boxes@[a + i]
                    && #[trigger] tail@[b] == boxes@[b + i]);
            assert(comparable(tail@));
        }
        let m = i + find_max(tail);
        proof {
            assert(forall|j: int|
                i <= j < len ==> spec_fits_into(#[trigger] boxes@[j], boxes@[m as int])) by {
                assert(forall|j: int| i <= j < len ==> boxes@[j] == tail@[j - i]);
            }
        }
        let ghost pre = boxes@;
        swap_boxes(boxes, i, m);
        proof {
            assert(forall|x: int| 0 <= x < i ==> #[trigger] boxes@[x] == pre[x]);
            assert(boxes@[i as int] == pre[m as int]);
            assert(forall|x: int|
                i < x < len && x != m ==> #[trigger] boxes@[x] == pre[x]);
            assert(m != i ==> boxes@[m as int] == pre[i as int]);
            // Each slot of the new arrangement holds one of the old boxes,
            // so comparability and the established order carry over.
            assert forall|x: int, y: int|
                0 <= x < len && 0 <= y < len implies spec_fits_into(#[trigger] boxes@[x], #[trigger] boxes@[y])
                || spec_fits_into(boxes@[y], boxes@[x]) by {
                let px = if x == i {
                    m as int
                } else if x == m {
                    i as int
                } else {
                    x
                };
                let py = if y == i {
                    m as int
                } else if y == m {
                    i as int
                } else {
                    y
                };
                assert(boxes@[x] == pre[px] && boxes@[y] == pre[py]);
            }
            assert forall|a: int, b: int|
                0 <= a < i + 1 && i + 1 <= b < len implies spec_fits_into(
                #[trigger] boxes@[b],
                #[trigger] boxes@[a],
            ) by {
                let pb = if b == m {
                    i as int
                } else {
                    b
                };
                assert(boxes@[b] == pre[pb]);
                if a < i {
                    assert(boxes@[a] == pre[a]);
                } else {
                    assert(boxes@[a] == pre[m as int]);
                    assert(spec_fits_into(pre[pb], pre[m as int]));
                }
            }
            assert forall|a: int| 0 <= a && a + 1 < i + 1 implies spec_fits_into(
                #[trigger] boxes@[a + 1],
                boxes@[a],
            ) by {
                if a + 1 < i {
                    assert(boxes@[a + 1] == pre[a + 1]);
                    assert(boxes@[a] == pre[a]);
                    assert(spec_fits_into(pre[a + 1], pre[a]));
                } else {
                    assert(boxes@[a + 1] == pre[m as int]);
                    assert(boxes@[a] == pre[a]);
                    assert(spec_fits_into(pre[m as int], pre[a]));
                }
            }
        }
        i += 1;
    }
    proof {
        broadcast use vstd::seq_lib::group_to_multiset_ensures;
    }
}

} // verus!
