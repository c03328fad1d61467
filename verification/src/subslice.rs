//! Finding the shortest contiguous run whose sum reaches a threshold.

use vstd::prelude::*;

verus! {

/// The sum of the values of `s`.
pub open spec fn spec_sum(s: Seq<u32>) -> int
    decreases s.len(),
{
    if s.len() == 0 {
        0
    } else {
        spec_sum(s.drop_last()) + s.last()
    }
}

/// A sum of unsigned values is never negative.
proof fn lemma_sum_nonneg(s: Seq<u32>)
    ensures
        spec_sum(s) >= 0,
    decreases s.len(),
{
    if s.len() > 0 {
        lemma_sum_nonneg(s.drop_last());
    }
}

/// Summing is additive over concatenation.
proof fn lemma_sum_concat(a: Seq<u32>, b: Seq<u32>)
    ensures
        spec_sum(a + b) == spec_sum(a) + spec_sum(b),
    decreases b.len(),
{
    if b.len() == 0 {
        assert(a + b =~= a);
    } else {
        assert((a + b).drop_last() =~= a + b.drop_last());
        lemma_sum_concat(a, b.drop_last());
    }
}

/// The sum of a contiguous part never exceeds the sum of the whole.
proof fn lemma_sum_subrange(s: Seq<u32>, from: int, to: int)
    requires
        0 <= from <= to <= s.len(),
    ensures
        spec_sum(s.subrange(from, to)) <= spec_sum(s),
{
    let a = s.subrange(0, from);
    let m = s.subrange(from, to);
    let z = s.subrange(to, s.len() as int);
    assert(s =~= (a + m) + z);
    lemma_sum_concat(a + m, z);
    lemma_sum_concat(a, m);
    lemma_sum_nonneg(a);
    lemma_sum_nonneg(z);
}

/// The sum of the values of `slice`.
pub fn sum_of(slice: &[u32]) -> (r: u32)
    requires
        spec_sum(slice@) <= u32::MAX,
    ensures
        r == spec_sum(slice@),
{
    let mut acc: u32 = 0;
    let mut i: usize = 0;
    while i < slice.len()
        invariant
            i <= slice@.len(),
            spec_sum(slice@) <= u32::MAX,
            acc == spec_sum(slice@.take(i as int)),
        decreases slice@.len() - i,
    {
        proof {
            assert(slice@.take(i + 1).drop_last() =~= slice@.take(i as int));
            assert(slice@.take(i + 1) =~= slice@.subrange(0, i + 1));
            lemma_sum_subrange(slice@, 0, i + 1);
            lemma_sum_nonneg(slice@.take(i as int));
        }
        acc = acc + slice[i];
        i += 1;
    }
    proof {
        assert(slice@.take(slice@.len() as int) =~= slice@);
    }
    acc
}

/// Whether the part of `h` from `s` of length `l` sums to at least `t`.
pub open spec fn reaches(h: Seq<u32>, s: int, l: int, t: int) -> bool {
    0 <= s && 0 <= l && s + l <= h.len() && spec_sum(h.subrange(s, s + l)) >= t
}

/// The shortest contiguous part of `slice` whose sum reaches `threshold`;
/// among equally short ones, the leftmost. The empty slice when no part
/// reaches the threshold.
pub fn smallest_subslice<'a>(slice: &'a [u32], threshold: &u32) -> (r: &'a [u32])
    requires
        spec_sum(slice@) <= u32::MAX,
    ensures
        (exists|s0: int, l0: int|
            {
                &&& #[trigger] reaches(slice@, s0, l0, *threshold as int)
                &&& r@ == slice@.subrange(s0, s0 + l0)
                &&& forall|s2: int, l2: int|
                    #[trigger] reaches(slice@, s2, l2, *threshold as int) ==> l0 < l2 || (l0 == l2
                        && s0 <= s2)
            }) || ((forall|s2: int, l2: int| !(#[trigger] reaches(slice@, s2, l2, *threshold as int)))
            && r@ == Seq::<u32>::empty()),
{
    let len = slice.len();
    let t = *threshold;
    let mut l: usize = 0;
    loop
        invariant
            l <= len,
            len == slice@.len(),
            spec_sum(slice@) <= u32::MAX,
            t == *threshold,
            forall|s2: int, l2: int|
                l2 < l && #[trigger] reaches(slice@, s2, l2, t as int) ==> false,
        ensures
            forall|s2: int, l2: int| #[trigger] reaches(slice@, s2, l2, t as int) ==> false,
        decreases len - l,
    {
        let mut s: usize = 0;
        loop
            invariant
                l <= len,
                s <= len - l,
                len == slice@.len(),
                spec_sum(slice@) <= u32::MAX,
                t == *threshold,
                forall|s2: int, l2: int|
                    l2 < l && #[trigger] reaches(slice@, s2, l2, t as int) ==> false,
                forall|s2: int| s2 < s && #[trigger] reaches(slice@, s2, l as int, t as int) ==> false,
            ensures
                forall|s2: int| #[trigger] reaches(slice@, s2, l as int, t as int) ==> false,
            decreases len - l - s,
        {
            let sub = vstd::slice::slice_subrange(slice, s, s + l);
            proof {
                lemma_sum_subrange(slice@, s as int, (s + l) as int);
            }
            if sum_of(sub) >= t {
                proof {
                    let li = l as int;
                    let si = s as int;
                    assert(reaches(slice@, si, li, t as int));
                    assert forall|s2: int, l2: int|
                        #[trigger] reaches(slice@, s2, l2, t as int) implies (li < l2 || (li == l2
                        && si <= s2)) by {}
                }
                return sub;
            }
            if s == len - l {
                // No start position works for this length.
                proof {
                    assert forall|s2: int| #[trigger] reaches(
                        slice@,
                        s2,
                        l as int,
                        t as int,
                    ) implies false by {
                        assert(s2 + l <= len);
                        if s2 == s as int {
                            assert(sub@ == slice@.subrange(s2, s2 + l as int));
                        }
                    }
                }
                break;
            }
            s += 1;
        }
        // Fold the refuted length into the running summary.
        proof {
            assert forall|s2: int, l2: int|
                l2 <= l && #[trigger] reaches(slice@, s2, l2, t as int) implies false by {
                if l2 == l as int {
                    assert(reaches(slice@, s2, l as int, t as int) ==> false);
                }
            }
        }
        if l == len {
            proof {
                assert forall|s2: int, l2: int|
                    #[trigger] reaches(slice@, s2, l2, t as int) implies false by {
                    assert(l2 <= len);
                }
            }
            break;
        }
        l += 1;
    }
    proof {
        assert(slice@.subrange(0, 0) =~= Seq::<u32>::empty());
    }
    vstd::slice::slice_subrange(slice, 0, 0)
}

} // verus!
