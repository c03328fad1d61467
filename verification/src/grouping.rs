//! Finding the largest contiguous group of needle members in a haystack.

use vstd::prelude::*;

verus! {

/// The first position at or after `s` where the run of values drawn from
/// `n` stops: either the end of `h` or a value outside `n`.
pub open spec fn run_end(h: Seq<u32>, n: Seq<u32>, s: int) -> int
    decreases h.len() - s
        when 0 <= s <= h.len()
{
    if s >= h.len() || !n.contains(h[s]) {
        s
    } else {
        run_end(h, n, s + 1)
    }
}

/// The run of `n`-members starting at `s`.
pub open spec fn group_at(h: Seq<u32>, n: Seq<u32>, s: int) -> Seq<u32> {
    h.subrange(s, run_end(h, n, s))
}

/// Whether the run starting at `s` holds every value of `n`.
pub open spec fn covers(h: Seq<u32>, n: Seq<u32>, s: int) -> bool {
    forall|k: int| 0 <= k < n.len() ==> group_at(h, n, s).contains(#[trigger] n[k])
}

/// The length of the run starting at `s`.
pub open spec fn group_len(h: Seq<u32>, n: Seq<u32>, s: int) -> int {
    run_end(h, n, s) - s
}

proof fn lemma_run_end_bounds(h: Seq<u32>, n: Seq<u32>, s: int)
    requires
        0 <= s <= h.len(),
    ensures
        s <= run_end(h, n, s) <= h.len(),
    decreases h.len() - s,
{
    if !(s >= h.len() || !n.contains(h[s])) {
        lemma_run_end_bounds(h, n, s + 1);
    }
}

/// Whether the values of `slice` between `from` and `to` include `x`.
fn contains_in_range(slice: &[u32], from: usize, to: usize, x: u32) -> (r: bool)
    requires
        from <= to <= slice@.len(),
    ensures
        r == slice@.subrange(from as int, to as int).contains(x),
{
    let ghost part = slice@.subrange(from as int, to as int);
    let mut i: usize = from;
    while i < to
        invariant
            from <= i <= to <= slice@.len(),
            part == slice@.subrange(from as int, to as int),
            forall|j: int| from <= j < i ==> slice@[j] != x,
        decreases to - i,
    {
        if slice[i] == x {
            proof {
                assert(part[i - from] == x);
            }
            return true;
        }
        i += 1;
    }
    proof {
        assert forall|j: int| 0 <= j < part.len() implies part[j] != x by {
            assert(part[j] == slice@[from + j]);
        }
    }
    false
}

/// The largest contiguous run of `haystack` values drawn from `needle`
/// that holds every value of `needle`; the earliest among the largest.
/// The empty slice when no such nonempty run exists.
pub fn largest_group<'a>(haystack: &'a [u32], needle: &[u32]) -> (r: &'a [u32])
    ensures
        (exists|s0: int|
            {
                &&& 0 <= s0 <= haystack@.len()
                &&& #[trigger] covers(haystack@, needle@, s0)
                &&& group_len(haystack@, needle@, s0) > 0
                &&& r@ == group_at(haystack@, needle@, s0)
                &&& forall|s2: int|
                    0 <= s2 <= haystack@.len() && #[trigger] covers(haystack@, needle@, s2)
                        ==> group_len(haystack@, needle@, s2) <= group_len(haystack@, needle@, s0)
                &&& forall|s2: int|
                    0 <= s2 < s0 && #[trigger] covers(haystack@, needle@, s2) ==> group_len(
                        haystack@,
                        needle@,
                        s2,
                    ) < group_len(haystack@, needle@, s0)
            }) || ((forall|s2: int|
            0 <= s2 <= haystack@.len() && #[trigger] covers(haystack@, needle@, s2) ==> group_len(
                haystack@,
                needle@,
                s2,
            ) <= 0) && r@ == Seq::<u32>::empty()),
{
    let ghost h = haystack@;
    let ghost n = needle@;
    let len = haystack.len();
    let mut best_s: usize = 0;
    let mut best_e: usize = 0;
    let mut start: usize = 0;
    while start < len
        invariant
            start <= len,
            len == h.len(),
            h == haystack@,
            n == needle@,
            best_s <= best_e <= len,
            best_e > best_s ==> covers(h, n, best_s as int) && run_end(h, n, best_s as int)
                == best_e && best_s < len,
            best_e > best_s ==> forall|s2: int|
                0 <= s2 < start && #[trigger] covers(h, n, s2) ==> group_len(h, n, s2) <= best_e
                    - best_s,
            best_e > best_s ==> forall|s2: int|
                0 <= s2 < best_s && #[trigger] covers(h, n, s2) ==> group_len(h, n, s2) < best_e
                    - best_s,
            best_e == best_s ==> forall|s2: int|
                0 <= s2 < start && #[trigger] covers(h, n, s2) ==> group_len(h, n, s2) <= 0,
        decreases len - start,
    {
        // Extend the run of needle members as far as it goes.
        let mut end: usize = start;
        while end < len && contains_in_range(needle, 0, needle.len(), haystack[end])
            invariant
                start <= end <= len,
                len == h.len(),
                h == haystack@,
                n == needle@,
                run_end(h, n, start as int) == run_end(h, n, end as int),
            decreases len - end,
        {
            proof {
                assert(n.subrange(0, n.len() as int) =~= n);
            }
            end += 1;
        }
        proof {
            assert(n.subrange(0, n.len() as int) =~= n);
            assert(run_end(h, n, end as int) == end);
            lemma_run_end_bounds(h, n, start as int);
        }

        // Check that the run holds every needle value.
        let mut validated = true;
        let mut k: usize = 0;
        while k < needle.len()
            invariant
                k <= n.len(),
                len == h.len(),
                h == haystack@,
                n == needle@,
                start <= end <= len,
                validated ==> forall|k2: int|
                    0 <= k2 < k ==> h.subrange(start as int, end as int).contains(#[trigger] n[k2]),
                !validated ==> exists|k2: int|
                    0 <= k2 < n.len() && !h.subrange(start as int, end as int).contains(
                        #[trigger] n[k2],
                    ),
            ensures
                validated ==> forall|k2: int|
                    0 <= k2 < n.len() ==> h.subrange(start as int, end as int).contains(
                        #[trigger] n[k2],
                    ),
                !validated ==> exists|k2: int|
                    0 <= k2 < n.len() && !h.subrange(start as int, end as int).contains(
                        #[trigger] n[k2],
                    ),
            decreases n.len() - k,
        {
            if !contains_in_range(haystack, start, end, needle[k]) {
                validated = false;
                proof {
                    assert(!h.subrange(start as int, end as int).contains(n[k as int]));
                }
                break;
            }
            k += 1;
        }

        proof {
            if validated {
                assert(covers(h, n, start as int)) by {
                    assert(group_at(h, n, start as int) == h.subrange(start as int, end as int));
                }
            } else {
                assert(!covers(h, n, start as int)) by {
                    assert(group_at(h, n, start as int) == h.subrange(start as int, end as int));
                }
            }
            assert(group_len(h, n, start as int) == end - start);
        }
        if validated && best_e - best_s < end - start {
            best_s = start;
            best_e = end;
        }
        start += 1;
    }
    proof {
        if best_e > best_s {
            assert(covers(h, n, best_s as int));
            assert(group_len(h, n, best_s as int) == best_e - best_s);
            assert(forall|s2: int|
                0 <= s2 <= h.len() && #[trigger] covers(h, n, s2) ==> group_len(h, n, s2) <= best_e
                    - best_s) by {
                assert forall|s2: int|
                    0 <= s2 <= h.len() && #[trigger] covers(h, n, s2) implies group_len(h, n, s2)
                    <= best_e - best_s by {
                    if s2 == h.len() {
                        assert(run_end(h, n, s2) == s2);
                    }
                }
            }
        } else {
            assert forall|s2: int|
                0 <= s2 <= h.len() && #[trigger] covers(h, n, s2) implies group_len(h, n, s2)
                <= 0 by {
                if s2 == h.len() {
                    assert(run_end(h, n, s2) == s2);
                }
            }
            assert(h.subrange(best_s as int, best_e as int) =~= Seq::<u32>::empty());
        }
    }
    vstd::slice::slice_subrange(haystack, best_s, best_e)
}

} // verus!
