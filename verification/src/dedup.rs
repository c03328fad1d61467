//! Removing duplicate values from a list while keeping first occurrences.

use vstd::prelude::*;

verus! {

/// `s` with every repeated value removed: the first occurrence of each
/// value stays, in its original order.
pub open spec fn dedup_of(s: Seq<i32>) -> Seq<i32>
    decreases s.len(),
{
    if s.len() == 0 {
        Seq::empty()
    } else {
        let d = dedup_of(s.drop_last());
        if d.contains(s.last()) {
            d
        } else {
            d.push(s.last())
        }
    }
}

/// Whether `list` holds `x`.
fn contains_value(list: &Vec<i32>, x: i32) -> (r: bool)
    ensures
        r == list@.contains(x),
{
    let mut i: usize = 0;
    while i < list.len()
        invariant
            i <= list@.len(),
            forall|j: int| 0 <= j < i ==> list@[j] != x,
        decreases list@.len() - i,
    {
        if list[i] == x {
            return true;
        }
        i += 1;
    }
    false
}

/// Removes every repeated value from `list`, keeping the first occurrence
/// of each value and the order of those first occurrences.
pub fn deduplicate(list: &mut Vec<i32>)
    ensures
        final(list)@ == dedup_of(old(list)@),
{
    let ghost orig = list@;
    let mut out: Vec<i32> = Vec::new();
    let mut i: usize = 0;
    while i < list.len()
        invariant
            i <= orig.len(),
            list@ == orig,
            out@ == dedup_of(orig.take(i as int)),
        decreases orig.len() - i,
    {
        proof {
            assert(orig.take(i + 1).drop_last() =~= orig.take(i as int));
            assert(orig.take(i + 1).last() == orig[i as int]);
        }
        let x = list[i];
        if !contains_value(&out, x) {
            out.push(x);
        }
        i += 1;
    }
    proof {
        assert(orig.take(orig.len() as int) =~= orig);
    }
    *list = out;
}

} // verus!
