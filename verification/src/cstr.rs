//! Splitting a string just after its first null character.

use vstd::prelude::*;

verus! {

/// The position of the first null character of `s` at or after `i`, or
/// the end of `s`.
pub open spec fn nul_pos(s: Seq<char>, i: int) -> int
    decreases s.len() - i
        when 0 <= i <= s.len()
{
    if i >= s.len() || s[i] == '\0' {
        i
    } else {
        nul_pos(s, i + 1)
    }
}

proof fn lemma_nul_pos_bounds(s: Seq<char>, i: int)
    requires
        0 <= i <= s.len(),
    ensures
        i <= nul_pos(s, i) <= s.len(),
    decreases s.len() - i,
{
    if !(i >= s.len() || s[i] == '\0') {
        lemma_nul_pos_bounds(s, i + 1);
    }
}

/// Splits `s` just after its first null character: the first part keeps
/// the null, the second part is everything after it. The string must
/// hold a null character.
pub fn split_once_at_null(s: &str) -> (r: (&str, &str))
    requires
        exists|k: int| 0 <= k < s@.len() && s@[k] == '\0',
    ensures
        r.0@ == s@.take(nul_pos(s@, 0) + 1),
        r.1@ == s@.skip(nul_pos(s@, 0) + 1),
{
    let n = s.unicode_len();
    let mut i: usize = 0;
    while i < n && s.get_char(i) != '\0'
        invariant
            0 <= i <= n,
            n == s@.len(),
            nul_pos(s@, 0) == nul_pos(s@, i as int),
            exists|k: int| 0 <= k < s@.len() && s@[k] == '\0',
        decreases n - i,
    {
        i += 1;
    }
    proof {
        assert(nul_pos(s@, i as int) == i);
        if i == n {
            let k = choose|k: int| 0 <= k < s@.len() && s@[k] == '\0';
            lemma_nul_pos_bounds(s@, 0);
            assert(nul_pos(s@, 0) <= k) by {
                lemma_nul_pos_before(s@, 0, k);
            }
            assert(false);
        }
        assert(s@.take(i + 1) =~= s@.subrange(0, i + 1));
        assert(s@.skip(i + 1) =~= s@.subrange(i + 1, s@.len() as int));
    }
    (s.substring_char(0, i + 1), s.substring_char(i + 1, n))
}

/// The first null is never past any null.
proof fn lemma_nul_pos_before(s: Seq<char>, i: int, k: int)
    requires
        0 <= i <= k < s.len(),
        s[k] == '\0',
    ensures
        nul_pos(s, i) <= k,
    decreases s.len() - i,
{
    if !(i >= s.len() || s[i] == '\0') {
        lemma_nul_pos_before(s, i + 1, k);
    }
}

} // verus!
