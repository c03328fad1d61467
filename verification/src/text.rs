//! Character classes drawn from the Unicode tables.

use vstd::prelude::*;

verus! {

/// Whether `c` has the Unicode White_Space property.
pub uninterp spec fn unicode_ws(c: char) -> bool;

/// Whether `c` has the Unicode Alphabetic property.
pub uninterp spec fn unicode_alpha(c: char) -> bool;

/// Relies on char::is_whitespace: whether `c` has the Unicode White_Space
/// property, a function of the character alone.
#[verifier::external_body]
pub(crate) fn is_ws_char(c: char) -> (r: bool)
    ensures
        r == unicode_ws(c),
{
    c.is_whitespace()
}

/// Relies on char::is_alphabetic: whether `c` has the Unicode Alphabetic
/// property, a function of the character alone.
#[verifier::external_body]
pub(crate) fn is_alpha_char(c: char) -> (r: bool)
    ensures
        r == unicode_alpha(c),
{
    c.is_alphabetic()
}

/// Whether the two strings hold the same characters.
pub fn str_eq(a: &str, b: &str) -> (r: bool)
    ensures
        r == (a@ == b@),
{
    let n = a.unicode_len();
    if n != b.unicode_len() {
        proof {
            assert(a@ != b@);
        }
        return false;
    }
    let mut i: usize = 0;
    while i < n
        invariant
            0 <= i <= n,
            n == a@.len(),
            n == b@.len(),
            forall|j: int| 0 <= j < i ==> a@[j] == b@[j],
        decreases n - i,
    {
        if a.get_char(i) != b.get_char(i) {
            proof {
                assert(a@[i as int] != b@[i as int]);
            }
            return false;
        }
        i += 1;
    }
    proof {
        assert(a@ =~= b@);
    }
    true
}

} // verus!
