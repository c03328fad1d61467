//! A trait whose implementors can conjure the number forty-two.

use vstd::prelude::*;

verus! {

/// Types with a canonical value spelling forty-two.
pub trait FortyTwo: Sized {
    /// Whether `v` spells forty-two.
    spec fn is_forty_two(v: Self) -> bool;

    /// Conjures the value.
    fn forty_two() -> (r: Self)
        ensures
            Self::is_forty_two(r),
    ;
}

impl FortyTwo for u32 {
    open spec fn is_forty_two(v: u32) -> bool {
        v == 42
    }

    fn forty_two() -> (r: u32) {
        42
    }
}

impl FortyTwo for String {
    open spec fn is_forty_two(v: String) -> bool {
        v@ == "42"@
    }

    fn forty_two() -> (r: String) {
        String::from_str("42")
    }
}

} // verus!
