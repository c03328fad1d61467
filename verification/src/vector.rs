//! A two-component vector over any scalar type.

use vstd::prelude::*;
use vstd::std_specs::cmp::PartialEqSpec;

verus! {

/// A plane vector with components `x` and `y`.
#[derive(Debug, Clone, Copy)]
pub struct Vector<T> {
    /// The first component.
    pub x: T,
    /// The second component.
    pub y: T,
}

impl<T> Vector<T> {
    /// The vector with the given components.
    pub fn new(x: T, y: T) -> (r: Self)
        ensures
            r.x == x,
            r.y == y,
    {
        Self { x, y }
    }
}

impl<T: PartialEq> PartialEq for Vector<T> {
    /// Two vectors are equal when both components are.
    fn eq(&self, other: &Self) -> (r: bool) {
        self.x == other.x && self.y == other.y
    }
}

impl<T: PartialEq> vstd::std_specs::cmp::PartialEqSpecImpl for Vector<T> {
    open spec fn obeys_eq_spec() -> bool {
        T::obeys_eq_spec()
    }

    open spec fn eq_spec(&self, other: &Self) -> bool {
        self.x.eq_spec(&other.x) && self.y.eq_spec(&other.y)
    }
}

} // verus!
