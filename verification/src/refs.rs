//! Borrow-returning exercises: a minimum over references, and a lookup
//! table of greetings.

use vstd::prelude::*;

verus! {

/// The reference to the smaller of the two integers; `b` when they are
/// equal.
pub fn min<'a>(a: &'a i32, b: &'a i32) -> (r: &'a i32)
    ensures
        *r == if *a < *b {
            *a
        } else {
            *b
        },
{
    if *a < *b {
        a
    } else {
        b
    }
}

/// The greeting filed under `key` (0 through 4).
pub fn get_string(key: &i32) -> (r: &'static str)
    requires
        0 <= *key <= 4,
    ensures
        *key == 0 ==> r@ == "Hello!"@,
        *key == 1 ==> r@ == "Hola!"@,
        *key == 2 ==> r@ == "Bonjour!"@,
        *key == 3 ==> r@ == "Salve!"@,
        *key == 4 ==> r@ == "Konnichiwa!"@,
{
    match *key {
        0 => "Hello!",
        1 => "Hola!",
        2 => "Bonjour!",
        3 => "Salve!",
        _ => "Konnichiwa!",
    }
}

} // verus!
