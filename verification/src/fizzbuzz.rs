//! The counting game: what to shout for each number.

use vstd::prelude::*;

verus! {

/// What a number calls for: both substitutions, one of them, a louder
/// variant on the elevens, or the number itself.
#[derive(Debug, Clone, Copy, PartialEq, Eq, Structural)]
pub enum Shout {
    /// A multiple of three and of five.
    FizzBuzz,
    /// A multiple of three alone.
    Fizz,
    /// A multiple of five alone.
    Buzz,
    /// Three more than a multiple of eleven, shouted loudly.
    LoudFizz,
    /// Five more than a multiple of eleven, shouted loudly.
    LoudBuzz,
    /// An unremarkable number, said plainly.
    Plain,
}

/// The shout for `n`, the rules tried in order.
pub fn classify(n: u32) -> (r: Shout)
    ensures
        r == (if n % 3 == 0 && n % 5 == 0 {
            Shout::FizzBuzz
        } else if n % 3 == 0 {
            Shout::Fizz
        } else if n % 5 == 0 {
            Shout::Buzz
        } else if n % 11 == 3 {
            Shout::LoudFizz
        } else if n % 11 == 5 {
            Shout::LoudBuzz
        } else {
            Shout::Plain
        }),
{
    match (n % 3, n % 5, n % 11) {
        (0, 0, _) => Shout::FizzBuzz,
        (0, _, _) => Shout::Fizz,
        (_, 0, _) => Shout::Buzz,
        (_, _, 3) => Shout::LoudFizz,
        (_, _, 5) => Shout::LoudBuzz,
        (_, _, _) => Shout::Plain,
    }
}

} // verus!
