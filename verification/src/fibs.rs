//! A Fibonacci stream, and the sum of its even values below one thousand.

use vstd::prelude::*;

verus! {

/// A stream of Fibonacci numbers that ends when `u32` overflows.
pub struct Fibs {
    curr: Option<u32>,
    next: Option<u32>,
}

impl Fibs {
    /// The value the stream will yield now.
    pub closed spec fn spec_curr(self) -> Option<u32> {
        self.curr
    }

    /// The value the stream will yield after that.
    pub closed spec fn spec_next(self) -> Option<u32> {
        self.next
    }

    /// A stream starting from the two seed values.
    pub fn new(curr: u32, next: u32) -> (r: Self)
        ensures
            r.spec_curr() == Some(curr),
            r.spec_next() == Some(next),
    {
        Self { curr: Some(curr), next: Some(next) }
    }

    /// Yields the current value and steps the stream: the follower moves
    /// up and the new follower is the sum, until it no longer fits.
    pub fn next(&mut self) -> (r: Option<u32>)
        ensures
            old(self).spec_curr().is_none() ==> r.is_none() && *final(self) == *old(self),
            old(self).spec_curr().is_some() && old(self).spec_next().is_none() ==> r == old(
                self,
            ).spec_curr() && final(self).spec_curr().is_none() && final(self).spec_next().is_none(),
            old(self).spec_curr().is_some() && old(self).spec_next().is_some() ==> {
                &&& r == old(self).spec_curr()
                &&& final(self).spec_curr() == old(self).spec_next()
                &&& (old(self).spec_curr().unwrap() + old(self).spec_next().unwrap() <= u32::MAX
                    ==> final(self).spec_next() == Some(
                    (old(self).spec_curr().unwrap() + old(self).spec_next().unwrap()) as u32,
                ))
                &&& (old(self).spec_curr().unwrap() + old(self).spec_next().unwrap() > u32::MAX
                    ==> final(self).spec_next().is_none())
            },
    {
        let curr = match self.curr.take() {
            Some(c) => c,
            None => {
                return None;
            },
        };
        match self.next.take() {
            Some(next) => {
                self.next = curr.checked_add(next);
                self.curr = Some(next);
            },
            None => {},
        }
        Some(curr)
    }
}

/// The even values of the Fibonacci progression carried by `(a, b)` that
/// lie below `limit`, summed.
pub open spec fn even_fib_sum(a: nat, b: nat, limit: nat) -> int
    decreases (if a <= limit { limit - a } else { 0 }), (if b <= limit { limit - b } else { 0 })
        when a < b || (a == b && a >= 1)
{
    if a >= limit {
        0
    } else {
        (if a % 2 == 0 {
            a as int
        } else {
            0
        }) + even_fib_sum(b, a + b, limit)
    }
}

proof fn lemma_even_fib_sum_nonneg(a: nat, b: nat, limit: nat)
    requires
        a < b || (a == b && a >= 1),
    ensures
        even_fib_sum(a, b, limit) >= 0,
    decreases (if a <= limit { limit - a } else { 0 }), (if b <= limit { limit - b } else { 0 }),
{
    if a < limit {
        lemma_even_fib_sum_nonneg(b, a + b, limit);
    }
}

/// The sum of the even Fibonacci numbers below one thousand.
pub fn even_fibs_bellow_1000() -> (r: u32)
    ensures
        r == even_fib_sum(0, 1, 1000),
{
    let mut a: u32 = 0;
    let mut b: u32 = 1;
    let mut sum: u32 = 0;
    proof {
        lemma_even_fib_sum_nonneg(0, 1, 1000);
        assert(even_fib_sum(0, 1, 1000) == 798) by {
            reveal_with_fuel(even_fib_sum, 25);
        }
    }
    while a < 1000
        invariant
            a < b || (a == b && a >= 1),
            b <= a + 1000,
            sum + even_fib_sum(a as nat, b as nat, 1000) == even_fib_sum(0, 1, 1000),
            even_fib_sum(0, 1, 1000) <= u32::MAX,
        decreases (if a <= 1000 { 1000 - a } else { 0 }), (if b <= 1000 { 1000 - b } else { 0 }),
    {
        proof {
            lemma_even_fib_sum_nonneg(b as nat, (a + b) as nat, 1000);
        }
        if a % 2 == 0 {
            sum += a;
        }
        let t = a + b;
        a = b;
        b = t;
    }
    sum
}

} // verus!
