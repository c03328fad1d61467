//! Small numeric exercises: minimum, parity, Fibonacci numbers, primality.

use vstd::prelude::*;

verus! {

/// The smaller of `a` and `b`; `b` when they are equal.
pub fn min(a: i32, b: i32) -> (r: i32)
    ensures
        r == if a < b {
            a
        } else {
            b
        },
{
    if a < b {
        a
    } else {
        b
    }
}

/// Whether `n` is even.
pub fn is_even(n: u32) -> (r: bool)
    ensures
        r == (n % 2 == 0),
{
    n % 2 == 0
}

/// The Fibonacci number of index `n`: 0, 1, 1, 2, 3, 5, ...
pub open spec fn spec_fib(n: nat) -> nat
    decreases n,
{
    if n == 0 {
        0
    } else if n == 1 {
        1
    } else {
        spec_fib((n - 2) as nat) + spec_fib((n - 1) as nat)
    }
}

/// The Fibonacci sequence is monotonic.
pub proof fn lemma_fib_mono(i: nat, j: nat)
    requires
        i <= j,
    ensures
        spec_fib(i) <= spec_fib(j),
    decreases j,
{
    if i < j && j >= 2 {
        lemma_fib_mono(i, (j - 1) as nat);
    } else if i < j && j == 1 {
        assert(spec_fib(0) == 0);
    }
}

/// The Fibonacci number of index `n`.
pub fn fibs(n: u32) -> (r: u32)
    requires
        spec_fib(n as nat + 1) <= u32::MAX,
    ensures
        r == spec_fib(n as nat),
{
    let mut a: u32 = 0;
    let mut b: u32 = 1;
    let mut i: u32 = 0;
    while i < n
        invariant
            i <= n,
            a == spec_fib(i as nat),
            b == spec_fib(i as nat + 1),
            spec_fib(n as nat + 1) <= u32::MAX,
        decreases n - i,
    {
        proof {
            lemma_fib_mono(i as nat + 2, n as nat + 1);
        }
        let next = a + b;
        a = b;
        b = next;
        i += 1;
    }
    a
}

/// Whether `n` is prime: at least two, and without a divisor strictly
/// between one and itself.
pub open spec fn spec_is_prime(n: int) -> bool {
    n >= 2 && forall|d: int| 2 <= d < n ==> #[trigger] (n % d) != 0
}

/// Whether `n` is a prime number.
pub fn is_prime(n: u32) -> (r: bool)
    ensures
        r == spec_is_prime(n as int),
{
    if n < 2 {
        return false;
    }
    let mut d: u32 = 2;
    while d < n
        invariant
            2 <= d <= n,
            forall|k: int| 2 <= k < d ==> #[trigger] (n as int % k) != 0,
        decreases n - d,
    {
        if n % d == 0 {
            return false;
        }
        d += 1;
    }
    true
}

} // verus!
