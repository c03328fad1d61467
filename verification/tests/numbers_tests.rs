use piscine::numbers::{fibs, is_even, is_prime, min};

#[test]
fn zero_is_not_prime() {
    assert!(!is_prime(0));
}

#[test]
fn one_is_not_prime() {
    assert!(!is_prime(1));
}

#[test]
fn three_is_prime() {
    assert!(is_prime(3));
}

#[test]
fn four_is_not_prime() {
    assert!(!is_prime(4));
}

#[test]
fn first_fib_is_0() {
    assert_eq!(fibs(0), 0);
}

#[test]
fn fifth_fib_is_3() {
    assert_eq!(fibs(4), 3);
}

#[test]
fn seventeenth_fib_is_987() {
    assert_eq!(fibs(16), 987);
}

#[test]
fn min_and_parity() {
    assert_eq!(min(1, 2), 1);
    assert_eq!(min(2, 2), 2);
    assert_eq!(min(2, 1), 1);
    assert!(is_even(4));
    assert!(!is_even(5));
}
