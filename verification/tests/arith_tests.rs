#[test]
fn add_one() {
    assert_eq!(piscine::arith::add(&1, 2), 3);
    assert_eq!(piscine::arith::add(&1, 1), 2);
    assert_eq!(piscine::arith::add(&2, 1), 3);
}

#[test]
fn add_zero() {
    assert_eq!(piscine::arith::add(&0, 1), 1);
    assert_eq!(piscine::arith::add(&1, 0), 1);
    assert_eq!(piscine::arith::add(&0, 0), 0);
}

#[test]
fn add_assign_one() {
    let mut a = 2;
    piscine::arith::add_assign(&mut a, 1);
    assert_eq!(a, 3);
    piscine::arith::add_assign(&mut a, 1);
    assert_eq!(a, 4);
}

#[test]
fn add_assign_zero() {
    let mut a = 1;
    piscine::arith::add_assign(&mut a, 0);
    assert_eq!(a, 1);
}

#[test]
fn lib_add_one() {
    assert_eq!(piscine::arith::add_vectors([1, 2, 3], [1, 1, 1]), [2, 3, 4]);
}

#[test]
fn lib_add_zero() {
    assert_eq!(piscine::arith::add_vectors([1, 2, 3,], [0, 0, 0]), [1, 2, 3]);
}

#[test]
fn add_mix() {
    assert_eq!(piscine::arith::add_vectors([1, 2, 3], [2, 3, 1]), [3, 5, 4]);
}
