use piscine::collatz::collayz;
use std::cell::RefCell;

#[test]
fn reports_each_odd_value_then_one() {
    let seen = RefCell::new(Vec::new());
    collayz(11, |n| seen.borrow_mut().push(n));
    assert_eq!(*seen.borrow(), vec![11, 17, 13, 5, 1]);
}

#[test]
fn one_reports_itself() {
    let seen = RefCell::new(Vec::new());
    collayz(1, |n| seen.borrow_mut().push(n));
    assert_eq!(*seen.borrow(), vec![1]);
}
