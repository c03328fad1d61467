use piscine::refs::{get_string, min};

#[test]
fn basic_tests() {
    assert_eq!(min(&1, &0), &0);
    assert_eq!(min(&0, &1), &0);
    assert_eq!(min(&1, &1), &1);
}

#[test]
fn min_max() {
    assert_eq!(min(&i32::MIN, &i32::MAX), &i32::MIN);
}

#[test]
fn greetings_by_key() {
    assert_eq!(get_string(&0), "Hello!");
    assert_eq!(get_string(&4), "Konnichiwa!");
}
