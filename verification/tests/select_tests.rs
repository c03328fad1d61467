use piscine::select::{min_of, sort_slice};

#[test]
fn min_of_one() {
    assert_eq!(min_of(&[1]), 0);
}

#[test]
fn min_of_two() {
    assert_eq!(min_of(&[1, 2]), 0);
    assert_eq!(min_of(&[2, 1]), 1);
}

#[test]
fn multiple_min_gives_last() {
    assert_eq!(min_of(&[1, 2, 1]), 2);
}

#[test]
fn sort_empty() {
    let mut arr: Vec<i32> = vec![];
    sort_slice(&mut arr);
    assert_eq!(arr, [] as [i32; 0]);
}

#[test]
fn sort_one() {
    let mut arr = vec![1];
    sort_slice(&mut arr);
    assert_eq!(arr, [1]);
}

#[test]
fn sort_two() {
    let mut arr = vec![2, 1];
    sort_slice(&mut arr);
    assert_eq!(arr, [1, 2]);
    sort_slice(&mut arr);
    assert_eq!(arr, [1, 2]);
}

#[test]
fn sort_five() {
    let mut arr = vec![4, 3, 2, 5, 1];
    sort_slice(&mut arr);
    assert_eq!(arr, [1, 2, 3, 4, 5]);
}

#[test]
fn sort_almost_sorted() {
    let mut arr = vec![1, 2, 3, 5, 4];
    sort_slice(&mut arr);
    assert_eq!(arr, [1, 2, 3, 4, 5]);
}
