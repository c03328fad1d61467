use piscine::boxes::{fits_into, find_max, sort_boxes};

#[test]
fn example() {
    let mut boxes = vec![[3, 3], [4, 3], [1, 0], [5, 7], [3, 3]];
    sort_boxes(&mut boxes);
    assert_eq!(boxes, vec![[5, 7], [4, 3], [3, 3], [3, 3], [1, 0]]);
}

#[test]
fn fits_into_compares_both_sides() {
    assert!(fits_into([1, 2], [2, 2]));
    assert!(!fits_into([3, 1], [2, 2]));
}

#[test]
fn find_max_picks_the_largest() {
    assert_eq!(find_max(&[[1, 1], [3, 3], [2, 2]]), 1);
}
