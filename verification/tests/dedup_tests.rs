use piscine::dedup::deduplicate;

#[test]
fn lib_example() {
    let mut v = vec![1, 2, 2, 3, 2, 4, 3];
    deduplicate(&mut v);
    assert_eq!(v, [1, 2, 3, 4]);
}

#[test]
fn dedup_empty_and_single() {
    let mut v: Vec<i32> = vec![];
    deduplicate(&mut v);
    assert_eq!(v, [] as [i32; 0]);

    let mut w = vec![7, 7, 7];
    deduplicate(&mut w);
    assert_eq!(w, [7]);
}
