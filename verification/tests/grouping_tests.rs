use piscine::grouping::largest_group;

#[test]
fn lib_test_lifetimes() {
    let haystack = [1, 2, 3, 2, 1];
    let result;

    {
        let needle = [2, 3];
        result = largest_group(&haystack, &needle);
    }

    assert_eq!(result, &[2, 3, 2]);
}

#[test]
fn examples() {
    assert_eq!(largest_group(&[1, 3, 4, 3, 5, 5, 4], &[5, 3]), &[3, 5, 5]);
    assert_eq!(largest_group(&[1, 3, 4, 3, 5, 5, 4], &[5]), &[5, 5]);
    assert_eq!(largest_group(&[1, 3, 4, 3, 5, 5, 4], &[]), &[] as &[u32]);
    assert_eq!(largest_group(&[1, 3, 4, 3, 5, 5, 4], &[4, 1]), &[] as &[u32]);
}
