use piscine::subslice::smallest_subslice;

#[test]
fn no_solution() {
    assert_eq!(smallest_subslice(&[1, 1, 1], &4), &[] as &[u32]);
}

#[test]
fn max_solution() {
    assert_eq!(smallest_subslice(&[1, 2, 3], &6), &[1, 2, 3]);
}

#[test]
fn multiple_solutions() {
    assert_eq!(smallest_subslice(&[0, 1, 2, 2, 1], &3), &[1, 2]);
}

#[test]
fn example_tests() {
    assert_eq!(smallest_subslice(&[10, 1, 11], &11), [11]);
    assert_eq!(smallest_subslice(&[10, 1, 11], &12), [1, 11]);
    assert_eq!(smallest_subslice(&[10, 1, 11], &13), [10, 1, 11]);
    assert_eq!(smallest_subslice(&[10, 1, 11], &23), [] as [u32; 0]);
}

#[test]
fn smallest_subslice_lifetimes() {
    let array = [3, 4, 1, 2, 12];
    let result;

    {
        let threshold = 1000;
        result = smallest_subslice(&array, &threshold);
    }

    assert_eq!(result, &[] as &[u32]);
}
