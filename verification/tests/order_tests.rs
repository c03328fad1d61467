use piscine::order::min;

#[test]
fn example_min() {
    assert_eq!(min(12i32, -14i32), -14);
    assert_eq!(min(12f32, 14f32), 12f32);
    assert_eq!(min("abc", "def"), "abc");
    assert_eq!(min(String::from("abc"), String::from("def")), "abc");
}
