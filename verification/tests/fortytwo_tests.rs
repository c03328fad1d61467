use piscine::fortytwo::FortyTwo;

#[test]
fn conjures_forty_two() {
    let n: u32 = FortyTwo::forty_two();
    assert_eq!(n, 42);
    let s: String = FortyTwo::forty_two();
    assert_eq!(s, "42");
}
