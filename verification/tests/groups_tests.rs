use piscine::groups::Groups;

#[test]
fn forward() {
    let mut groups = Groups::new("  hello,\tworld ", char::is_alphabetic);

    assert_eq!(groups.next(), Some("hello"));
    assert_eq!(groups.next(), Some("world"));
    assert_eq!(groups.next(), None);
}

#[test]
fn backward() {
    let mut groups = Groups::new("  hello,\tworld ", char::is_alphabetic);

    assert_eq!(groups.next_back(), Some("world"));
    assert_eq!(groups.next_back(), Some("hello"));
    assert_eq!(groups.next_back(), None);
}

#[test]
fn mixed_walks_share_the_rest() {
    let mut groups = Groups::new("one, two, three", char::is_alphabetic);
    assert_eq!(groups.next(), Some("one"));
    assert_eq!(groups.next_back(), Some("three"));
    assert_eq!(groups.next(), Some("two"));
    assert_eq!(groups.next(), None);
}
