use piscine::cstr::split_once_at_null;

#[test]
fn split_basic() {
    assert_eq!(split_once_at_null("Hello\0World"), ("Hello\0", "World"));
}

#[test]
fn split_empty() {
    assert_eq!(split_once_at_null("\0"), ("\0", ""));
}
