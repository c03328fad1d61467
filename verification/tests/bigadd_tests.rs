use piscine::bigint::big_add;

#[test]
fn zero_plus_zero() {
    assert_eq!(big_add(b"0", b"0"), b"0");
}

#[test]
fn basic_add() {
    assert_eq!(big_add(b"1", b"1"), b"2");
    assert_eq!(big_add(b"10", b"1"), b"11");
    assert_eq!(big_add(b"100", b"23"), b"123");
}

#[test]
fn middle_carry() {
    assert_eq!(big_add(b"1", b"19"), b"20");
    assert_eq!(big_add(b"5", b"18"), b"23");
}

#[test]
fn end_carry() {
    assert_eq!(big_add(b"9", b"1"), b"10");
    assert_eq!(big_add(b"9", b"3"), b"12");
    assert_eq!(big_add(b"900", b"100"), b"1000");
}

#[test]
fn full_carry() {
    assert_eq!(big_add(b"999", b"1"), b"1000");
}

#[test]
fn huge_numbers() {
    assert_eq!(
        big_add(
            b"100000000000000000000000000000000",
            b"100000000000000000000000000000000"
        ),
        b"200000000000000000000000000000000"
    );
}
