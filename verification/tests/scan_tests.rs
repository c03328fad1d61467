use piscine::scan::{create_pairs, parse_u32, parse_usize, sum_of_odds, sum_of_odds_checked, trimmed_str};

#[test]
fn sum_test() {
    let sum = sum_of_odds("hey 20 test 3\t9 4 5, 1 hello");
    assert_eq!(sum, 13);
}

#[test]
fn pair_test() {
    let input = "\
first: 1
second 2
   \t third   : 3
fourth
fifth  : 43\t
\tsixth
";

    let v: Vec<(&str, u32)> = create_pairs(input);

    assert_eq!(v, [("first", 1), ("third", 3), ("fifth", 43),]);
}

#[test]
fn numbers_parse_exactly() {
    assert_eq!(parse_u32("42"), Some(42));
    assert_eq!(parse_u32("+42"), Some(42));
    assert_eq!(parse_u32("0042"), Some(42));
    assert_eq!(parse_u32(""), None);
    assert_eq!(parse_u32("+"), None);
    assert_eq!(parse_u32("-1"), None);
    assert_eq!(parse_u32("4294967295"), Some(u32::MAX));
    assert_eq!(parse_u32("4294967296"), None);
    assert_eq!(parse_usize("18446744073709551615"), Some(usize::MAX));
    assert_eq!(parse_usize("18446744073709551616"), None);
}

#[test]
fn trimming_strips_both_ends() {
    assert_eq!(trimmed_str("  hello \t"), "hello");
    assert_eq!(trimmed_str(" \t "), "");
    assert_eq!(trimmed_str("x"), "x");
}

#[test]
fn checked_sum_reports_overflow() {
    assert_eq!(sum_of_odds_checked("1 2 3"), Some(4));
    assert_eq!(sum_of_odds_checked("4294967295 4294967295"), None);
}
