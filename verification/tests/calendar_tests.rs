use piscine::calendar::{is_leap_year, month_name, num_days_in_month};

#[test]
fn year_1600_is_a_leap_year() {
    assert!(is_leap_year(1600));
}

#[test]
fn year_1500_is_a_common_year() {
    assert!(!is_leap_year(1500));
}

#[test]
fn year_2004_is_a_leap_year() {
    assert!(is_leap_year(2004));
}

#[test]
fn year_2003_is_a_common_year() {
    assert!(!is_leap_year(2003));
}

#[test]
fn feb_has_28_days_on_leap_years() {
    assert_eq!(num_days_in_month(2004, 2), 29);
}

#[test]
fn feb_has_29_days_on_common_years() {
    assert_eq!(num_days_in_month(2003, 2), 28);
}

#[test]
fn months_with_31_days() {
    assert_eq!(num_days_in_month(1, 1), 31);
    assert_eq!(num_days_in_month(1, 3), 31);
    assert_eq!(num_days_in_month(1, 5), 31);
    assert_eq!(num_days_in_month(1, 7), 31);
    assert_eq!(num_days_in_month(1, 8), 31);
    assert_eq!(num_days_in_month(1, 10), 31);
    assert_eq!(num_days_in_month(1, 12), 31);
}

#[test]
fn months_with_30_days() {
    assert_eq!(num_days_in_month(1, 4), 30);
    assert_eq!(num_days_in_month(1, 6), 30);
    assert_eq!(num_days_in_month(1, 9), 30);
    assert_eq!(num_days_in_month(1, 11), 30);
}

#[test]
fn month_names_spell_out() {
    assert_eq!(month_name(1), "January");
    assert_eq!(month_name(12), "December");
}
