//! Gregorian calendar helpers: leap years, month lengths, month names.

use vstd::prelude::*;

verus! {

/// Whether `y` is a leap year of the Gregorian calendar.
pub open spec fn spec_is_leap_year(y: int) -> bool {
    y % 4 == 0 && (y % 100 != 0 || y % 400 == 0)
}

/// The number of days of `month` in year `y`.
pub open spec fn spec_days_in_month(y: int, month: int) -> int {
    if month == 2 {
        if spec_is_leap_year(y) {
            29
        } else {
            28
        }
    } else if month == 4 || month == 6 || month == 9 || month == 11 {
        30
    } else {
        31
    }
}

/// Whether `year` is a leap year. Year zero does not exist.
pub fn is_leap_year(year: u32) -> (r: bool)
    requires
        year >= 1,
    ensures
        r == spec_is_leap_year(year as int),
{
    year % 4 == 0 && (year % 100 != 0 || year % 400 == 0)
}

/// The number of days of `month` (1 through 12) in `year`.
pub fn num_days_in_month(year: u32, month: u32) -> (r: u32)
    requires
        year >= 1,
        1 <= month <= 12,
    ensures
        r == spec_days_in_month(year as int, month as int),
{
    if month == 2 {
        if is_leap_year(year) {
            29
        } else {
            28
        }
    } else if month == 4 || month == 6 || month == 9 || month == 11 {
        30
    } else {
        31
    }
}

/// The English name of `month` (1 through 12).
pub fn month_name(month: u32) -> (r: &'static str)
    requires
        1 <= month <= 12,
    ensures
        month == 1 ==> r@ == "January"@,
        month == 2 ==> r@ == "February"@,
        month == 3 ==> r@ == "Mach"@,
        month == 4 ==> r@ == "April"@,
        month == 5 ==> r@ == "May"@,
        month == 6 ==> r@ == "June"@,
        month == 7 ==> r@ == "July"@,
        month == 8 ==> r@ == "August"@,
        month == 9 ==> r@ == "September"@,
        month == 10 ==> r@ == "October"@,
        month == 11 ==> r@ == "November"@,
        month == 12 ==> r@ == "December"@,
{
    match month {
        1 => "January",
        2 => "February",
        3 => "Mach",
        4 => "April",
        5 => "May",
        6 => "June",
        7 => "July",
        8 => "August",
        9 => "September",
        10 => "October",
        11 => "November",
        _ => "December",
    }
}

} // verus!
