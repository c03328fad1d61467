use piscine::time::{Time, TimeParseError};

#[test]
fn reads_valid_times() {
    assert_eq!(
        Time::parse_time("12:20"),
        Ok(Time {
            hours: 12,
            minutes: 20
        })
    );
    assert_eq!(
        Time::parse_time("15:14"),
        Ok(Time {
            hours: 15,
            minutes: 14
        })
    );
}

#[test]
fn rejects_malformed_times() {
    assert_eq!(Time::parse_time("12.20"), Err(TimeParseError::MissingColon));
    assert_eq!(Time::parse_time("12:2"), Err(TimeParseError::InvalidLength));
    assert_eq!(Time::parse_time("12:2a"), Err(TimeParseError::InvalidNumber));
    assert_eq!(Time::parse_time("72:20"), Err(TimeParseError::InvalidNumber));
    assert_eq!(Time::parse_time("12:61"), Err(TimeParseError::InvalidNumber));
}

#[test]
fn parses_through_from_str() {
    let t: Time = "08:05".parse().unwrap();
    assert_eq!(
        t,
        Time {
            hours: 8,
            minutes: 5
        }
    );
    assert!("8:05".parse::<Time>().is_err());
}
