//! Reading a wall-clock time out of an `HH:MM` string.

use vstd::prelude::*;
use vstd::string::StringSliceAdditionalSpecFns;

verus! {

/// A time of day, to the minute.
#[derive(Debug, Clone, Copy, PartialEq, Eq, Structural)]
pub struct Time {
    /// Hours.
    pub hours: u32,
    /// Minutes.
    pub minutes: u32,
}

/// Why an `HH:MM` string was turned down.
#[derive(Debug, Clone, Copy, PartialEq, Eq, Structural)]
pub enum TimeParseError {
    /// The third byte is not a colon.
    MissingColon,
    /// The text is not exactly five bytes long.
    InvalidLength,
    /// A digit is missing, or a field is sixty or more.
    InvalidNumber,
}

/// Whether `b` is an ASCII decimal digit.
pub open spec fn is_digit_byte(b: u8) -> bool {
    48 <= b <= 57
}

/// The value of the two-digit number written at `i`.
pub open spec fn two_digits(s: Seq<u8>, i: int) -> int {
    (s[i] - 48) * 10 + (s[i + 1] - 48)
}

impl Time {
    /// Reads a time of day from a five-byte `HH:MM` string: two digits,
    /// a colon, two digits, each field below sixty.
    pub fn parse_time(s: &str) -> (r: Result<Time, TimeParseError>)
        ensures
            ({
                let b = s.spec_bytes();
                if b.len() != 5 {
                    r == Err::<Time, TimeParseError>(TimeParseError::InvalidLength)
                } else if b[2] != 58 {
                    r == Err::<Time, TimeParseError>(TimeParseError::MissingColon)
                } else if !is_digit_byte(b[0]) || !is_digit_byte(b[1]) || (two_digits(b, 0) >= 60)
                    || !is_digit_byte(b[3]) || !is_digit_byte(b[4]) || (two_digits(b, 3) >= 60) {
                    r == Err::<Time, TimeParseError>(TimeParseError::InvalidNumber)
                } else {
                    r == Ok::<Time, TimeParseError>(
                        Time { hours: two_digits(b, 0) as u32, minutes: two_digits(b, 3) as u32 },
                    )
                }
            }),
    {
        let bytes = s.as_bytes();

        if bytes.len() != 5 {
            return Err(TimeParseError::InvalidLength);
        }

        if bytes[2] != 58 {
            return Err(TimeParseError::MissingColon);
        }

        if bytes[0] < 48 || bytes[0] > 57 || bytes[1] < 48 || bytes[1] > 57 {
            return Err(TimeParseError::InvalidNumber);
        }

        let hours = ((bytes[0] - 48) as u32) * 10 + (bytes[1] - 48) as u32;
        if hours >= 60 {
            return Err(TimeParseError::InvalidNumber);
        }

        if bytes[3] < 48 || bytes[3] > 57 || bytes[4] < 48 || bytes[4] > 57 {
            return Err(TimeParseError::InvalidNumber);
        }

        let minutes = ((bytes[3] - 48) as u32) * 10 + (bytes[4] - 48) as u32;
        if minutes >= 60 {
            return Err(TimeParseError::InvalidNumber);
        }

        Ok(Time { hours, minutes })
    }
}

impl core::str::FromStr for Time {
    type Err = TimeParseError;

    /// Reads a time of day, as [`Time::parse_time`] does.
    fn from_str(s: &str) -> Result<Time, TimeParseError> {
        Time::parse_time(s)
    }
}

} // verus!
