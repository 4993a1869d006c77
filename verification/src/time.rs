//! Wall-clock time of day at minute resolution, and its `HH:MM` text form.

use vstd::prelude::*;

verus! {

/// Error returned when a time-of-day string is not of the form `HH:MM`
/// with `HH` in `00..=23` and `MM` in `00..=59`.
#[derive(Clone, Copy, Debug, PartialEq, Eq, Structural)]
pub struct ClockParseError;

/// Wall-clock time of day: hours in `0..=23`, minutes in `0..=59`.
/// Ordered by total minutes since midnight.
#[derive(Clone, Copy, Debug, PartialEq, Eq, Structural)]
pub struct SimpleTime {
    pub hours: u32,
    pub minutes: u32,
}

impl SimpleTime {
    /// Total minutes since midnight; the value by which times are ordered.
    pub open spec fn spec_total(self) -> int {
        self.hours * 60 + self.minutes
    }

    /// The fields are in range for a time of day.
    pub open spec fn valid(self) -> bool {
        self.hours <= 23 && self.minutes <= 59
    }

    pub fn new(hours: u32, minutes: u32) -> (t: SimpleTime)
        requires
            hours <= 23,
            minutes <= 59,
        ensures
            t.valid(),
            t.hours == hours,
            t.minutes == minutes,
    {
        SimpleTime { hours, minutes }
    }

    /// Total minutes since midnight, as an executable value.
    pub fn total_minutes(&self) -> (m: u32)
        requires
            self.valid(),
        ensures
            m == self.spec_total(),
            m <= 1439,
    {
        self.hours * 60 + self.minutes
    }
}

/// Whether `c` is an ASCII decimal digit.
pub open spec fn is_digit(c: char) -> bool {
    48 <= c as int <= 57
}

/// The numeric value of an ASCII decimal digit.
pub open spec fn digit_val(c: char) -> int {
    c as int - 48
}

/// What a time-of-day string means: exactly five characters `HH:MM`,
/// zero-padded 24-hour form, with the hour and minute in range.
pub open spec fn spec_parse_time(s: Seq<char>) -> Option<SimpleTime> {
    if s.len() == 5 && s[2] == ':' && is_digit(s[0]) && is_digit(s[1]) && is_digit(s[3])
        && is_digit(s[4]) {
        let h = digit_val(s[0]) * 10 + digit_val(s[1]);
        let m = digit_val(s[3]) * 10 + digit_val(s[4]);
        if h <= 23 && m <= 59 {
            Some(SimpleTime { hours: h as u32, minutes: m as u32 })
        } else {
            None
        }
    } else {
        None
    }
}

fn parse_digit(c: char) -> (r: Option<u32>)
    ensures
        match r {
            Some(v) => is_digit(c) && v == digit_val(c) && v <= 9,
            None => !is_digit(c),
        },
{
    let v = c as u32;
    if 48 <= v && v <= 57 {
        Some(v - 48)
    } else {
        None
    }
}

impl SimpleTime {
    /// Parses a zero-padded 24-hour `HH:MM` string.
    pub fn parse(s: &str) -> (r: Result<SimpleTime, ClockParseError>)
        ensures
            match r {
                Ok(t) => spec_parse_time(s@) == Some(t) && t.valid(),
                Err(_) => spec_parse_time(s@) is None,
            },
    {
        if s.unicode_len() != 5 {
            return Err(ClockParseError);
        }
        if s.get_char(2) != ':' {
            return Err(ClockParseError);
        }
        let d0 = parse_digit(s.get_char(0));
        let d1 = parse_digit(s.get_char(1));
        let d3 = parse_digit(s.get_char(3));
        let d4 = parse_digit(s.get_char(4));
        match (d0, d1, d3, d4) {
            (Some(a), Some(b), Some(c), Some(d)) => {
                let h = a * 10 + b;
                let m = c * 10 + d;
                if h <= 23 && m <= 59 {
                    Ok(SimpleTime { hours: h, minutes: m })
                } else {
                    Err(ClockParseError)
                }
            },
            _ => Err(ClockParseError),
        }
    }
}

} // verus!
