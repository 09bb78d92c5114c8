//! The duration calculation used at report time: elapsed minutes between two
//! wall-clock strings, formatted back as decimal text.

use vstd::prelude::*;

use crate::num::dec_rep;
use crate::num::digit_val;
use crate::num::i32_to_dec_string;
use crate::num::is_digit_char;

verus! {

/// The hour pair of an `HH:MM` string.
pub open spec fn clock_hour(s: Seq<char>) -> int {
    digit_val(s[0]) * 10 + digit_val(s[1])
}

/// The minute pair of an `HH:MM` string.
pub open spec fn clock_minute(s: Seq<char>) -> int {
    digit_val(s[3]) * 10 + digit_val(s[4])
}

/// A wall-clock time written `HH:MM`, 24-hour: exactly five characters, two
/// digit pairs around an ASCII colon, hours below 24, minutes below 60.
pub open spec fn is_clock_time(s: Seq<char>) -> bool {
    &&& s.len() == 5
    &&& is_digit_char(s[0])
    &&& is_digit_char(s[1])
    &&& s[2] == ':'
    &&& is_digit_char(s[3])
    &&& is_digit_char(s[4])
    &&& clock_hour(s) <= 23
    &&& clock_minute(s) <= 59
}

/// Minutes since midnight.
pub open spec fn minutes_of_day(s: Seq<char>) -> int {
    clock_hour(s) * 60 + clock_minute(s)
}

/// Read an `HH:MM` string as minutes since midnight.
pub fn parse_clock_time(s: &str) -> (r: Option<u32>)
    ensures
        match r {
            Some(m) => is_clock_time(s@) && m == minutes_of_day(s@),
            None => !is_clock_time(s@),
        },
{
    let n = s.unicode_len();
    if n != 5 {
        return None;
    }
    if s.get_char(2) != ':' {
        return None;
    }
    let v0 = s.get_char(0) as u32;
    let v1 = s.get_char(1) as u32;
    let v3 = s.get_char(3) as u32;
    let v4 = s.get_char(4) as u32;
    if v0 < 48 || v0 > 57 || v1 < 48 || v1 > 57 || v3 < 48 || v3 > 57 || v4 < 48 || v4 > 57 {
        return None;
    }
    let hour = (v0 - 48) * 10 + (v1 - 48);
    let minute = (v3 - 48) * 10 + (v4 - 48);
    if hour > 23 || minute > 59 {
        return None;
    }
    Some(hour * 60 + minute)
}

/// The one failure of the duration calculation: an input that is not a
/// wall-clock time.
#[derive(PartialEq, Eq, Structural, Clone, Copy, Debug)]
pub enum DurationError {
    MalformedTime,
}

/// Elapsed minutes from `log_start` to `log_end`, as decimal text. The
/// difference is a plain subtraction of minutes since midnight: an end
/// earlier than the start yields a negative count, and no day wrap is
/// applied. An input that is not a valid `HH:MM` time is a fatal error for
/// this call.
pub fn get_duration(log_start: &str, log_end: &str) -> (r: Result<String, DurationError>)
    ensures
        match r {
            Ok(d) => is_clock_time(log_start@) && is_clock_time(log_end@) && d@ == dec_rep(
                minutes_of_day(log_end@) - minutes_of_day(log_start@),
            ),
            Err(e) => !(is_clock_time(log_start@) && is_clock_time(log_end@)) && e
                == DurationError::MalformedTime,
        },
{
    let sm = match parse_clock_time(log_start) {
        Some(m) => m,
        None => {
            return Err(DurationError::MalformedTime);
        },
    };
    let em = match parse_clock_time(log_end) {
        Some(m) => m,
        None => {
            return Err(DurationError::MalformedTime);
        },
    };
    let diff: i32 = em as i32 - sm as i32;
    Ok(i32_to_dec_string(diff))
}

} // verus!
