use tasklog::duration::get_duration;
use tasklog::duration::parse_clock_time;
use tasklog::duration::DurationError;

#[test]
fn duration_forty_five_minutes() {
    assert_eq!(get_duration("09:00", "09:45").unwrap(), "45");
}

#[test]
fn duration_negative_when_end_earlier() {
    assert_eq!(get_duration("09:00", "08:00").unwrap(), "-60");
}

#[test]
fn duration_zero() {
    assert_eq!(get_duration("08:00", "08:00").unwrap(), "0");
}

#[test]
fn duration_across_hours() {
    assert_eq!(get_duration("09:30", "11:05").unwrap(), "95");
}

#[test]
fn duration_no_day_wrap() {
    // crossing midnight is not corrected: the difference stays negative
    assert_eq!(get_duration("23:30", "00:15").unwrap(), "-1395");
}

#[test]
fn duration_rejects_short_time() {
    assert_eq!(get_duration("9:00", "10:00").unwrap_err(), DurationError::MalformedTime);
}

#[test]
fn duration_rejects_letters() {
    assert_eq!(get_duration("ab:cd", "10:00").unwrap_err(), DurationError::MalformedTime);
}

#[test]
fn duration_rejects_bad_end() {
    assert_eq!(get_duration("10:00", "oops!").unwrap_err(), DurationError::MalformedTime);
}

#[test]
fn duration_rejects_hour_out_of_range() {
    assert_eq!(get_duration("24:00", "10:00").unwrap_err(), DurationError::MalformedTime);
}

#[test]
fn duration_rejects_minute_out_of_range() {
    assert_eq!(get_duration("10:60", "11:00").unwrap_err(), DurationError::MalformedTime);
}

#[test]
fn duration_rejects_wrong_separator() {
    assert_eq!(get_duration("10-30", "11:00").unwrap_err(), DurationError::MalformedTime);
}

#[test]
fn parse_clock_time_minutes_since_midnight() {
    assert_eq!(parse_clock_time("00:00"), Some(0));
    assert_eq!(parse_clock_time("01:05"), Some(65));
    assert_eq!(parse_clock_time("23:59"), Some(1439));
}

#[test]
fn parse_clock_time_rejects_malformed() {
    assert_eq!(parse_clock_time(""), None);
    assert_eq!(parse_clock_time("12:3"), None);
    assert_eq!(parse_clock_time("12:345"), None);
    assert_eq!(parse_clock_time("1a:30"), None);
}
