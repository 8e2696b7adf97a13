use env_monitor::calendar::civil_from_days;
use env_monitor::rtc::{datetime_from_local_secs, datetime_from_unix, DateTime};

fn dt(year: u16, month: u8, day: u8, hour: u8, minute: u8, second: u8) -> DateTime {
    DateTime { year, month, day, hour, minute, second }
}

#[test]
fn epoch_day_is_first_of_january_1970() {
    assert_eq!(civil_from_days(0), (1970, 1, 1));
}

#[test]
fn day_before_epoch_is_last_of_1969() {
    assert_eq!(civil_from_days(-1), (1969, 12, 31));
}

#[test]
fn leap_day_of_2000() {
    assert_eq!(civil_from_days(11016), (2000, 2, 29));
    assert_eq!(civil_from_days(11017), (2000, 3, 1));
}

#[test]
fn century_years_that_are_not_leap() {
    // 1900-02-28 is day -25509; the next day is March 1st.
    assert_eq!(civil_from_days(-25509), (1900, 2, 28));
    assert_eq!(civil_from_days(-25508), (1900, 3, 1));
}

#[test]
fn start_of_the_march_based_year_zero() {
    assert_eq!(civil_from_days(-719468), (0, 3, 1));
    assert_eq!(civil_from_days(-719469), (0, 2, 29));
}

#[test]
fn consecutive_days_are_consecutive_dates() {
    let mut prev = civil_from_days(-800);
    let mut day = -799i64;
    while day < 800 {
        let cur = civil_from_days(day);
        let next_in_month = (prev.0, prev.1, prev.2 + 1);
        let next_month = if prev.1 == 12 { (prev.0 + 1, 1, 1) } else { (prev.0, prev.1 + 1, 1) };
        assert!(cur == next_in_month || cur == next_month, "day {}", day);
        prev = cur;
        day += 1;
    }
}

#[test]
fn local_time_of_the_unix_epoch() {
    assert_eq!(datetime_from_unix(0), dt(1970, 1, 1, 3, 0, 0));
}

#[test]
fn local_time_of_a_recent_timestamp() {
    assert_eq!(datetime_from_unix(1_700_000_000), dt(2023, 11, 15, 1, 13, 20));
}

#[test]
fn timestamps_above_i64_max_wrap_to_before_the_epoch() {
    // u64::MAX taken as an i64 is -1 s, i.e. 02:59:59 local time.
    assert_eq!(datetime_from_unix(u64::MAX), dt(1970, 1, 1, 2, 59, 59));
}

#[test]
fn negative_local_seconds() {
    assert_eq!(datetime_from_local_secs(-1), dt(1969, 12, 31, 23, 59, 59));
}

#[test]
fn last_second_of_year_9999() {
    assert_eq!(datetime_from_local_secs(253_402_300_799), dt(9999, 12, 31, 23, 59, 59));
}

#[test]
fn years_are_kept_modulo_2_pow_16() {
    assert_eq!(datetime_from_local_secs(i64::MAX), dt(32548, 12, 4, 15, 30, 7));
    assert_eq!(datetime_from_local_secs(i64::MIN), dt(36927, 1, 27, 8, 29, 52));
}
