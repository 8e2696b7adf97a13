use env_monitor::rtc::{
    datetime_from_unix, now_datetime, now_datetime_at, now_datetime_checked_at, now_unix,
    now_unix_at, now_unix_checked_at, set_synced_time, set_synced_time_at, try_now_datetime,
    try_now_unix, unix_from_local_str, DateTime, SyncedClock, TimeOverflow,
};

#[test]
fn unsynced_clock_has_no_time() {
    let clock = SyncedClock::new();
    assert_eq!(now_unix_at(&clock, 123_456), None);
    assert_eq!(now_datetime_at(&clock, 123_456), None);
    assert_eq!(now_unix(&clock), None);
    assert_eq!(now_datetime(&clock), None);
}

#[test]
fn synced_clock_adds_whole_elapsed_seconds() {
    let mut clock = SyncedClock::new();
    set_synced_time_at(&mut clock, 1000, 5000);
    assert_eq!(now_unix_at(&clock, 5000), Some(1000));
    assert_eq!(now_unix_at(&clock, 5999), Some(1000));
    assert_eq!(now_unix_at(&clock, 7999), Some(1002));
}

#[test]
fn uptime_before_the_sync_reads_the_sync_time() {
    let mut clock = SyncedClock::new();
    set_synced_time_at(&mut clock, 1000, 5000);
    assert_eq!(now_unix_at(&clock, 4000), Some(1000));
}

#[test]
fn sync_to_zero_counts_as_unsynced() {
    let mut clock = SyncedClock::new();
    set_synced_time_at(&mut clock, 0, 5000);
    assert_eq!(now_unix_at(&clock, 9000), None);
}

#[test]
fn synced_clock_gives_local_date() {
    let mut clock = SyncedClock::new();
    set_synced_time_at(&mut clock, 1_700_000_000, 0);
    assert_eq!(
        now_datetime_at(&clock, 60_000),
        Some(DateTime { year: 2023, month: 11, day: 15, hour: 1, minute: 14, second: 20 })
    );
}

#[test]
fn clock_synced_now_reads_the_sync_time_or_later() {
    let mut clock = SyncedClock::new();
    set_synced_time(&mut clock, 1_700_000_000);
    assert_eq!(clock.synced_unix, 1_700_000_000);
    let t = now_unix(&clock).unwrap();
    assert!(t >= 1_700_000_000 && t < 1_700_000_000 + 3600);
    let d = now_datetime(&clock).unwrap();
    assert_eq!((d.year, d.month), (2023, 11));
}

#[test]
fn reads_back_a_logged_local_time() {
    assert_eq!(unix_from_local_str(b"15-11-2023", b"01:13:20"), Some(1_700_000_000));
    assert_eq!(unix_from_local_str(b"01-01-1970", b"03:00:00"), Some(0));
}

#[test]
fn local_time_before_the_epoch_has_no_unix_time() {
    assert_eq!(unix_from_local_str(b"01-01-1970", b"02:59:59"), None);
}

#[test]
fn rejects_dates_that_do_not_exist() {
    assert_eq!(unix_from_local_str(b"29-02-2023", b"00:00:00"), None);
    assert!(unix_from_local_str(b"29-02-2024", b"00:00:00").is_some());
    assert_eq!(unix_from_local_str(b"00-01-2024", b"00:00:00"), None);
    assert_eq!(unix_from_local_str(b"31-04-2024", b"00:00:00"), None);
    assert_eq!(unix_from_local_str(b"01-13-2024", b"00:00:00"), None);
}

#[test]
fn rejects_times_out_of_range() {
    assert_eq!(unix_from_local_str(b"01-01-2024", b"24:00:00"), None);
    assert_eq!(unix_from_local_str(b"01-01-2024", b"23:60:00"), None);
    assert_eq!(unix_from_local_str(b"01-01-2024", b"23:59:60"), None);
}

#[test]
fn rejects_malformed_fields() {
    assert_eq!(unix_from_local_str(b"01/01/2024", b"00:00:00"), None);
    assert_eq!(unix_from_local_str(b"1-01-2024", b"00:00:00"), None);
    assert_eq!(unix_from_local_str(b"01-01-2024", b"00-00-00"), None);
    assert_eq!(unix_from_local_str(b"0a-01-2024", b"00:00:00"), None);
    assert_eq!(unix_from_local_str(b"01-01-2024", b"00:00:0x"), None);
    assert_eq!(unix_from_local_str(b"01-01-2024 ", b"00:00:00"), None);
}

#[test]
fn clock_never_runs_backwards() {
    let mut clock = SyncedClock::new();
    set_synced_time_at(&mut clock, 500, 10_000);
    let mut last = 0u64;
    for t in (0..40_000u64).step_by(250) {
        let v = now_unix_at(&clock, t).unwrap();
        assert!(v >= last);
        last = v;
    }
    assert_eq!(last, 500 + (39_750 - 10_000) / 1000);
}

#[test]
fn checked_time_reports_overflow_at_the_uptime_read() {
    let clock = SyncedClock { synced_unix: u64::MAX - 1, synced_uptime_ms: 0 };
    assert_eq!(now_unix_checked_at(&clock, 999), Ok(Some(u64::MAX - 1)));
    assert_eq!(now_unix_checked_at(&clock, 1_999), Ok(Some(u64::MAX)));
    assert_eq!(now_unix_checked_at(&clock, 2_000), Err(TimeOverflow));
    assert_eq!(now_unix_checked_at(&SyncedClock::new(), u64::MAX), Ok(None));
}

#[test]
fn checked_local_time_reports_i64_overflow() {
    let clock = SyncedClock { synced_unix: i64::MAX as u64 - 10_800, synced_uptime_ms: 0 };
    assert!(matches!(now_datetime_checked_at(&clock, 0), Ok(Some(_))));
    assert_eq!(now_datetime_checked_at(&clock, 1_000), Err(TimeOverflow));
    let wrapped = SyncedClock { synced_unix: u64::MAX, synced_uptime_ms: 0 };
    assert_eq!(
        now_datetime_checked_at(&wrapped, 0),
        Ok(Some(DateTime { year: 1970, month: 1, day: 1, hour: 2, minute: 59, second: 59 }))
    );
}

#[test]
fn try_reads_of_the_clock() {
    assert_eq!(try_now_unix(&SyncedClock::new()), Ok(None));
    assert_eq!(try_now_datetime(&SyncedClock::new()), Ok(None));
    let mut clock = SyncedClock::new();
    set_synced_time(&mut clock, 1_700_000_000);
    let t = try_now_unix(&clock).unwrap().unwrap();
    assert!(t >= 1_700_000_000);
    assert_eq!(try_now_datetime(&clock).unwrap().unwrap().year, 2023);
}

#[test]
fn local_time_grows_with_unix_time() {
    let key = |d: DateTime| (d.year, d.month, d.day, d.hour, d.minute, d.second);
    let mut prev = key(datetime_from_unix(0));
    for u in (1..200_000_000u64).step_by(9_999_991) {
        let cur = key(datetime_from_unix(u));
        assert!(prev < cur);
        prev = cur;
    }
    assert!(key(datetime_from_unix(253_402_289_998)) < key(datetime_from_unix(253_402_289_999)));
}
