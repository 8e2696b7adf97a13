use env_monitor::rtc::{datetime_from_unix, unix_from_local_str, DateTime};
use env_monitor::sdcard::{
    card_state_after_write, format_log_timestamp, line_sample, tail_window_start, CardNotice,
    DummyTimesource, LineReader, CSV_HEADER, LOG_FILE,
};
use env_monitor::daily_history::{half_hour_key, BUCKETS};

#[test]
fn log_file_and_header() {
    assert_eq!(LOG_FILE, "TEMPLOG.CSV");
    assert_eq!(CSV_HEADER, "Date,Time,TemperatureC,PressureHPa\n");
    assert_eq!(BUCKETS, 48);
}

#[test]
fn formats_the_timestamp_fields() {
    let dt = DateTime { year: 2023, month: 11, day: 5, hour: 1, minute: 3, second: 9 };
    assert_eq!(format_log_timestamp(&dt), b"05-11-2023,01:03:09".to_vec());
}

#[test]
fn pads_short_years_and_keeps_wide_numbers() {
    let dt = DateTime { year: 5, month: 1, day: 255, hour: 0, minute: 0, second: 100 };
    assert_eq!(format_log_timestamp(&dt), b"255-01-0005,00:00:100".to_vec());
    let dt = DateTime { year: 65535, month: 12, day: 31, hour: 23, minute: 59, second: 59 };
    assert_eq!(format_log_timestamp(&dt), b"31-12-65535,23:59:59".to_vec());
}

#[test]
fn logged_timestamp_reads_back() {
    for &u in &[0u64, 1, 59, 1_700_000_000, 951_782_400, 4_102_444_800, 253_402_289_999] {
        let text = format_log_timestamp(&datetime_from_unix(u));
        assert_eq!(text[10], b',');
        assert_eq!(unix_from_local_str(&text[..10], &text[11..]), Some(u), "unix {}", u);
    }
}

#[test]
fn logged_line_lands_in_the_current_bucket() {
    let line = b"15-11-2023,01:13:20,21.5,1013.2";
    let now_key = half_hour_key(1_700_000_000);
    assert_eq!(now_key, 944_444);
    let s = line_sample(line, now_key).unwrap();
    assert_eq!(s.bucket, 47);
    assert_eq!(s.temperature, b"21.5".to_vec());
}

#[test]
fn older_lines_land_in_earlier_buckets() {
    let line = b"15-11-2023,01:13:20,21.5,1013.2";
    let key = half_hour_key(1_700_000_000);
    assert_eq!(line_sample(line, key + 1).unwrap().bucket, 46);
    assert_eq!(line_sample(line, key + 47).unwrap().bucket, 0);
}

#[test]
fn lines_a_day_old_or_from_the_future_are_left_out() {
    let line = b"15-11-2023,01:13:20,21.5,1013.2";
    let key = half_hour_key(1_700_000_000);
    assert!(line_sample(line, key + 48).is_none());
    assert!(line_sample(line, key - 1).is_none());
}

#[test]
fn malformed_lines_are_left_out() {
    let key = half_hour_key(1_700_000_000);
    assert!(line_sample(b"15-11-2023,01:13:20", key).is_none());
    assert!(line_sample(b"15-11-2023", key).is_none());
    assert!(line_sample(b"", key).is_none());
    assert!(line_sample(b"Date,Time,TemperatureC,PressureHPa", key).is_none());
    assert!(line_sample(b"15-11-2023,01:13:20,\xff1.5,1013.2", key).is_none());
    assert!(line_sample(b"15-13-2023,01:13:20,21.5,1013.2", key).is_none());
}

#[test]
fn temperature_field_is_passed_on_as_written() {
    let key = half_hour_key(1_700_000_000);
    let s = line_sample(b"15-11-2023,01:13:20, 21.5 ,1013.2", key).unwrap();
    assert_eq!(s.temperature, b" 21.5 ".to_vec());
    let s = line_sample(b"15-11-2023,01:13:20,,1013.2", key).unwrap();
    assert_eq!(s.temperature, Vec::<u8>::new());
}

#[test]
fn lines_cut_before_the_pressure_are_left_out() {
    assert!(line_sample(b"01-01-2024,01:30:00,21", 946_701).is_none());
    assert!(line_sample(b"01-01-2024,01:30:00,21,", 946_701).is_some());
    assert!(line_sample(b"15-11-2023,01:13:20,", half_hour_key(1_700_000_000)).is_none());
}

#[test]
fn distances_beyond_32_bits_are_left_out() {
    let line = b"15-11-2023,01:13:20,21.5,1013.2";
    let key = half_hour_key(1_700_000_000);
    assert!(line_sample(line, key + (1u64 << 32)).is_none());
    assert!(line_sample(line, key + (1u64 << 32) + 3).is_none());
}

#[test]
fn reader_splits_lines_and_drops_carriage_returns() {
    let mut r = LineReader::new(false);
    let lines = r.feed(b"abc\r\ndef\nunfinished");
    assert_eq!(lines, vec![b"abc".to_vec(), b"def".to_vec()]);
    let lines = r.feed(b" line\n");
    assert_eq!(lines, vec![b"unfinished line".to_vec()]);
}

#[test]
fn reader_skips_the_cut_first_line() {
    let mut r = LineReader::new(true);
    let lines = r.feed(b"tial line\nwhole line\n");
    assert_eq!(lines, vec![b"whole line".to_vec()]);
}

#[test]
fn reader_cuts_long_lines() {
    let mut r = LineReader::new(false);
    let mut bytes = vec![b'x'; 100];
    bytes.push(b'\n');
    bytes.extend_from_slice(b"ok\n");
    let lines = r.feed(&bytes);
    assert_eq!(lines, vec![vec![b'x'; 96], b"ok".to_vec()]);
}

#[test]
fn reader_gives_line_per_byte() {
    let mut r = LineReader::new(false);
    assert_eq!(r.push_byte(b'a'), None);
    assert_eq!(r.push_byte(b'\r'), None);
    assert_eq!(r.push_byte(b'\n'), Some(b"a".to_vec()));
    assert_eq!(r.push_byte(b'\n'), Some(Vec::new()));
}

#[test]
fn tail_window_of_short_and_long_files() {
    assert_eq!(tail_window_start(100), (0, false));
    assert_eq!(tail_window_start(3_500_000), (0, false));
    assert_eq!(tail_window_start(3_500_001), (1, true));
    assert_eq!(tail_window_start(u32::MAX), (u32::MAX - 3_500_000, true));
}

#[test]
fn card_health_changes_are_reported_once() {
    let u = card_state_after_write(true, true);
    assert!(u.card_ok && u.notice == CardNotice::Quiet && !u.reset_card);
    let u = card_state_after_write(true, false);
    assert!(!u.card_ok && u.notice == CardNotice::WriteFailed && u.reset_card);
    let u = card_state_after_write(false, false);
    assert!(!u.card_ok && u.notice == CardNotice::Quiet && u.reset_card);
    let u = card_state_after_write(false, true);
    assert!(u.card_ok && u.notice == CardNotice::Reconnected && !u.reset_card);
}

#[test]
fn files_are_stamped_with_the_fat_epoch() {
    let t = DummyTimesource::default().get_timestamp();
    assert_eq!(
        (t.year_since_1970, t.zero_indexed_month, t.zero_indexed_day, t.hours, t.minutes, t.seconds),
        (0, 0, 0, 0, 0, 0)
    );
}

#[test]
fn a_line_as_the_logger_writes_it_is_read_back() {
    let u = 1_234_567_890u64;
    let mut line = format_log_timestamp(&datetime_from_unix(u));
    line.extend_from_slice(b",-3.5,998.0");
    let key = half_hour_key(u);
    for k in 0..48u64 {
        let s = line_sample(&line, key + k).unwrap();
        assert_eq!(s.bucket, 47 - k as usize);
        assert_eq!(s.temperature, b"-3.5".to_vec());
    }
    assert!(line_sample(&line, key + 48).is_none());
}

#[test]
fn reader_gives_the_same_lines_whatever_the_chunks() {
    let text = b"first\r\nsecond line\n\nthird\npartial";
    let mut whole = LineReader::new(true);
    let all = whole.feed(text);
    let mut pieces = LineReader::new(true);
    let mut got = Vec::new();
    for chunk in text.chunks(3) {
        got.extend(pieces.feed(chunk));
    }
    assert_eq!(all, got);
    assert_eq!(all, vec![b"second line".to_vec(), Vec::new(), b"third".to_vec()]);
}

#[test]
fn crlf_and_lf_files_give_the_same_lines() {
    let mut a = LineReader::new(true);
    let mut b = LineReader::new(true);
    let la = a.feed(b"cut\r\n01-01-2024,01:30:00,21,1000\r\nx,y\r\n");
    let lb = b.feed(b"cut\n01-01-2024,01:30:00,21,1000\nx,y\n");
    assert_eq!(la, lb);
    assert_eq!(la.len(), 2);
}
