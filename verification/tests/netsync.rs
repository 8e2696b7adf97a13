use env_monitor::netsync::{
    join_retry_after, ntp_request, ntp_unix_from_reply, JOIN_RETRY_SECS, NTP_SERVER, NTP_UNIX_OFFSET,
};

fn reply_with_seconds(secs: u32) -> [u8; 48] {
    let mut r = [0u8; 48];
    r[40..44].copy_from_slice(&secs.to_be_bytes());
    r
}

#[test]
fn request_is_a_version_3_client_packet() {
    let r = ntp_request();
    assert_eq!(r[0], 0x1B);
    assert!(r[1..].iter().all(|&b| b == 0));
    assert_eq!(NTP_SERVER, (162, 159, 200, 1));
}

#[test]
fn reply_gives_unix_seconds() {
    let r = reply_with_seconds(3_908_988_800);
    assert_eq!(ntp_unix_from_reply(&r, 48), Some(1_700_000_000));
}

#[test]
fn reply_bytes_are_big_endian() {
    let mut r = [0u8; 48];
    r[40] = 0x83;
    r[41] = 0xAA;
    r[42] = 0x7E;
    r[43] = 0x81;
    assert_eq!(ntp_unix_from_reply(&r, 48), Some(0x83AA_7E81 - NTP_UNIX_OFFSET));
}

#[test]
fn short_reply_is_refused() {
    let r = reply_with_seconds(3_908_988_800);
    assert_eq!(ntp_unix_from_reply(&r, 47), None);
    assert_eq!(ntp_unix_from_reply(&r, 0), None);
}

#[test]
fn seconds_before_1970_give_zero() {
    let r = reply_with_seconds(1_000);
    assert_eq!(ntp_unix_from_reply(&r, 48), Some(0));
}

#[test]
fn a_failed_join_is_retried_after_two_seconds() {
    assert_eq!(join_retry_after(false), Some(2));
    assert_eq!(join_retry_after(true), None);
    assert_eq!(JOIN_RETRY_SECS, 2);
}
