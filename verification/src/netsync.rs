//! Time sync over SNTP: the request the station sends and how it reads the
//! server's answer.
use vstd::prelude::*;

verus! {

/// Seconds from the NTP epoch (1900-01-01) to the Unix epoch (1970-01-01).
pub const NTP_UNIX_OFFSET: u64 = 2_208_988_800;

/// IPv4 address of the time server.
pub const NTP_SERVER: (u8, u8, u8, u8) = (162, 159, 200, 1);

/// UDP port of the time server.
pub const NTP_PORT: u16 = 123;

/// Seconds to wait before joining the Wi-Fi network again after a failed attempt.
pub const JOIN_RETRY_SECS: u64 = 2;

/// After an attempt to join the network: `None` when it succeeded, else the
/// seconds to wait before the next attempt.
pub fn join_retry_after(joined: bool) -> (r: Option<u64>)
    ensures
        r == (if joined { None } else { Some(JOIN_RETRY_SECS) }),
{
    if joined {
        None
    } else {
        Some(JOIN_RETRY_SECS)
    }
}

/// Length of an SNTP packet without extensions.
pub const NTP_PACKET_LEN: usize = 48;

/// The SNTP request: first byte 0x1B (no leap warning, version 3, client
/// mode), every other byte zero.
pub fn ntp_request() -> (r: [u8; 48])
    ensures
        r@.len() == 48,
        r@[0] == 0x1Bu8,
        forall|i: int| 1 <= i < 48 ==> r@[i] == 0u8,
{
    let mut request = [0u8; 48];
    request[0] = 0x1B;
    request
}

/// The number whose big-endian bytes are `b`.
fn u32_from_be_bytes(b: [u8; 4]) -> (r: u32)
    ensures
        r == b@[0] * 0x100_0000 + b@[1] * 0x1_0000 + b@[2] * 0x100 + b@[3],
{
    (b[0] as u32) * 0x100_0000 + (b[1] as u32) * 0x1_0000 + (b[2] as u32) * 0x100 + b[3] as u32
}

/// The transmit timestamp's seconds of an SNTP reply: big-endian bytes 40..44.
pub open spec fn reply_seconds(reply: Seq<u8>) -> int {
    reply[40] * 0x100_0000 + reply[41] * 0x1_0000 + reply[42] * 0x100 + reply[43]
}

/// The Unix time that an SNTP reply of `n` received bytes gives: `None` for a
/// short reply, else the transmit seconds less the epoch offset, stopping at 0.
pub open spec fn ntp_unix_spec(reply: Seq<u8>, n: int) -> Option<int> {
    if n < 48 {
        None
    } else if reply_seconds(reply) >= NTP_UNIX_OFFSET {
        Some(reply_seconds(reply) - NTP_UNIX_OFFSET)
    } else {
        Some(0)
    }
}

/// Reads the Unix time from an SNTP reply of which `n` bytes were received.
pub fn ntp_unix_from_reply(reply: &[u8; 48], n: usize) -> (r: Option<u64>)
    ensures
        r matches Some(v) ==> ntp_unix_spec(reply@, n as int) == Some(v as int),
        r is None ==> ntp_unix_spec(reply@, n as int) is None,
        r is None <==> n < 48,
        r matches Some(v) ==> ({
            let secs = reply@[40] * 0x100_0000 + reply@[41] * 0x1_0000 + reply@[42] * 0x100
                + reply@[43];
            v == (if secs >= 2_208_988_800 { secs - 2_208_988_800 } else { 0 })
        }),
{
    if n < NTP_PACKET_LEN {
        return None;
    }
    let secs = u32_from_be_bytes([reply[40], reply[41], reply[42], reply[43]]) as u64;
    Some(secs.saturating_sub(NTP_UNIX_OFFSET))
}

/// A reply of at least 48 bytes always gives a time, and that time is read
/// from the transmit seconds alone: two such replies that agree on bytes
/// 40..44 give the same time, whatever their other bytes (stratum, mode,
/// other timestamps) hold; the time plus the 1900-1970 offset is the transmit
/// seconds, unless they lie before 1970, which gives 0.
pub proof fn lemma_ntp_reply_reads_transmit_seconds(a: Seq<u8>, b: Seq<u8>, n: int)
    requires
        a.len() == 48,
        b.len() == 48,
        n >= 48,
        a.subrange(40, 44) == b.subrange(40, 44),
    ensures
        ntp_unix_spec(a, n) is Some,
        ntp_unix_spec(a, n) == ntp_unix_spec(b, n),
        ({
            let secs = a[40] * 0x100_0000 + a[41] * 0x1_0000 + a[42] * 0x100 + a[43];
            &&& secs >= 2_208_988_800 ==> ntp_unix_spec(a, n).unwrap() + 2_208_988_800 == secs
            &&& secs < 2_208_988_800 ==> ntp_unix_spec(a, n).unwrap() == 0
        }),
{
    assert(a[40] == a.subrange(40, 44)[0]);
    assert(a[41] == a.subrange(40, 44)[1]);
    assert(a[42] == a.subrange(40, 44)[2]);
    assert(a[43] == a.subrange(40, 44)[3]);
    assert(b[40] == b.subrange(40, 44)[0]);
    assert(b[41] == b.subrange(40, 44)[1]);
    assert(b[42] == b.subrange(40, 44)[2]);
    assert(b[43] == b.subrange(40, 44)[3]);
}

/// A reply shorter than 48 bytes gives no time, whatever it holds.
pub proof fn lemma_short_ntp_reply_gives_none(reply: Seq<u8>, n: int)
    requires
        n < 48,
    ensures
        ntp_unix_spec(reply, n) is None,
{
}

} // verus!
