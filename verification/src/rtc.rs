//! Wall-clock time: a clock synced once to Unix seconds that then runs on the
//! uptime counter, and its conversion to a local calendar date and time.
use vstd::prelude::*;
use crate::calendar::{
    civil_from_days, civil_from_days_spec, days_before_month, days_before_year, days_from_civil,
    days_in_month, is_leap_year, is_valid_date, lemma_civil_from_days_spec_valid, lemma_civil_order,
    lemma_year_below, lemma_year_from_epoch,
};
use crate::decimal::{all_digits, digits_value, parse_digits};

verus! {

/// A calendar date and time of day.
#[derive(Clone, Copy, Debug, PartialEq, Eq, Structural)]
pub struct DateTime {
    pub year: u16,
    pub month: u8,
    pub day: u8,
    pub hour: u8,
    pub minute: u8,
    pub second: u8,
}

/// Offset of the local time zone (UTC+3) from UTC, in seconds.
pub const TZ_OFFSET_SECS: i64 = 3 * 3600;

/// Seconds per day.
pub const SECS_PER_DAY: i64 = 86_400;

/// The local date and time of `secs` seconds after 1970-01-01 00:00 local time;
/// the year is kept modulo 2^16, as a `u16` holds it.
pub open spec fn local_datetime_spec(secs: int) -> DateTime {
    let days = secs / 86400;
    let rem = secs % 86400;
    let ymd = civil_from_days_spec(days);
    DateTime {
        year: ymd.0 as u16,
        month: ymd.1 as u8,
        day: ymd.2 as u8,
        hour: (rem / 3600) as u8,
        minute: ((rem % 3600) / 60) as u8,
        second: (rem % 60) as u8,
    }
}

/// Local seconds of a Unix timestamp: the timestamp taken as an `i64`
/// (wrapping above `i64::MAX`) plus the zone offset.
pub open spec fn local_secs_of_unix(unix_secs: u64) -> int {
    (unix_secs as i64) + TZ_OFFSET_SECS
}

/// Floor division for a positive divisor, through `i64::checked_div_euclid`,
/// which cannot fail there.
fn i64_div_euclid(a: i64, b: i64) -> (q: i64)
    requires
        b > 0,
    ensures
        q == a / b,
{
    proof {
        let q = a as int / b as int;
        let r = a as int % b as int;
        vstd::arithmetic::div_mod::lemma_fundamental_div_mod(a as int, b as int);
        assert(i64::MIN <= q <= i64::MAX) by (nonlinear_arith)
            requires
                b > 0,
                a == q * b + r,
                0 <= r < b,
                i64::MIN <= a <= i64::MAX,
        {
            if q > 0 {
                assert(q * b >= q);
            } else if q < 0 {
                assert(q * b <= q);
            }
        }
    }
    a.checked_div_euclid(b).unwrap()
}

/// The remainder of floor division for a positive divisor, in `0..b`,
/// through `i64::checked_rem_euclid`, which cannot fail there.
fn i64_rem_euclid(a: i64, b: i64) -> (r: i64)
    requires
        b > 0,
    ensures
        r == a % b,
{
    a.checked_rem_euclid(b).unwrap()
}

/// The local date and time of `secs` seconds after the local epoch
/// (civil-from-days on the day number, then the time of day).
pub fn datetime_from_local_secs(secs: i64) -> (dt: DateTime)
    ensures
        dt == local_datetime_spec(secs as int),
{
    let days = i64_div_euclid(secs, SECS_PER_DAY);
    let rem = i64_rem_euclid(secs, SECS_PER_DAY);
    proof {
        vstd::arithmetic::div_mod::lemma_fundamental_div_mod(secs as int, 86400);
    }
    let hour = (rem / 3600) as u8;
    let minute = ((rem % 3600) / 60) as u8;
    let second = (rem % 60) as u8;
    let (y, month, day) = civil_from_days(days);
    let year = y as u16;
    DateTime { year, month, day, hour, minute, second }
}

/// The state of the synced clock: the Unix time set at the last sync (0 while
/// never synced) and the uptime, in milliseconds, at which it was set.
#[derive(Clone, Copy, Debug, PartialEq, Eq, Structural)]
pub struct SyncedClock {
    pub synced_unix: u64,
    pub synced_uptime_ms: u64,
}

impl SyncedClock {
    /// A clock that has not been synced yet.
    pub fn new() -> (c: SyncedClock)
        ensures
            c.synced_unix == 0,
            c.synced_uptime_ms == 0,
    {
        SyncedClock { synced_unix: 0, synced_uptime_ms: 0 }
    }
}

/// `embassy_time::Instant::now().as_millis()`: milliseconds since boot.
/// What it returns depends on when it is called, so nothing is stated of it.
#[verifier::external_body]
fn uptime_millis() -> u64 {
    embassy_time::Instant::now().as_millis()
}

/// Records a sync: `unix_secs` is the Unix time at uptime `uptime_ms`.
pub fn set_synced_time_at(clock: &mut SyncedClock, unix_secs: u64, uptime_ms: u64)
    ensures
        final(clock).synced_unix == unix_secs,
        final(clock).synced_uptime_ms == uptime_ms,
{
    clock.synced_uptime_ms = uptime_ms;
    clock.synced_unix = unix_secs;
}

/// Records a sync at the current uptime; runs once after the time server answered.
pub fn set_synced_time(clock: &mut SyncedClock, unix_secs: u64)
    ensures
        final(clock).synced_unix == unix_secs,
{
    let now_ms = uptime_millis();
    set_synced_time_at(clock, unix_secs, now_ms);
}

/// The Unix time at uptime `uptime_ms`: `None` while the clock was never synced
/// (a sync to 0 counts as none), else the synced time plus the whole seconds
/// elapsed since the sync (none if the uptime lies before it).
pub open spec fn now_unix_spec(clock: SyncedClock, uptime_ms: u64) -> Option<int> {
    if clock.synced_unix == 0 {
        None
    } else {
        let elapsed_ms: int = if uptime_ms >= clock.synced_uptime_ms {
            uptime_ms - clock.synced_uptime_ms
        } else {
            0
        };
        Some(clock.synced_unix + elapsed_ms / 1000)
    }
}

/// The sum in `now_unix_spec` fits a `u64`.
pub open spec fn now_unix_fits(clock: SyncedClock, uptime_ms: u64) -> bool {
    match now_unix_spec(clock, uptime_ms) {
        Some(v) => v <= u64::MAX,
        None => true,
    }
}

/// The Unix time at uptime `uptime_ms`.
pub fn now_unix_at(clock: &SyncedClock, uptime_ms: u64) -> (r: Option<u64>)
    requires
        now_unix_fits(*clock, uptime_ms),
    ensures
        r matches Some(v) ==> now_unix_spec(*clock, uptime_ms) == Some(v as int),
        r is None ==> now_unix_spec(*clock, uptime_ms) is None,
{
    let base = clock.synced_unix;
    if base == 0 {
        return None;
    }
    let base_ms = clock.synced_uptime_ms;
    let elapsed_ms = uptime_ms.saturating_sub(base_ms);
    Some(base + elapsed_ms / 1000)
}

/// No uptime can make `now_unix_spec` leave the `u64` range.
pub open spec fn clock_fits_always(clock: SyncedClock) -> bool {
    clock.synced_unix + (u64::MAX as int) / 1000 <= u64::MAX
}

/// The Unix time now, read from the uptime counter.
pub fn now_unix(clock: &SyncedClock) -> (r: Option<u64>)
    requires
        clock_fits_always(*clock),
    ensures
        r is None <==> clock.synced_unix == 0,
        r matches Some(v) ==> exists|t: u64| now_unix_spec(*clock, t) == Some(v as int),
{
    if clock.synced_unix == 0 {
        return None;
    }
    let now_ms = uptime_millis();
    let r = now_unix_at(clock, now_ms);
    r
}

/// The local date and time of a Unix timestamp.
pub fn datetime_from_unix(unix_secs: u64) -> (dt: DateTime)
    requires
        local_secs_of_unix(unix_secs) <= i64::MAX,
    ensures
        dt == local_datetime_spec(local_secs_of_unix(unix_secs)),
{
    let secs = unix_secs as i64 + TZ_OFFSET_SECS;
    datetime_from_local_secs(secs)
}

/// The local date and time at uptime `uptime_ms`, or `None` while not synced.
pub open spec fn now_datetime_spec(clock: SyncedClock, uptime_ms: u64) -> Option<DateTime> {
    match now_unix_spec(clock, uptime_ms) {
        Some(v) => Some(local_datetime_spec(local_secs_of_unix(v as u64))),
        None => None,
    }
}

/// The date computation of `now_datetime_spec` stays within `u64` and `i64`.
pub open spec fn now_datetime_fits(clock: SyncedClock, uptime_ms: u64) -> bool {
    match now_unix_spec(clock, uptime_ms) {
        Some(v) => v <= u64::MAX && local_secs_of_unix(v as u64) <= i64::MAX,
        None => true,
    }
}

/// The local date and time at uptime `uptime_ms`.
pub fn now_datetime_at(clock: &SyncedClock, uptime_ms: u64) -> (r: Option<DateTime>)
    requires
        now_datetime_fits(*clock, uptime_ms),
    ensures
        r == now_datetime_spec(*clock, uptime_ms),
{
    match now_unix_at(clock, uptime_ms) {
        Some(unix) => Some(datetime_from_unix(unix)),
        None => None,
    }
}

/// No uptime can make `now_datetime_spec` leave the `u64` and `i64` ranges:
/// the possible Unix times avoid the last 3 hours below `i64::MAX`.
pub open spec fn datetime_fits_always(clock: SyncedClock) -> bool {
    &&& clock_fits_always(clock)
    &&& (clock.synced_unix + (u64::MAX as int) / 1000 <= i64::MAX - TZ_OFFSET_SECS
        || clock.synced_unix > i64::MAX)
}

proof fn lemma_local_secs_fit(u: u64)
    requires
        u <= 0x7fff_ffff_ffff_ffffu64 - 10800 || u > 0x7fff_ffff_ffff_ffffu64,
    ensures
        local_secs_of_unix(u) <= i64::MAX,
{
    assert(u <= 0x7fff_ffff_ffff_ffffu64 - 10800 ==> (u as i64) == u) by (bit_vector);
    assert(u > 0x7fff_ffff_ffff_ffffu64 ==> (u as i64) < 0) by (bit_vector);
}

/// The local date and time now, or `None` while the clock was never synced.
pub fn now_datetime(clock: &SyncedClock) -> (r: Option<DateTime>)
    requires
        datetime_fits_always(*clock),
    ensures
        r is None <==> clock.synced_unix == 0,
        r matches Some(dt) ==> exists|t: u64| now_datetime_spec(*clock, t) == Some(dt),
{
    if clock.synced_unix == 0 {
        return None;
    }
    let now_ms = uptime_millis();
    proof {
        let v = now_unix_spec(*clock, now_ms).unwrap();
        assert(clock.synced_unix <= v <= clock.synced_unix + (u64::MAX as int) / 1000);
        lemma_local_secs_fit(v as u64);
    }
    now_datetime_at(clock, now_ms)
}


/// The calendar date of a log line's date field "DD-MM-YYYY", if it is one.
pub open spec fn parse_local_date(s: Seq<u8>) -> Option<(int, int, int)> {
    if s.len() == 10 && s[2] == 45u8 && s[5] == 45u8 && all_digits(s.subrange(0, 2))
        && all_digits(s.subrange(3, 5)) && all_digits(s.subrange(6, 10)) {
        let d = digits_value(s.subrange(0, 2));
        let m = digits_value(s.subrange(3, 5));
        let y = digits_value(s.subrange(6, 10));
        if is_valid_date(y, m, d) {
            Some((y, m, d))
        } else {
            None
        }
    } else {
        None
    }
}

/// The time of day of a log line's time field "HH:MM:SS", if it is one.
pub open spec fn parse_local_time(s: Seq<u8>) -> Option<(int, int, int)> {
    if s.len() == 8 && s[2] == 58u8 && s[5] == 58u8 && all_digits(s.subrange(0, 2))
        && all_digits(s.subrange(3, 5)) && all_digits(s.subrange(6, 8)) {
        let h = digits_value(s.subrange(0, 2));
        let mi = digits_value(s.subrange(3, 5));
        let sec = digits_value(s.subrange(6, 8));
        if h < 24 && mi < 60 && sec < 60 {
            Some((h, mi, sec))
        } else {
            None
        }
    } else {
        None
    }
}

/// The Unix time of a local date and time as the log writes them; `None` when
/// a field is malformed or the time lies before the Unix epoch.
pub open spec fn unix_from_local_spec(date: Seq<u8>, time: Seq<u8>) -> Option<int> {
    match (parse_local_date(date), parse_local_time(time)) {
        (Some(ymd), Some(hms)) => {
            let local = days_from_civil(ymd.0, ymd.1, ymd.2) * 86400 + hms.0 * 3600 + hms.1 * 60
                + hms.2;
            let unix = local - TZ_OFFSET_SECS;
            if unix >= 0 {
                Some(unix)
            } else {
                None
            }
        },
        _ => None,
    }
}

fn is_leap_year_exec(y: i64) -> (r: bool)
    ensures
        r == is_leap_year(y as int),
{
    (i64_rem_euclid(y, 4) == 0 && i64_rem_euclid(y, 100) != 0) || i64_rem_euclid(y, 400) == 0
}

fn days_in_month_exec(y: i64, m: i64) -> (r: i64)
    ensures
        r == days_in_month(y as int, m as int),
{
    if m == 2 {
        if is_leap_year_exec(y) { 29 } else { 28 }
    } else if m == 4 || m == 6 || m == 9 || m == 11 {
        30
    } else {
        31
    }
}

fn days_before_month_exec(y: i64, m: i64) -> (r: i64)
    requires
        1 <= m <= 12,
    ensures
        r == days_before_month(y as int, m as int),
        0 <= r <= 335,
{
    reveal_with_fuel(days_before_month, 13);
    let before_leap_day: i64 = if m == 1 {
        0
    } else if m == 2 {
        31
    } else if m == 3 {
        59
    } else if m == 4 {
        90
    } else if m == 5 {
        120
    } else if m == 6 {
        151
    } else if m == 7 {
        181
    } else if m == 8 {
        212
    } else if m == 9 {
        243
    } else if m == 10 {
        273
    } else if m == 11 {
        304
    } else {
        334
    };
    if m > 2 && is_leap_year_exec(y) {
        before_leap_day + 1
    } else {
        before_leap_day
    }
}

/// Day number, relative to 1970-01-01, of a valid date of the years 0..=9999.
fn days_from_civil_exec(y: i64, m: i64, d: i64) -> (r: i64)
    requires
        0 <= y <= 9999,
        is_valid_date(y as int, m as int, d as int),
    ensures
        r == days_from_civil(y as int, m as int, d as int),
        -800_000 <= r <= 3_000_000,
{
    let leaps = i64_div_euclid(y - 1, 4) - i64_div_euclid(y - 1, 100) + i64_div_euclid(y - 1, 400);
    assert(-1 <= leaps <= 2500);
    let leaps_1970: i64 = 492 - 19 + 4;
    let before_year = 365 * (y - 1970) + leaps - leaps_1970;
    assert(before_year == days_before_year(y as int));
    before_year + days_before_month_exec(y, m) + d - 1
}

/// The Unix time of a log line's date field "DD-MM-YYYY" and time field
/// "HH:MM:SS", both local time; `None` when a field is malformed or the time
/// lies before the Unix epoch.
pub fn unix_from_local_str(date: &[u8], time: &[u8]) -> (r: Option<u64>)
    ensures
        r matches Some(v) ==> unix_from_local_spec(date@, time@) == Some(v as int),
        r is None ==> unix_from_local_spec(date@, time@) is None,
{
    if date.len() != 10 || date[2] != 45u8 || date[5] != 45u8 {
        return None;
    }
    if time.len() != 8 || time[2] != 58u8 || time[5] != 58u8 {
        return None;
    }
    let d = match parse_digits(date, 0, 2) {
        Some(v) => v,
        None => return None,
    };
    let m = match parse_digits(date, 3, 2) {
        Some(v) => v,
        None => return None,
    };
    let y = match parse_digits(date, 6, 4) {
        Some(v) => v,
        None => return None,
    };
    let h = match parse_digits(time, 0, 2) {
        Some(v) => v,
        None => return None,
    };
    let mi = match parse_digits(time, 3, 2) {
        Some(v) => v,
        None => return None,
    };
    let sec = match parse_digits(time, 6, 2) {
        Some(v) => v,
        None => return None,
    };
    proof {
        crate::decimal::lemma_digits_value_bound(date@.subrange(0, 2));
        crate::decimal::lemma_digits_value_bound(date@.subrange(3, 5));
        crate::decimal::lemma_digits_value_bound(date@.subrange(6, 10));
        crate::decimal::lemma_digits_value_bound(time@.subrange(0, 2));
        crate::decimal::lemma_digits_value_bound(time@.subrange(3, 5));
        crate::decimal::lemma_digits_value_bound(time@.subrange(6, 8));
        reveal_with_fuel(crate::decimal::pow10, 5);
    }
    let (y, m, d) = (y as i64, m as i64, d as i64);
    if m < 1 || m > 12 || d < 1 || d > days_in_month_exec(y, m) {
        return None;
    }
    if h >= 24 || mi >= 60 || sec >= 60 {
        return None;
    }
    let days = days_from_civil_exec(y, m, d);
    let local = days * 86400 + (h as i64) * 3600 + (mi as i64) * 60 + sec as i64;
    let unix = local - TZ_OFFSET_SECS;
    if unix >= 0 {
        Some(unix as u64)
    } else {
        None
    }
}


/// A sync is read back: after the clock was synced to `unix_secs` at uptime
/// `synced_at_ms`, it reads `unix_secs` plus the whole seconds elapsed since
/// (no time before the sync); a sync to 0 leaves it unsynced.
pub proof fn lemma_sync_reads_back(unix_secs: u64, synced_at_ms: u64, uptime_ms: u64)
    ensures
        ({
            let clock = SyncedClock { synced_unix: unix_secs, synced_uptime_ms: synced_at_ms };
            &&& unix_secs == 0 ==> now_unix_spec(clock, uptime_ms) is None
            &&& unix_secs != 0 && uptime_ms >= synced_at_ms ==> now_unix_spec(clock, uptime_ms)
                == Some(unix_secs + (uptime_ms - synced_at_ms) / 1000)
            &&& unix_secs != 0 && uptime_ms < synced_at_ms ==> now_unix_spec(clock, uptime_ms)
                == Some(unix_secs as int)
        }),
{
}

/// A synced clock counts whole seconds: `k` seconds of uptime after a reading
/// taken at or after the sync, it reads exactly `k` more, and at the uptime of
/// the sync it reads the synced time.
pub proof fn lemma_clock_counts_seconds(clock: SyncedClock, t: u64, k: nat)
    requires
        clock.synced_unix != 0,
        clock.synced_uptime_ms <= t,
        t + 1000 * k <= u64::MAX,
    ensures
        now_unix_spec(clock, clock.synced_uptime_ms) == Some(clock.synced_unix as int),
        now_unix_spec(clock, (t + 1000 * k) as u64).unwrap() == now_unix_spec(clock, t).unwrap() + k,
{
    let e: int = t - clock.synced_uptime_ms;
    let q = e / 1000;
    let r = e % 1000;
    vstd::arithmetic::div_mod::lemma_fundamental_div_mod(e, 1000);
    assert(e + 1000 * k == 1000 * (q + k) + r) by (nonlinear_arith)
        requires
            e == 1000 * q + r,
    ;
    vstd::arithmetic::div_mod::lemma_div_multiples_vanish_fancy(q + k, r, 1000);
    vstd::arithmetic::div_mod::lemma_div_multiples_vanish_fancy(q, r, 1000);
}

/// The synced clock never runs backwards as the uptime grows.
pub proof fn lemma_clock_monotonic(clock: SyncedClock, t1: u64, t2: u64)
    requires
        clock.synced_unix != 0,
        t1 <= t2,
    ensures
        now_unix_spec(clock, t1).unwrap() <= now_unix_spec(clock, t2).unwrap(),
{
    let b = clock.synced_uptime_ms as int;
    let e1: int = if t1 >= b { t1 - b } else { 0 };
    let e2: int = if t2 >= b { t2 - b } else { 0 };
    assert(e1 <= e2);
    vstd::arithmetic::div_mod::lemma_div_is_ordered(e1, e2, 1000);
}


/// The time read from a synced clock does not fit: the synced time plus the
/// elapsed seconds leaves `u64`, or the local seconds leave `i64`.
#[derive(Clone, Copy, Debug, PartialEq, Eq, Structural)]
pub struct TimeOverflow;

/// An optional `u64` as an optional integer.
pub open spec fn option_int(o: Option<u64>) -> Option<int> {
    match o {
        Some(v) => Some(v as int),
        None => None,
    }
}

/// The Unix time at uptime `uptime_ms`, or `Err` exactly when it leaves `u64`.
pub fn now_unix_checked_at(clock: &SyncedClock, uptime_ms: u64) -> (r: Result<Option<u64>, TimeOverflow>)
    ensures
        r is Err <==> !now_unix_fits(*clock, uptime_ms),
        r matches Ok(v) ==> option_int(v) == now_unix_spec(*clock, uptime_ms),
{
    let base = clock.synced_unix;
    if base == 0 {
        return Ok(None);
    }
    let elapsed_ms = uptime_ms.saturating_sub(clock.synced_uptime_ms);
    match base.checked_add(elapsed_ms / 1000) {
        Some(v) => Ok(Some(v)),
        None => Err(TimeOverflow),
    }
}

/// The Unix time now, with no bound on the clock: `Err` when, at the uptime
/// read, the time leaves `u64`.
pub fn try_now_unix(clock: &SyncedClock) -> (r: Result<Option<u64>, TimeOverflow>)
    ensures
        (r matches Ok(v) && v is None) <==> clock.synced_unix == 0,
        r matches Ok(v) ==> exists|t: u64|
            now_unix_fits(*clock, t) && now_unix_spec(*clock, t) == option_int(v),
        r is Err ==> exists|t: u64| !now_unix_fits(*clock, t),
{
    if clock.synced_unix == 0 {
        assert(now_unix_fits(*clock, 0) && now_unix_spec(*clock, 0) == option_int(None));
        return Ok(None);
    }
    let now_ms = uptime_millis();
    now_unix_checked_at(clock, now_ms)
}

/// The local date and time at uptime `uptime_ms`, or `Err` exactly when the
/// computation leaves `u64` or `i64`.
pub fn now_datetime_checked_at(clock: &SyncedClock, uptime_ms: u64) -> (r: Result<Option<DateTime>, TimeOverflow>)
    ensures
        r is Err <==> !now_datetime_fits(*clock, uptime_ms),
        r matches Ok(v) ==> v == now_datetime_spec(*clock, uptime_ms),
{
    match now_unix_checked_at(clock, uptime_ms) {
        Err(e) => Err(e),
        Ok(None) => Ok(None),
        Ok(Some(unix)) => match (unix as i64).checked_add(TZ_OFFSET_SECS) {
            Some(secs) => Ok(Some(datetime_from_local_secs(secs))),
            None => Err(TimeOverflow),
        },
    }
}

/// The local date and time now, with no bound on the clock: `Err` when, at the
/// uptime read, the computation leaves `u64` or `i64`.
pub fn try_now_datetime(clock: &SyncedClock) -> (r: Result<Option<DateTime>, TimeOverflow>)
    ensures
        (r matches Ok(v) && v is None) <==> clock.synced_unix == 0,
        r matches Ok(v) ==> exists|t: u64| now_datetime_fits(*clock, t) && now_datetime_spec(*clock, t) == v,
        r is Err ==> exists|t: u64| !now_datetime_fits(*clock, t),
{
    if clock.synced_unix == 0 {
        assert(now_datetime_fits(*clock, 0) && now_datetime_spec(*clock, 0) == None::<DateTime>);
        return Ok(None);
    }
    let now_ms = uptime_millis();
    now_datetime_checked_at(clock, now_ms)
}

/// `a` comes strictly before `b`: compared by year, then month, day, hour,
/// minute and second.
pub open spec fn datetime_lt(a: DateTime, b: DateTime) -> bool {
    ||| a.year < b.year
    ||| a.year == b.year && a.month < b.month
    ||| a.year == b.year && a.month == b.month && a.day < b.day
    ||| a.year == b.year && a.month == b.month && a.day == b.day && a.hour < b.hour
    ||| a.year == b.year && a.month == b.month && a.day == b.day && a.hour == b.hour && a.minute
        < b.minute
    ||| a.year == b.year && a.month == b.month && a.day == b.day && a.hour == b.hour && a.minute
        == b.minute && a.second < b.second
}

/// The local seconds that a date and time stand for.
spec fn datetime_secs(dt: DateTime) -> int {
    days_from_civil(dt.year as int, dt.month as int, dt.day as int) * 86400 + dt.hour * 3600
        + dt.minute * 60 + dt.second
}

/// The local date and time of a Unix time from 1970 to the end of year 9999,
/// with the year in full and the seconds it stands for.
proof fn lemma_local_datetime_of_unix(u: u64)
    requires
        u <= 253_402_289_999,
    ensures
        ({
            let dt = local_datetime_spec(local_secs_of_unix(u));
            &&& is_valid_date(dt.year as int, dt.month as int, dt.day as int)
            &&& dt.hour < 24 && dt.minute < 60 && dt.second < 60
            &&& datetime_secs(dt) == u + TZ_OFFSET_SECS
        }),
{
    assert((u as i64) as int == u as int) by (bit_vector)
        requires
            u <= 253_402_289_999u64;
    let secs = u + TZ_OFFSET_SECS;
    let days = secs / 86400;
    let rem = secs % 86400;
    vstd::arithmetic::div_mod::lemma_fundamental_div_mod(secs, 86400);
    lemma_civil_from_days_spec_valid(days);
    let ymd = civil_from_days_spec(days);
    lemma_year_from_epoch(ymd.0, ymd.1, ymd.2);
    assert(days_before_year(10000) == 2_932_897);
    lemma_year_below(ymd.0, ymd.1, ymd.2, 10000);
}

/// The local date and time grow with the Unix time: from 1970 to the end of
/// year 9999, a later Unix time gives a later date and time, and only the same
/// Unix time gives the same one.
pub proof fn lemma_local_datetime_monotone(u1: u64, u2: u64)
    requires
        u1 <= u2 <= 253_402_289_999,
    ensures
        ({
            let a = local_datetime_spec(local_secs_of_unix(u1));
            let b = local_datetime_spec(local_secs_of_unix(u2));
            &&& datetime_lt(a, b) || a == b
            &&& a == b <==> u1 == u2
        }),
{
    let a = local_datetime_spec(local_secs_of_unix(u1));
    let b = local_datetime_spec(local_secs_of_unix(u2));
    lemma_local_datetime_of_unix(u1);
    lemma_local_datetime_of_unix(u2);
    if u1 < u2 {
        if !datetime_lt(a, b) {
            if a != b {
                assert(datetime_lt(b, a));
                lemma_datetime_order(b, a);
            }
        }
    }
}

proof fn lemma_datetime_order(a: DateTime, b: DateTime)
    requires
        is_valid_date(a.year as int, a.month as int, a.day as int),
        is_valid_date(b.year as int, b.month as int, b.day as int),
        a.hour < 24 && a.minute < 60 && a.second < 60,
        b.hour < 24 && b.minute < 60 && b.second < 60,
        datetime_lt(a, b),
    ensures
        datetime_secs(a) < datetime_secs(b),
{
    let da = days_from_civil(a.year as int, a.month as int, a.day as int);
    let db = days_from_civil(b.year as int, b.month as int, b.day as int);
    if a.year != b.year || a.month != b.month || a.day != b.day {
        lemma_civil_order(
            a.year as int,
            a.month as int,
            a.day as int,
            b.year as int,
            b.month as int,
            b.day as int,
        );
        assert(da + 1 <= db);
    }
}

} // verus!
