//! Proleptic Gregorian calendar arithmetic on day counts relative to 1970-01-01.
use vstd::prelude::*;
use vstd::arithmetic::div_mod::lemma_fundamental_div_mod_converse_div;

verus! {

/// The Gregorian leap-year rule.
pub open spec fn is_leap_year(y: int) -> bool {
    (y % 4 == 0 && y % 100 != 0) || y % 400 == 0
}

/// Number of days of year `y`.
pub open spec fn days_in_year(y: int) -> int {
    if is_leap_year(y) { 366 } else { 365 }
}

/// Number of days of month `m` (1 = January) of year `y`.
pub open spec fn days_in_month(y: int, m: int) -> int {
    if m == 2 {
        if is_leap_year(y) { 29 } else { 28 }
    } else if m == 4 || m == 6 || m == 9 || m == 11 {
        30
    } else {
        31
    }
}

/// Days from January 1st of year `y` to the first day of month `m`.
pub open spec fn days_before_month(y: int, m: int) -> int
    decreases m,
{
    if m <= 1 { 0 } else { days_before_month(y, m - 1) + days_in_month(y, m - 1) }
}

/// Leap years counted up to year `y - 1`; the difference of two values counts
/// the leap years in between.
pub open spec fn leap_years_before(y: int) -> int {
    (y - 1) / 4 - (y - 1) / 100 + (y - 1) / 400
}

/// Days from 1970-01-01 to January 1st of year `y` (negative before 1970).
pub open spec fn days_before_year(y: int) -> int {
    365 * (y - 1970) + leap_years_before(y) - leap_years_before(1970)
}

/// Day number, relative to 1970-01-01, of the date `y`-`m`-`d`.
pub open spec fn days_from_civil(y: int, m: int, d: int) -> int {
    days_before_year(y) + days_before_month(y, m) + d - 1
}

/// A month of 1..=12 and a day that exists in that month.
pub open spec fn is_valid_date(y: int, m: int, d: int) -> bool {
    1 <= m <= 12 && 1 <= d <= days_in_month(y, m)
}

/// The date (year, month, day) of day number `days` relative to 1970-01-01.
pub open spec fn civil_from_days_spec(days: int) -> (int, int, int) {
    choose|ymd: (int, int, int)|
        is_valid_date(ymd.0, ymd.1, ymd.2) && days_from_civil(ymd.0, ymd.1, ymd.2) == days
}

proof fn lemma_div_step(y: int, d: int)
    requires d > 0,
    ensures y / d == (y - 1) / d + (if y % d == 0 { 1int } else { 0int }),
{
    let q = (y - 1) / d;
    let r = (y - 1) % d;
    assert(y - 1 == q * d + r && 0 <= r < d) by {
        vstd::arithmetic::div_mod::lemma_fundamental_div_mod(y - 1, d);
    }
    if r == d - 1 {
        assert(y == (q + 1) * d + 0) by (nonlinear_arith) requires y - 1 == q * d + r, r == d - 1;
        lemma_fundamental_div_mod_converse_div(y, d, q + 1, 0);
        vstd::arithmetic::div_mod::lemma_fundamental_div_mod_converse_mod(y, d, q + 1, 0);
    } else {
        assert(y == q * d + (r + 1));
        lemma_fundamental_div_mod_converse_div(y, d, q, r + 1);
        vstd::arithmetic::div_mod::lemma_fundamental_div_mod_converse_mod(y, d, q, r + 1);
    }
}

/// A year lasts `days_in_year` days, and years are counted from 1970:
/// these two facts determine `days_before_year` completely.
pub proof fn lemma_days_before_year_step(y: int)
    ensures
        days_before_year(y + 1) == days_before_year(y) + days_in_year(y),
        days_before_year(1970) == 0,
{
    lemma_div_step(y, 4);
    lemma_div_step(y, 100);
    lemma_div_step(y, 400);
}


/// Days from 0000-03-01 to March 1st of year `y` of the proleptic Gregorian calendar.
spec fn march_days(y: int) -> int {
    365 * y + y / 4 - y / 100 + y / 400
}

/// First day of the `mp`-th month of a year that starts in March.
spec fn march_month_start(mp: int) -> int {
    (153 * mp + 2) / 5
}

proof fn lemma_march_days(y: int)
    ensures
        days_before_year(y) + 59 + (if is_leap_year(y) { 1int } else { 0int }) == march_days(y) - 719468,
{
    lemma_div_step(y, 4);
    lemma_div_step(y, 100);
    lemma_div_step(y, 400);
    if y % 400 == 0 {
        assert(y % 100 == 0 && y % 4 == 0) by {
            let q = y / 400;
            vstd::arithmetic::div_mod::lemma_fundamental_div_mod(y, 400);
            vstd::arithmetic::div_mod::lemma_fundamental_div_mod_converse_mod(y, 100, 4 * q, 0);
            vstd::arithmetic::div_mod::lemma_fundamental_div_mod_converse_mod(y, 4, 100 * q, 0);
        }
    } else if y % 100 == 0 {
        assert(y % 4 == 0) by {
            let q = y / 100;
            vstd::arithmetic::div_mod::lemma_fundamental_div_mod(y, 100);
            vstd::arithmetic::div_mod::lemma_fundamental_div_mod_converse_mod(y, 4, 25 * q, 0);
        }
    }
}

proof fn lemma_march_days_era(era: int, yoe: int)
    requires
        0 <= yoe < 400,
    ensures
        march_days(era * 400 + yoe) == era * 146097 + 365 * yoe + yoe / 4 - yoe / 100,
{
    let y = era * 400 + yoe;
    vstd::arithmetic::div_mod::lemma_fundamental_div_mod(yoe, 4);
    vstd::arithmetic::div_mod::lemma_fundamental_div_mod(yoe, 100);
    lemma_fundamental_div_mod_converse_div(y, 4, era * 100 + yoe / 4, yoe % 4);
    lemma_fundamental_div_mod_converse_div(y, 100, era * 4 + yoe / 100, yoe % 100);
    lemma_fundamental_div_mod_converse_div(y, 400, era, yoe);
}

proof fn lemma_year_of_era(doe: int)
    requires
        0 <= doe <= 146096,
    ensures
        ({
            let yoe = (doe - doe / 1460 + doe / 36524 - doe / 146096) / 365;
            let doy = doe - (365 * yoe + yoe / 4 - yoe / 100);
            &&& 0 <= yoe <= 399
            &&& 0 <= doy <= 365
            &&& doy == 365 ==> is_leap_year(yoe + 1)
        }),
{
    vstd::arithmetic::div_mod::lemma_fundamental_div_mod(doe, 36524);
    let c: int = if doe / 36524 > 3 { 3 } else { doe / 36524 };
    let rest1 = doe - 36524 * c;
    assert(0 <= rest1 <= 36524);
    vstd::arithmetic::div_mod::lemma_fundamental_div_mod(rest1, 1461);
    let k = rest1 / 1461;
    let rest2 = rest1 - 1461 * k;
    assert(0 <= k <= 24 && 0 <= rest2 < 1461);
    vstd::arithmetic::div_mod::lemma_fundamental_div_mod(rest2, 365);
    let j: int = if rest2 / 365 > 3 { 3 } else { rest2 / 365 };
    let dy = rest2 - 365 * j;
    assert(0 <= j <= 3 && 0 <= dy <= 365);
    assert(dy == 365 ==> j == 3 && rest2 == 1460);
    assert(k == 24 && rest2 == 1460 ==> rest1 == 36524 && c == 3);
    let yt = 100 * c + 4 * k + j;
    lemma_fundamental_div_mod_converse_div(yt, 4, 25 * c + k, j);
    lemma_fundamental_div_mod_converse_div(yt, 100, c, 4 * k + j);
    assert(365 * yt + yt / 4 - yt / 100 == 36524 * c + 1461 * k + 365 * j);
    assert(doe == 36524 * c + 1461 * k + 365 * j + dy);
    // the quotients that the year formula subtracts and adds
    let big: int = if doe == 146096 { 1 } else { 0 };
    lemma_fundamental_div_mod_converse_div(doe, 146096, big, doe - 146096 * big);
    lemma_fundamental_div_mod_converse_div(doe, 36524, c + big, doe - 36524 * (c + big));
    let r = 24 * c + k + 365 * j + dy;
    let b: int = if r >= 1460 { 1 } else { 0 };
    assert(0 <= r - 1460 * b < 1460);
    lemma_fundamental_div_mod_converse_div(doe, 1460, 25 * c + k + b, r - 1460 * b);
    let t = doe - doe / 1460 + doe / 36524 - doe / 146096;
    assert(t == 365 * yt + (dy - b));
    assert(0 <= dy - b < 365);
    lemma_fundamental_div_mod_converse_div(t, 365, yt, dy - b);
    if dy == 365 {
        if k < 24 {
            assert(yt + 1 == 100 * c + 4 * (k + 1));
            lemma_fundamental_div_mod_converse_div(yt + 1, 4, 25 * c + k + 1, 0);
            vstd::arithmetic::div_mod::lemma_fundamental_div_mod_converse_mod(yt + 1, 4, 25 * c + k + 1, 0);
            vstd::arithmetic::div_mod::lemma_fundamental_div_mod_converse_mod(yt + 1, 100, c, 4 * (k + 1));
        } else {
            assert(yt + 1 == 400);
        }
    }
}

proof fn lemma_month_of_year(doy: int)
    requires
        0 <= doy <= 365,
    ensures
        ({
            let mp = (5 * doy + 2) / 153;
            &&& 0 <= mp <= 11
            &&& march_month_start(mp) <= doy < march_month_start(mp + 1)
        }),
{
    let mp = (5 * doy + 2) / 153;
    vstd::arithmetic::div_mod::lemma_fundamental_div_mod(5 * doy + 2, 153);
    vstd::arithmetic::div_mod::lemma_fundamental_div_mod(153 * mp + 2, 5);
    vstd::arithmetic::div_mod::lemma_fundamental_div_mod(153 * (mp + 1) + 2, 5);
}


proof fn lemma_leap_periodic(era: int, x: int)
    ensures
        is_leap_year(era * 400 + x) == is_leap_year(x),
{
    let y = era * 400 + x;
    vstd::arithmetic::div_mod::lemma_fundamental_div_mod(x, 4);
    vstd::arithmetic::div_mod::lemma_fundamental_div_mod(x, 100);
    vstd::arithmetic::div_mod::lemma_fundamental_div_mod(x, 400);
    vstd::arithmetic::div_mod::lemma_fundamental_div_mod_converse_mod(y, 4, era * 100 + x / 4, x % 4);
    vstd::arithmetic::div_mod::lemma_fundamental_div_mod_converse_mod(y, 100, era * 4 + x / 100, x % 100);
    vstd::arithmetic::div_mod::lemma_fundamental_div_mod_converse_mod(y, 400, era + x / 400, x % 400);
}

proof fn lemma_march_month_table(y: int, mp: int)
    requires
        0 <= mp <= 11,
    ensures
        mp < 10 ==> days_before_month(y, mp + 3) == 59 + (if is_leap_year(y) { 1int } else { 0int })
            + march_month_start(mp),
        mp < 10 ==> days_in_month(y, mp + 3) == march_month_start(mp + 1) - march_month_start(mp),
        mp >= 10 ==> days_before_month(y, mp - 9) == march_month_start(mp) - 306,
        mp == 10 ==> days_in_month(y, 1) == march_month_start(11) - march_month_start(10),
        mp == 11 ==> days_in_month(y, 2) == 28 + (if is_leap_year(y) { 1int } else { 0int }),
        march_month_start(mp) + 28 < march_month_start(mp + 1),
{
    reveal_with_fuel(days_before_month, 13);
    assert(march_month_start(0) == 0);
    assert(march_month_start(1) == 31);
    assert(march_month_start(2) == 61);
    assert(march_month_start(3) == 92);
    assert(march_month_start(4) == 122);
    assert(march_month_start(5) == 153);
    assert(march_month_start(6) == 184);
    assert(march_month_start(7) == 214);
    assert(march_month_start(8) == 245);
    assert(march_month_start(9) == 275);
    assert(march_month_start(10) == 306);
    assert(march_month_start(11) == 337);
    assert(march_month_start(12) == 367);
}

/// The date of day number `days` (relative to 1970-01-01), computed with
/// era, year-of-era and March-based month arithmetic.
pub fn civil_from_days(days: i64) -> (r: (i64, u8, u8))
    requires
        days <= i64::MAX - 719_468,
    ensures
        is_valid_date(r.0 as int, r.1 as int, r.2 as int),
        days_from_civil(r.0 as int, r.1 as int, r.2 as int) == days,
        (r.0 as int, r.1 as int, r.2 as int) == civil_from_days_spec(days as int),
{
    let z = days + 719_468;
    let era = if z >= 0 { z } else { z - 146_096 } / 146_097;
    proof {
        if z >= 0 {
            vstd::arithmetic::div_mod::lemma_fundamental_div_mod(z as int, 146097);
        } else {
            let w = -z;
            let q = (w + 146096) / 146097;
            let r0 = (w + 146096) % 146097;
            vstd::arithmetic::div_mod::lemma_fundamental_div_mod(w + 146096, 146097);
            assert(era == -q);
            lemma_fundamental_div_mod_converse_div(z as int, 146097, -q, 146096 - r0);
        }
        vstd::arithmetic::div_mod::lemma_fundamental_div_mod(z as int, 146097);
    }
    let doe = z - era * 146_097;
    assert(0 <= doe <= 146096);
    proof {
        lemma_year_of_era(doe as int);
    }
    let yoe = (doe - doe / 1460 + doe / 36524 - doe / 146096) / 365;
    let y = yoe + era * 400;
    let doy = doe - (365 * yoe + yoe / 4 - yoe / 100);
    proof {
        lemma_month_of_year(doy as int);
    }
    let mp = (5 * doy + 2) / 153;
    let day = (doy - (153 * mp + 2) / 5 + 1) as u8;
    let month = (if mp < 10 { mp + 3 } else { mp - 9 }) as u8;
    let year = if month <= 2 { y + 1 } else { y };
    proof {
        lemma_march_days_era(era as int, yoe as int);
        lemma_march_days(y as int);
        lemma_days_before_year_step(y as int);
        lemma_leap_periodic(era as int, yoe + 1);
        assert(era * 400 + (yoe + 1) == y + 1);
        if mp < 10 {
            lemma_march_month_table(y as int, mp as int);
        } else {
            lemma_march_month_table(y + 1, mp as int);
        }
        lemma_civil_spec_is_the_date(year as int, month as int, day as int);
    }
    (year, month, day)
}

proof fn lemma_days_before_year_mono(y1: int, y2: int)
    requires
        y1 <= y2,
    ensures
        days_before_year(y2) - days_before_year(y1) >= 365 * (y2 - y1),
    decreases y2 - y1,
{
    if y1 < y2 {
        lemma_days_before_year_mono(y1, y2 - 1);
        lemma_days_before_year_step(y2 - 1);
    }
}

proof fn lemma_day_of_year_bounds(y: int, m: int, d: int)
    requires
        is_valid_date(y, m, d),
    ensures
        0 <= days_before_month(y, m) + d - 1 < days_in_year(y),
{
    reveal_with_fuel(days_before_month, 13);
}

proof fn lemma_days_before_month_mono(y: int, m1: int, m2: int)
    requires
        1 <= m1 < m2 <= 12,
    ensures
        days_before_month(y, m2) >= days_before_month(y, m1) + days_in_month(y, m1),
    decreases m2 - m1,
{
    if m1 + 1 < m2 {
        lemma_days_before_month_mono(y, m1, m2 - 1);
    }
}

/// Distinct valid dates have distinct day numbers: the day number determines the date.
pub proof fn lemma_civil_unique(y1: int, m1: int, d1: int, y2: int, m2: int, d2: int)
    requires
        is_valid_date(y1, m1, d1),
        is_valid_date(y2, m2, d2),
        days_from_civil(y1, m1, d1) == days_from_civil(y2, m2, d2),
    ensures
        y1 == y2 && m1 == m2 && d1 == d2,
{
    lemma_day_of_year_bounds(y1, m1, d1);
    lemma_day_of_year_bounds(y2, m2, d2);
    if y1 < y2 {
        lemma_days_before_year_mono(y1 + 1, y2);
        lemma_days_before_year_step(y1);
    } else if y2 < y1 {
        lemma_days_before_year_mono(y2 + 1, y1);
        lemma_days_before_year_step(y2);
    } else if m1 < m2 {
        lemma_days_before_month_mono(y1, m1, m2);
    } else if m2 < m1 {
        lemma_days_before_month_mono(y1, m2, m1);
    }
}

/// A valid date is the date that `civil_from_days_spec` gives for its day number.
pub proof fn lemma_civil_spec_is_the_date(y: int, m: int, d: int)
    requires
        is_valid_date(y, m, d),
    ensures
        civil_from_days_spec(days_from_civil(y, m, d)) == (y, m, d),
{
    let days = days_from_civil(y, m, d);
    let w = (y, m, d);
    assert(is_valid_date(w.0, w.1, w.2) && days_from_civil(w.0, w.1, w.2) == days);
    let ymd = civil_from_days_spec(days);
    assert(is_valid_date(ymd.0, ymd.1, ymd.2) && days_from_civil(ymd.0, ymd.1, ymd.2) == days);
    lemma_civil_unique(ymd.0, ymd.1, ymd.2, y, m, d);
}


/// Every day number is the day number of a valid date, so
/// `civil_from_days_spec` is that date.
pub proof fn lemma_civil_from_days_spec_valid(days: int)
    ensures
        ({
            let ymd = civil_from_days_spec(days);
            is_valid_date(ymd.0, ymd.1, ymd.2) && days_from_civil(ymd.0, ymd.1, ymd.2) == days
        }),
{
    let z = days + 719468;
    let era = z / 146097;
    vstd::arithmetic::div_mod::lemma_fundamental_div_mod(z, 146097);
    let doe = z - era * 146097;
    lemma_year_of_era(doe);
    let yoe = (doe - doe / 1460 + doe / 36524 - doe / 146096) / 365;
    let y = yoe + era * 400;
    let doy = doe - (365 * yoe + yoe / 4 - yoe / 100);
    lemma_month_of_year(doy);
    let mp = (5 * doy + 2) / 153;
    let day = doy - (153 * mp + 2) / 5 + 1;
    let month = if mp < 10 { mp + 3 } else { mp - 9 };
    let year = if month <= 2 { y + 1 } else { y };
    lemma_march_days_era(era, yoe);
    lemma_march_days(y);
    lemma_days_before_year_step(y);
    lemma_leap_periodic(era, yoe + 1);
    assert(era * 400 + (yoe + 1) == y + 1);
    if mp < 10 {
        lemma_march_month_table(y, mp);
    } else {
        lemma_march_month_table(y + 1, mp);
    }
    assert(is_valid_date(year, month, day) && days_from_civil(year, month, day) == days);
    lemma_civil_spec_is_the_date(year, month, day);
}

/// Day numbers from 0 on fall in 1970 or later.
pub proof fn lemma_year_from_epoch(y: int, m: int, d: int)
    requires
        is_valid_date(y, m, d),
        days_from_civil(y, m, d) >= 0,
    ensures
        y >= 1970,
{
    if y < 1970 {
        lemma_day_of_year_bounds(y, m, d);
        lemma_days_before_year_step(y);
        lemma_days_before_year_mono(y + 1, 1970);
    }
}


/// Dates in lexicographic order have increasing day numbers.
pub proof fn lemma_civil_order(y1: int, m1: int, d1: int, y2: int, m2: int, d2: int)
    requires
        is_valid_date(y1, m1, d1),
        is_valid_date(y2, m2, d2),
        y1 < y2 || (y1 == y2 && (m1 < m2 || (m1 == m2 && d1 < d2))),
    ensures
        days_from_civil(y1, m1, d1) < days_from_civil(y2, m2, d2),
{
    lemma_day_of_year_bounds(y1, m1, d1);
    lemma_day_of_year_bounds(y2, m2, d2);
    if y1 < y2 {
        lemma_days_before_year_mono(y1 + 1, y2);
        lemma_days_before_year_step(y1);
    } else if m1 < m2 {
        lemma_days_before_month_mono(y1, m1, m2);
    }
}

/// A date whose day number comes before January 1st of `bound` lies in an earlier year.
pub proof fn lemma_year_below(y: int, m: int, d: int, bound: int)
    requires
        is_valid_date(y, m, d),
        days_from_civil(y, m, d) < days_before_year(bound),
    ensures
        y < bound,
{
    if y >= bound {
        lemma_day_of_year_bounds(y, m, d);
        lemma_days_before_year_mono(bound, y);
    }
}

} // verus!
