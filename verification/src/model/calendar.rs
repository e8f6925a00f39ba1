//! Day numbers of the proleptic Gregorian calendar, counted from 1970-01-01.
//!
//! Years are counted from March, so that the leap day closes the year, in cycles
//! ("eras") of 400 years = 146097 days.
use vstd::prelude::*;
use vstd::arithmetic::div_mod::lemma_fundamental_div_mod_converse;

verus! {

/// The year counted from March: January and February belong to the year before.
pub open spec fn march_year(year: int, month: int) -> int {
    if month <= 2 {
        year - 1
    } else {
        year
    }
}

/// The month counted from March: March is 0, February is 11.
pub open spec fn month_index(month: int) -> int {
    if month > 2 {
        month - 3
    } else {
        month + 9
    }
}

/// The calendar month of a month index.
pub open spec fn month_of_index(mp: int) -> int {
    if mp < 10 {
        mp + 3
    } else {
        mp - 9
    }
}

/// The days from 1 March to the given day of the month with index `mp`.
pub open spec fn day_of_year(mp: int, day: int) -> int {
    (153 * mp + 2) / 5 + day - 1
}

/// The day within its era on which year `yoe` of the era starts.
pub open spec fn year_start(yoe: int) -> int {
    365 * yoe + yoe / 4 - yoe / 100
}

/// The era a March-based year is counted in: `y / 400` rounded down.
pub open spec fn year_era(y: int) -> int {
    y / 400
}

/// The day number (days since 1970-01-01) of a date.
pub open spec fn civil_days(year: int, month: int, day: int) -> int {
    let y = march_year(year, month);
    let era = year_era(y);
    let yoe = y - era * 400;
    era * 146097 + year_start(yoe) + day_of_year(month_index(month), day) - 719468
}

/// A Gregorian leap year.
pub open spec fn is_leap(y: int) -> bool {
    y % 4 == 0 && (y % 100 != 0 || y % 400 == 0)
}

/// The number of days of a month.
pub open spec fn days_in_month(year: int, month: int) -> int {
    if month == 2 {
        if is_leap(year) {
            29
        } else {
            28
        }
    } else if month == 4 || month == 6 || month == 9 || month == 11 {
        30
    } else {
        31
    }
}

/// A real calendar date.
pub open spec fn is_valid_date(year: int, month: int, day: int) -> bool {
    1 <= month <= 12 && 1 <= day <= days_in_month(year, month)
}

/// The era of a day counted from 0000-03-01: `z / 146097` rounded down.
pub open spec fn day_era(z: int) -> int {
    z / 146097
}

/// The year within its era of a day of the era.
pub open spec fn year_of_era(doe: int) -> int {
    (doe - doe / 1460 + doe / 36524 - doe / 146096) / 365
}

/// The date `(year, month, day)` of a day number.
pub open spec fn civil_from_days_spec(z0: int) -> (int, int, int) {
    let z = z0 + 719468;
    let era = day_era(z);
    let doe = z - era * 146097;
    let yoe = year_of_era(doe);
    let y = yoe + era * 400;
    let doy = doe - year_start(yoe);
    let mp = (5 * doy + 2) / 153;
    let d = doy - (153 * mp + 2) / 5 + 1;
    let month = month_of_index(mp);
    (y + if month <= 2 {
        1int
    } else {
        0int
    }, month, d)
}

/// [`days_from_civil`] computes without overflow: the March-based year is at least
/// `i32::MIN + 447`, and day 0 of March (whose day of year would be −1) is excluded.
pub open spec fn days_from_civil_ok(year: int, month: int, day: int) -> bool {
    march_year(year, month) >= i32::MIN + 447 && !(month == 3 && day == 0)
}

/// [`civil_from_days`] computes without overflow: the era fits a 400-year step of
/// an `i32`, and the resulting year fits an `i32`.
pub open spec fn civil_from_days_ok(z0: int) -> bool {
    let z = z0 + 719468;
    let era = day_era(z);
    &&& i64::MIN <= z0 <= i64::MAX - 719468
    &&& -5368709 <= era <= 5368709
    &&& civil_from_days_spec(z0).0 <= i32::MAX
}

/// `a / b` rounded toward negative infinity.
pub fn div_floor(a: i64, b: i64) -> (q: i64)
    requires
        b > 0,
    ensures
        q == a as int / b as int,
{
    if a >= 0 {
        ((a as u64) / (b as u64)) as i64
    } else {
        let n: u64 = (-(a as i128) - 1) as u64;
        let m: u64 = n / (b as u64);
        proof {
            let qq = a as int / b as int;
            let rr = a as int % b as int;
            assert(a as int == qq * b + rr) by {
                vstd::arithmetic::div_mod::lemma_fundamental_div_mod(a as int, b as int);
            }
            assert(0 <= rr < b) by {
                vstd::arithmetic::div_mod::lemma_mod_bound(a as int, b as int);
            }
            assert(n as int == (-qq - 1) * b + (b - rr - 1)) by (nonlinear_arith)
                requires
                    n as int == -(a as int) - 1,
                    a as int == qq * b + rr,
            ;
            lemma_fundamental_div_mod_converse(n as int, b as int, -qq - 1, b - rr - 1);
        }
        -(m as i64) - 1
    }
}

/// Bounds of the year-of-era computation over two eras of days.
pub proof fn lemma_year_of_era_bounds(doe: u32)
    by (bit_vector)
    requires
        doe < 292193,
    ensures
        ((doe - doe / 1460 + doe / 36524 - doe / 146096) / 365) < 800,
        365 * ((doe - doe / 1460 + doe / 36524 - doe / 146096) / 365) + ((doe - doe / 1460 + doe
            / 36524 - doe / 146096) / 365) / 4 - ((doe - doe / 1460 + doe / 36524 - doe / 146096)
            / 365) / 100 <= doe,
        doe - (365 * ((doe - doe / 1460 + doe / 36524 - doe / 146096) / 365) + ((doe - doe / 1460
            + doe / 36524 - doe / 146096) / 365) / 4 - ((doe - doe / 1460 + doe / 36524 - doe
            / 146096) / 365) / 100) <= 366,
{
}

/// Bounds of the year-of-era computation within one era.
pub proof fn lemma_year_of_era_bounds_one_era(doe: u32)
    by (bit_vector)
    requires
        doe < 146097,
    ensures
        ((doe - doe / 1460 + doe / 36524 - doe / 146096) / 365) < 400,
        doe - (365 * ((doe - doe / 1460 + doe / 36524 - doe / 146096) / 365) + ((doe - doe / 1460
            + doe / 36524 - doe / 146096) / 365) / 4 - ((doe - doe / 1460 + doe / 36524 - doe
            / 146096) / 365) / 100) <= 365,
        doe - (365 * ((doe - doe / 1460 + doe / 36524 - doe / 146096) / 365) + ((doe - doe / 1460
            + doe / 36524 - doe / 146096) / 365) / 4 - ((doe - doe / 1460 + doe / 36524 - doe
            / 146096) / 365) / 100) == 365 ==> (((doe - doe / 1460 + doe / 36524 - doe / 146096)
            / 365) + 1) % 4 == 0 && ((((doe - doe / 1460 + doe / 36524 - doe / 146096) / 365) + 1)
            % 100 != 0 || (((doe - doe / 1460 + doe / 36524 - doe / 146096) / 365) + 1) % 400 == 0),
{
}

/// Bounds of the month and day computed from a day of the year.
pub proof fn lemma_month_bounds(doy: u32)
    by (bit_vector)
    requires
        doy <= 366,
    ensures
        (5 * doy + 2) / 153 <= 11,
        (153 * ((5 * doy + 2) / 153) + 2) / 5 <= doy,
        doy - (153 * ((5 * doy + 2) / 153) + 2) / 5 + 1 <= 31,
        doy - (153 * ((5 * doy + 2) / 153) + 2) / 5 < (153 * ((5 * doy + 2) / 153 + 1) + 2) / 5
            - (153 * ((5 * doy + 2) / 153) + 2) / 5,
{
}

/// The day number of a date.
pub fn days_from_civil(year: i32, month: u8, day: u8) -> (r: i64)
    requires
        days_from_civil_ok(year as int, month as int, day as int),
    ensures
        r == civil_days(year as int, month as int, day as int),
{
    let m = month as i32;
    let y: i32 = if m <= 2 {
        year - 1
    } else {
        year
    };
    let x: i64 = y as i64;
    let era64 = div_floor(x, 400);
    proof {
        vstd::arithmetic::div_mod::lemma_fundamental_div_mod(x as int, 400);
        vstd::arithmetic::div_mod::lemma_mod_bound(x as int, 400);
    }
    let era = era64 as i32;
    let yoe = (y - era * 400) as u32;
    let mp = if m > 2 {
        (m - 3) as u32
    } else {
        (m + 9) as u32
    };
    let doy = (153 * mp + 2) / 5 + day as u32 - 1;
    let doe = yoe * 365 + yoe / 4 - yoe / 100 + doy;
    era as i64 * 146097 + doe as i64 - 719468
}

/// The date of a day number, as `(year, month, day)`.
pub fn civil_from_days(z0: i64) -> (r: (i32, u8, u8))
    requires
        civil_from_days_ok(z0 as int),
    ensures
        r.0 as int == civil_from_days_spec(z0 as int).0,
        r.1 as int == civil_from_days_spec(z0 as int).1,
        r.2 as int == civil_from_days_spec(z0 as int).2,
        1 <= r.1 <= 12,
        1 <= r.2 <= 31,
{
    let z = z0 + 719468;
    let x: i64 = z;
    let era = div_floor(x, 146097);
    proof {
        vstd::arithmetic::div_mod::lemma_fundamental_div_mod(x as int, 146097);
        vstd::arithmetic::div_mod::lemma_mod_bound(x as int, 146097);
    }
    let doe = (z - era * 146097) as u32;
    proof {
        lemma_year_of_era_bounds(doe);
    }
    let yoe = (doe - doe / 1460 + doe / 36524 - doe / 146096) / 365;
    let y = yoe as i32 + era as i32 * 400;
    let doy = doe - (365 * yoe + yoe / 4 - yoe / 100);
    proof {
        lemma_month_bounds(doy);
    }
    let mp = (5 * doy + 2) / 153;
    let d = doy - (153 * mp + 2) / 5 + 1;
    let month = if mp < 10 {
        mp + 3
    } else {
        mp - 9
    };
    let year = if month <= 2 {
        y + 1
    } else {
        y
    };
    (year, month as u8, d as u8)
}

/// Counting a date's day number back gives the same day: for every day number,
/// the date of the day has that day number, and is a real calendar date.
pub proof fn lemma_days_of_date_of_day(z: int)
    ensures
        civil_days(
            civil_from_days_spec(z).0,
            civil_from_days_spec(z).1,
            civil_from_days_spec(z).2,
        ) == z,
        is_valid_date(civil_from_days_spec(z).0, civil_from_days_spec(z).1, civil_from_days_spec(z).2),
{
    let zz = z + 719468;
    let era = day_era(zz);
    let doe = zz - era * 146097;
    vstd::arithmetic::div_mod::lemma_fundamental_div_mod(zz, 146097);
    vstd::arithmetic::div_mod::lemma_mod_bound(zz, 146097);
    assert(0 <= doe < 146097);
    let d32 = doe as u32;
    lemma_year_of_era_bounds(d32);
    lemma_year_of_era_bounds_one_era(d32);
    let yoe = year_of_era(doe);
    assert(yoe == ((d32 - d32 / 1460 + d32 / 36524 - d32 / 146096) / 365));
    assert(0 <= yoe < 400);
    let doy = doe - year_start(yoe);
    assert(0 <= doy <= 365);
    assert(doy == 365 ==> is_leap(yoe + 1));
    let dy32 = doy as u32;
    lemma_month_bounds(dy32);
    let mp = (5 * doy + 2) / 153;
    let d = doy - (153 * mp + 2) / 5 + 1;
    assert(0 <= mp <= 11);
    assert(1 <= d <= 31);
    let y = yoe + era * 400;
    lemma_fundamental_div_mod_converse(y, 400, era, yoe);
    let month = month_of_index(mp);
    assert(month_index(month) == mp);
    assert(day_of_year(mp, d) == doy);
    lemma_date_in_month(yoe, doy, mp, d, era);
}

/// A day of a March-based year lands on a real date of the month it is put in.
#[verifier::spinoff_prover]
proof fn lemma_date_in_month(yoe: int, doy: int, mp: int, d: int, era: int)
    requires
        0 <= yoe < 400,
        0 <= doy <= 365,
        doy == 365 ==> is_leap(yoe + 1),
        mp == (5 * doy + 2) / 153,
        doy - (153 * mp + 2) / 5 < (153 * (mp + 1) + 2) / 5 - (153 * mp + 2) / 5,
        d == doy - (153 * mp + 2) / 5 + 1,
        0 <= mp <= 11,
        1 <= d <= 31,
    ensures
        is_valid_date(
            yoe + era * 400 + (if month_of_index(mp) <= 2 { 1int } else { 0int }),
            month_of_index(mp),
            d,
        ),
{
    let month = month_of_index(mp);
    let year = yoe + era * 400 + (if month <= 2 { 1int } else { 0int });
    if mp == 11 {
        assert(month == 2);
        assert((153 * mp + 2) / 5 == 337);
        assert(year == (yoe + 1) + 400 * era);
        assert(is_leap(yoe + 1) ==> is_leap(year)) by {
            let n = yoe + 1;
            vstd::arithmetic::div_mod::lemma_fundamental_div_mod(n, 4);
            vstd::arithmetic::div_mod::lemma_mod_bound(n, 4);
            vstd::arithmetic::div_mod::lemma_fundamental_div_mod(n, 100);
            vstd::arithmetic::div_mod::lemma_mod_bound(n, 100);
            vstd::arithmetic::div_mod::lemma_fundamental_div_mod(n, 400);
            vstd::arithmetic::div_mod::lemma_mod_bound(n, 400);
            lemma_fundamental_div_mod_converse(year, 4, era * 100 + n / 4, n % 4);
            lemma_fundamental_div_mod_converse(year, 100, era * 4 + n / 100, n % 100);
            lemma_fundamental_div_mod_converse(year, 400, era + n / 400, n % 400);
        }
    } else {
        assert((153 * 0 + 2) / 5 == 0);
        assert((153 * 1 + 2) / 5 == 31);
        assert((153 * 2 + 2) / 5 == 61);
        assert((153 * 3 + 2) / 5 == 92);
        assert((153 * 4 + 2) / 5 == 122);
        assert((153 * 5 + 2) / 5 == 153);
        assert((153 * 6 + 2) / 5 == 184);
        assert((153 * 7 + 2) / 5 == 214);
        assert((153 * 8 + 2) / 5 == 245);
        assert((153 * 9 + 2) / 5 == 275);
        assert((153 * 10 + 2) / 5 == 306);
        assert((153 * 11 + 2) / 5 == 337);
    }
}

/// Within one era, the year of era is recovered from the day of era.
pub proof fn lemma_year_of_era_recovers(yoe: u32, doy: u32, next: u32, doe: u32)
    requires
        yoe < 400,
        next == yoe + 1,
        doy <= 365,
        doy < 365 || (next % 4 == 0 && (next % 100 != 0 || next % 400 == 0)),
        doe == 365 * yoe + yoe / 4 - yoe / 100 + doy,
    ensures
        doe < 146097,
        (doe - doe / 1460 + doe / 36524 - doe / 146096) / 365 == yoe,
{
}

/// The month index is recovered from a day of the year that falls in that month.
pub proof fn lemma_month_recovers(mp: u32, d: u32, doy: u32)
    requires
        mp <= 11,
        1 <= d,
        doy == (153 * mp + 2) / 5 + d - 1,
        doy < (153 * mp + 155) / 5,
    ensures
        (5 * doy + 2) / 153 == mp,
{
}

/// The days of each month fit between the starts of consecutive March-based months.
proof fn lemma_month_fits(year: int, month: int, day: int)
    requires
        is_valid_date(year, month, day),
    ensures
        day - 1 < (153 * (month_index(month) + 1) + 2) / 5 - (153 * month_index(month) + 2) / 5,
        0 <= month_index(month) <= 11,
        month_of_index(month_index(month)) == month,
        day_of_year(month_index(month), day) <= 365,
        day_of_year(month_index(month), day) == 365 ==> is_leap(year),
{
    assert((153 * 0 + 2) / 5 == 0);
    assert((153 * 1 + 2) / 5 == 31);
    assert((153 * 2 + 2) / 5 == 61);
    assert((153 * 3 + 2) / 5 == 92);
    assert((153 * 4 + 2) / 5 == 122);
    assert((153 * 5 + 2) / 5 == 153);
    assert((153 * 6 + 2) / 5 == 184);
    assert((153 * 7 + 2) / 5 == 214);
    assert((153 * 8 + 2) / 5 == 245);
    assert((153 * 9 + 2) / 5 == 275);
    assert((153 * 10 + 2) / 5 == 306);
    assert((153 * 11 + 2) / 5 == 337);
    assert((153 * 12 + 2) / 5 == 367);
}

/// A real date is the date of its own day number.
#[verifier::spinoff_prover]
#[verifier::rlimit(40)]
pub proof fn lemma_date_of_days_of_date(year: int, month: int, day: int)
    requires
        is_valid_date(year, month, day),
    ensures
        civil_from_days_spec(civil_days(year, month, day)) == (year, month, day),
        day_era(civil_days(year, month, day) + 719468) == year_era(march_year(year, month)),
{
    let y = march_year(year, month);
    let era = year_era(y);
    let yoe = y - era * 400;
    vstd::arithmetic::div_mod::lemma_fundamental_div_mod(y, 400);
    vstd::arithmetic::div_mod::lemma_mod_bound(y, 400);
    assert(0 <= yoe < 400);
    lemma_month_fits(year, month, day);
    let mp = month_index(month);
    let doy = day_of_year(mp, day);
    assert(0 <= doy);
    assert(doy == 365 ==> is_leap(yoe + 1)) by {
        if doy == 365 {
            assert(month == 2);
            assert(year == (yoe + 1) + 400 * era);
            let n = yoe + 1;
            vstd::arithmetic::div_mod::lemma_fundamental_div_mod(n, 4);
            vstd::arithmetic::div_mod::lemma_mod_bound(n, 4);
            vstd::arithmetic::div_mod::lemma_fundamental_div_mod(n, 100);
            vstd::arithmetic::div_mod::lemma_mod_bound(n, 100);
            vstd::arithmetic::div_mod::lemma_fundamental_div_mod(n, 400);
            vstd::arithmetic::div_mod::lemma_mod_bound(n, 400);
            lemma_fundamental_div_mod_converse(year, 4, era * 100 + n / 4, n % 4);
            lemma_fundamental_div_mod_converse(year, 100, era * 4 + n / 100, n % 100);
            lemma_fundamental_div_mod_converse(year, 400, era + n / 400, n % 400);
        }
    }
    lemma_year_of_era_recovers(yoe as u32, doy as u32, (yoe + 1) as u32, (year_start(yoe) + doy) as u32);
    let doe = year_start(yoe) + doy;
    assert(doe < 146097);
    let z = civil_days(year, month, day);
    assert(z + 719468 == era * 146097 + doe);
    lemma_fundamental_div_mod_converse(z + 719468, 146097, era, doe);
    assert(day_era(z + 719468) == era);
    assert(year_of_era(doe) == yoe);
    assert((153 * (mp + 1) + 2) == 153 * mp + 155);
    lemma_month_recovers(mp as u32, day as u32, doy as u32);
    assert((5 * doy + 2) / 153 == mp);
}

/// The date after a real date.
pub open spec fn next_date(year: int, month: int, day: int) -> (int, int, int) {
    if day < days_in_month(year, month) {
        (year, month, day + 1)
    } else if month < 12 {
        (year, month + 1, 1)
    } else {
        (year + 1, 1, 1)
    }
}

/// The day number of 1 March of the March-based year `y`, less 719468.
spec fn march_start(y: int) -> int {
    year_era(y) * 146097 + year_start(y - year_era(y) * 400)
}

/// Within an era, consecutive years start 365 days apart, plus one when the later
/// one is a leap year.
proof fn lemma_year_start_step(r: u32)
    by (bit_vector)
    requires
        r < 399,
    ensures
        (365 * (r + 1) + (r + 1) / 4 - (r + 1) / 100) - (365 * r + r / 4 - r / 100) == 365 + if (r
            + 1) % 4 == 0 && (r + 1) % 100 != 0 {
            1u32
        } else {
            0u32
        },
{
}

/// The March-based year `y` starts 365 days after `y - 1` does, or 366 when the
/// calendar year `y` is a leap year (its February closes `y - 1`).
proof fn lemma_march_start_step(y: int)
    ensures
        march_start(y) - march_start(y - 1) == 365 + if is_leap(y) {
            1int
        } else {
            0int
        },
{
    let e = year_era(y - 1);
    let r = y - 1 - e * 400;
    vstd::arithmetic::div_mod::lemma_fundamental_div_mod(y - 1, 400);
    vstd::arithmetic::div_mod::lemma_mod_bound(y - 1, 400);
    assert(0 <= r < 400);
    if r < 399 {
        lemma_fundamental_div_mod_converse(y, 400, e, r + 1);
        lemma_year_start_step(r as u32);
        assert(y % 4 == (r + 1) % 4) by {
            lemma_fundamental_div_mod_converse(y, 4, e * 100 + (r + 1) / 4, (r + 1) % 4);
        }
        assert(y % 100 == (r + 1) % 100) by {
            lemma_fundamental_div_mod_converse(y, 100, e * 4 + (r + 1) / 100, (r + 1) % 100);
        }
        assert(y % 400 == r + 1) by {
            lemma_fundamental_div_mod_converse(y, 400, e, r + 1);
        }
    } else {
        lemma_fundamental_div_mod_converse(y, 400, e + 1, 0);
        assert(y == (e + 1) * 400);
        assert(y % 400 == 0);
        assert(y % 4 == 0) by {
            lemma_fundamental_div_mod_converse(y, 4, (e + 1) * 100, 0);
        }
        assert(year_start(399) == 145731);
    }
}

/// Consecutive dates have consecutive day numbers: `civil_days` counts days.
pub proof fn lemma_next_date_next_day(year: int, month: int, day: int)
    requires
        is_valid_date(year, month, day),
    ensures
        is_valid_date(next_date(year, month, day).0, next_date(year, month, day).1, next_date(year, month, day).2),
        civil_days(next_date(year, month, day).0, next_date(year, month, day).1, next_date(year, month, day).2)
            == civil_days(year, month, day) + 1,
{
    assert((153 * 0 + 2) / 5 == 0);
    assert((153 * 1 + 2) / 5 == 31);
    assert((153 * 2 + 2) / 5 == 61);
    assert((153 * 3 + 2) / 5 == 92);
    assert((153 * 4 + 2) / 5 == 122);
    assert((153 * 5 + 2) / 5 == 153);
    assert((153 * 6 + 2) / 5 == 184);
    assert((153 * 7 + 2) / 5 == 214);
    assert((153 * 8 + 2) / 5 == 245);
    assert((153 * 9 + 2) / 5 == 275);
    assert((153 * 10 + 2) / 5 == 306);
    assert((153 * 11 + 2) / 5 == 337);
    if day < days_in_month(year, month) {
    } else if month == 2 {
        lemma_march_start_step(year);
        assert(civil_days(year, 3, 1) == march_start(year) + 0 - 719468);
        assert(civil_days(year, 2, day) == march_start(year - 1) + 337 + day - 1 - 719468);
    } else if month < 12 {
    } else {
        assert(civil_days(year, 12, 31) == march_start(year) + 305 - 719468);
        assert(civil_days(year + 1, 1, 1) == march_start(year) + 306 - 719468);
    }
}

/// Within a month, day numbers count the days.
proof fn lemma_days_in_month_offset(year: int, month: int, day: int)
    requires
        1 <= month <= 12,
    ensures
        civil_days(year, month, day) == civil_days(year, month, 1) + day - 1,
{
}

/// The first of the next month is the length of this month later.
proof fn lemma_next_month_start(year: int, month: int)
    requires
        1 <= month < 12,
    ensures
        civil_days(year, month + 1, 1) == civil_days(year, month, 1) + days_in_month(year, month),
{
    let dim = days_in_month(year, month);
    lemma_next_date_next_day(year, month, dim);
    lemma_days_in_month_offset(year, month, dim);
}

/// Month starts grow through the year.
proof fn lemma_month_starts_grow(year: int, m1: int, m2: int)
    requires
        1 <= m1 < m2 <= 12,
    ensures
        civil_days(year, m1, 1) + days_in_month(year, m1) <= civil_days(year, m2, 1),
    decreases m2 - m1,
{
    lemma_next_month_start(year, m1);
    if m2 > m1 + 1 {
        lemma_month_starts_grow(year, m1 + 1, m2);
    }
}

/// Every real date of a year lies from its 1 January to before the next one.
proof fn lemma_date_within_year(year: int, month: int, day: int)
    requires
        is_valid_date(year, month, day),
    ensures
        civil_days(year, 1, 1) <= civil_days(year, month, day) < civil_days(year + 1, 1, 1),
{
    lemma_days_in_month_offset(year, month, day);
    lemma_next_date_next_day(year, 12, 31);
    lemma_days_in_month_offset(year, 12, 31);
    if month > 1 {
        lemma_month_starts_grow(year, 1, month);
    }
    if month < 12 {
        lemma_month_starts_grow(year, month, 12);
    }
}

/// Day numbers follow the order of dates: a real date earlier in (year, month,
/// day) order has a smaller day number.
pub proof fn lemma_day_numbers_ordered(y1: int, m1: int, d1: int, y2: int, m2: int, d2: int)
    requires
        is_valid_date(y1, m1, d1),
        is_valid_date(y2, m2, d2),
        y1 < y2 || (y1 == y2 && m1 < m2) || (y1 == y2 && m1 == m2 && d1 < d2),
    ensures
        civil_days(y1, m1, d1) < civil_days(y2, m2, d2),
    decreases y2 - y1,
{
    lemma_date_within_year(y1, m1, d1);
    lemma_date_within_year(y2, m2, d2);
    if y1 < y2 {
        if y1 + 1 < y2 {
            lemma_day_numbers_ordered(y1 + 1, 1, 1, y2, m2, d2);
        }
    } else if m1 < m2 {
        lemma_days_in_month_offset(y1, m1, d1);
        lemma_days_in_month_offset(y2, m2, d2);
        lemma_month_starts_grow(y1, m1, m2);
    } else {
        lemma_days_in_month_offset(y1, m1, d1);
        lemma_days_in_month_offset(y2, m2, d2);
    }
}

} // verus!
