//! Wall-clock instants, supplied by the caller (the library never reads a clock).
use vstd::prelude::*;

use crate::model::fmt::{
    fmt_padded, lemma_fmt_padded_reads_back, lemma_parse_signed_bound, parse_signed, parse_signed_exec, parse_unsigned,
    parse_unsigned_exec, pow10,
    push_padded_signed,
};
use crate::model::calendar::{
    civil_days, civil_from_days, civil_from_days_ok, civil_from_days_spec, day_era,
    days_from_civil, days_from_civil_ok, div_floor, is_valid_date, lemma_date_of_days_of_date,
    lemma_day_numbers_ordered, lemma_days_of_date_of_day, lemma_year_of_era_bounds_one_era, march_year, year_era,
};
use crate::text::{chars_of, is_ws, push_char, trim, trim_chars, trim_end, trim_start};
use vstd::arithmetic::div_mod::lemma_fundamental_div_mod_converse;

verus! {

/// A local wall-clock instant. Ordered field by field, from `year` to `second`.
#[derive(Clone, Copy, Debug, PartialEq, Eq, Structural, PartialOrd, Ord, Hash)]
pub struct Timestamp {
    pub year: i32,
    pub month: u8,
    pub day: u8,
    pub hour: u8,
    pub minute: u8,
    pub second: u8,
}

/// `a` comes strictly before `b` (field by field, from `year` to `second`).
pub open spec fn ts_before(a: Timestamp, b: Timestamp) -> bool {
    ||| a.year < b.year
    ||| a.year == b.year && a.month < b.month
    ||| a.year == b.year && a.month == b.month && a.day < b.day
    ||| a.year == b.year && a.month == b.month && a.day == b.day && a.hour < b.hour
    ||| a.year == b.year && a.month == b.month && a.day == b.day && a.hour == b.hour && a.minute
        < b.minute
    ||| a.year == b.year && a.month == b.month && a.day == b.day && a.hour == b.hour && a.minute
        == b.minute && a.second < b.second
}

/// The compact stamp `yyyyMMddHHmmss` of `t`.
pub open spec fn id_stamp_of(t: Timestamp) -> Seq<char> {
    fmt_padded(t.year as int, 4) + fmt_padded(t.month as int, 2) + fmt_padded(t.day as int, 2)
        + fmt_padded(t.hour as int, 2) + fmt_padded(t.minute as int, 2) + fmt_padded(
        t.second as int,
        2,
    )
}

/// The stamp `YYYY-MM-DD HH:MM:SS` of `t`.
pub open spec fn verified_stamp_of(t: Timestamp) -> Seq<char> {
    fmt_padded(t.year as int, 4) + seq!['-'] + fmt_padded(t.month as int, 2) + seq!['-']
        + fmt_padded(t.day as int, 2) + seq![' '] + fmt_padded(t.hour as int, 2) + seq![':']
        + fmt_padded(t.minute as int, 2) + seq![':'] + fmt_padded(t.second as int, 2)
}

/// What [`Timestamp::parse_verified_stamp`] reads from `raw`: after trimming, exactly
/// 19 characters `YYYY-MM-DD HH:MM:SS`: the year four ASCII digits, or `-` and
/// three digits (as a negative year is written); every other field exactly two
/// ASCII digits, no sign; month 1–12, day 1–31, hour 0–23, minute and second 0–59.
///
/// (A byte length of 19 with the separators in place, as checked on the UTF-8
/// encoding, comes to the same: a non-ASCII character in any field makes that
/// field unreadable.)
pub open spec fn parse_verified(raw: Seq<char>) -> Option<Timestamp> {
    let t = trim(raw);
    if t.len() != 19 || t[4] != '-' || t[7] != '-' || t[10] != ' ' || t[13] != ':' || t[16]
        != ':' {
        None
    } else {
        match (
            parse_signed(t.subrange(0, 4)),
            parse_unsigned(t.subrange(5, 7)),
            parse_unsigned(t.subrange(8, 10)),
            parse_unsigned(t.subrange(11, 13)),
            parse_unsigned(t.subrange(14, 16)),
            parse_unsigned(t.subrange(17, 19)),
        ) {
            (Some(y), Some(mo), Some(d), Some(h), Some(mi), Some(s)) => if 1 <= mo <= 12 && 1
                <= d <= 31 && h <= 23 && mi <= 59 && s <= 59 {
                Some(
                    Timestamp {
                        year: y as i32,
                        month: mo as u8,
                        day: d as u8,
                        hour: h as u8,
                        minute: mi as u8,
                        second: s as u8,
                    },
                )
            } else {
                None
            },
            _ => None,
        }
    }
}

/// `x` clamped to the range of `i64` (what saturating `i64` arithmetic gives).
pub open spec fn clamp_i64(x: int) -> int {
    if x > i64::MAX {
        i64::MAX as int
    } else if x < i64::MIN {
        i64::MIN as int
    } else {
        x
    }
}

/// `a + b`, saturating at the bounds of `i64`.
pub fn sat_add(a: i64, b: i64) -> (r: i64)
    ensures
        r == clamp_i64(a + b),
{
    let s = a as i128 + b as i128;
    if s > i64::MAX as i128 {
        i64::MAX
    } else if s < i64::MIN as i128 {
        i64::MIN
    } else {
        s as i64
    }
}

/// `a * b`, saturating at the bounds of `i64`.
pub fn sat_mul(a: i64, b: i64) -> (r: i64)
    ensures
        r == clamp_i64(a * b),
{
    proof {
        assert(-0x8000_0000_0000_0000 * 0x7fff_ffff_ffff_ffff <= a * b <= 0x8000_0000_0000_0000
            * 0x8000_0000_0000_0000) by (nonlinear_arith)
            requires
                i64::MIN <= a <= i64::MAX,
                i64::MIN <= b <= i64::MAX,
        ;
    }
    let p = a as i128 * b as i128;
    if p > i64::MAX as i128 {
        i64::MAX
    } else if p < i64::MIN as i128 {
        i64::MIN
    } else {
        p as i64
    }
}

/// The seconds since 1970-01-01 00:00:00 of an instant.
pub open spec fn epoch_secs(t: Timestamp) -> int {
    civil_days(t.year as int, t.month as int, t.day as int) * 86400 + t.hour * 3600 + t.minute
        * 60 + t.second
}

/// The instant `secs` seconds after 1970-01-01 00:00:00.
pub open spec fn from_epoch(secs: int) -> Timestamp {
    let days = secs / 86400;
    let rem = secs % 86400;
    let c = civil_from_days_spec(days);
    Timestamp {
        year: c.0 as i32,
        month: c.1 as u8,
        day: c.2 as u8,
        hour: (rem / 3600) as u8,
        minute: ((rem % 3600) / 60) as u8,
        second: (rem % 60) as u8,
    }
}

/// The seconds of an instant can be computed without overflow.
pub open spec fn epoch_ok(t: Timestamp) -> bool {
    days_from_civil_ok(t.year as int, t.month as int, t.day as int)
}

/// The instant of a second count can be computed without overflow.
pub open spec fn from_epoch_ok(secs: int) -> bool {
    civil_from_days_ok(secs / 86400)
}

/// A real date with a time of day.
pub open spec fn is_valid_timestamp(t: Timestamp) -> bool {
    is_valid_date(t.year as int, t.month as int, t.day as int) && t.hour < 24 && t.minute < 60
        && t.second < 60
}

/// The seconds `a` is after `b`; zero when `a` is not later.
pub open spec fn secs_since(a: Timestamp, b: Timestamp) -> int {
    if epoch_secs(a) > epoch_secs(b) {
        epoch_secs(a) - epoch_secs(b)
    } else {
        0
    }
}

/// The instant `days` whole days after `t` (before it when negative), with the
/// second counts saturating at the bounds of `i64`.
pub open spec fn add_days(t: Timestamp, days: int) -> Timestamp {
    from_epoch(clamp_i64(epoch_secs(t) + clamp_i64(days * 86400)))
}

/// The day number of every date is far inside the range of `i64` seconds.
pub proof fn lemma_civil_days_bound(year: int, month: int, day: int)
    requires
        i32::MIN <= year <= i32::MAX,
        0 <= month <= 255,
        0 <= day <= 255,
        days_from_civil_ok(year, month, day),
    ensures
        -1_000_000_000_000 <= civil_days(year, month, day) <= 1_000_000_000_000,
{
    let y = march_year(year, month);
    vstd::arithmetic::div_mod::lemma_fundamental_div_mod(y, 400);
    vstd::arithmetic::div_mod::lemma_mod_bound(y, 400);
    let era = year_era(y);
    assert(-5368712 <= era <= 5368710);
    let yoe = y - era * 400;
    assert(0 <= yoe < 400);
}

/// A stamp that reads back as an instant names one whose seconds compute without overflow.
pub proof fn lemma_parsed_epoch_ok(raw: Seq<char>)
    ensures
        parse_verified(raw) matches Some(t) ==> epoch_ok(t),
{
    let t = trim(raw);
    if t.len() == 19 {
        lemma_parse_signed_bound(t.subrange(0, 4));
        assert(pow10(4) == 10000) by {
            reveal_with_fuel(pow10, 5);
        }
    }
}

fn low_byte(x: u32) -> (r: u8)
    ensures
        r == x % 256,
{
    (x % 256) as u8
}

impl Timestamp {
    /// The instant with these fields; each of month, day, hour, minute and second
    /// is kept modulo 256.
    pub fn from_ymd_hms(year: i32, month: u32, day: u32, hour: u32, minute: u32, second: u32) -> (r:
        Self)
        ensures
            r.year == year,
            r.month == month % 256,
            r.day == day % 256,
            r.hour == hour % 256,
            r.minute == minute % 256,
            r.second == second % 256,
    {
        Timestamp {
            year,
            month: low_byte(month),
            day: low_byte(day),
            hour: low_byte(hour),
            minute: low_byte(minute),
            second: low_byte(second),
        }
    }

    /// Whether `self` comes strictly after `other`.
    pub fn is_after(self, other: Self) -> (r: bool)
        ensures
            r == ts_before(other, self),
    {
        if self.year != other.year {
            return self.year > other.year;
        }
        if self.month != other.month {
            return self.month > other.month;
        }
        if self.day != other.day {
            return self.day > other.day;
        }
        if self.hour != other.hour {
            return self.hour > other.hour;
        }
        if self.minute != other.minute {
            return self.minute > other.minute;
        }
        self.second > other.second
    }

    /// The compact stamp `yyyyMMddHHmmss`, from the same instant as
    /// [`Self::verified_stamp`].
    pub fn id_stamp(self) -> (r: String)
        ensures
            r@ == id_stamp_of(self),
    {
        let mut out = String::new();
        push_padded_signed(&mut out, self.year as i64, 4);
        push_padded_signed(&mut out, self.month as i64, 2);
        push_padded_signed(&mut out, self.day as i64, 2);
        push_padded_signed(&mut out, self.hour as i64, 2);
        push_padded_signed(&mut out, self.minute as i64, 2);
        push_padded_signed(&mut out, self.second as i64, 2);
        out
    }

    /// The stamp `YYYY-MM-DD HH:MM:SS` written to `freshness.last-verified`.
    pub fn verified_stamp(self) -> (r: String)
        ensures
            r@ == verified_stamp_of(self),
    {
        let mut out = String::new();
        push_padded_signed(&mut out, self.year as i64, 4);
        push_char(&mut out, '-');
        push_padded_signed(&mut out, self.month as i64, 2);
        push_char(&mut out, '-');
        push_padded_signed(&mut out, self.day as i64, 2);
        push_char(&mut out, ' ');
        push_padded_signed(&mut out, self.hour as i64, 2);
        push_char(&mut out, ':');
        push_padded_signed(&mut out, self.minute as i64, 2);
        push_char(&mut out, ':');
        push_padded_signed(&mut out, self.second as i64, 2);
        out
    }

    /// Reads a stamp written by [`Self::verified_stamp`]; surrounding whitespace is
    /// ignored, otherwise the text must match exactly.
    pub fn parse_verified_stamp(raw: &str) -> (r: Option<Self>)
        ensures
            r == parse_verified(raw@),
    {
        let v = chars_of(raw);
        let t = trim_chars(v.as_slice());
        if t.len() != 19 {
            return None;
        }
        if t[4] != '-' || t[7] != '-' || t[10] != ' ' || t[13] != ':' || t[16] != ':' {
            return None;
        }
        let ts = t.as_slice();
        let year = match parse_signed_exec(ts, 0, 4) {
            Some(x) => x,
            None => return None,
        };
        let month = match parse_unsigned_exec(ts, 5, 7) {
            Some(x) => x,
            None => return None,
        };
        let day = match parse_unsigned_exec(ts, 8, 10) {
            Some(x) => x,
            None => return None,
        };
        let hour = match parse_unsigned_exec(ts, 11, 13) {
            Some(x) => x,
            None => return None,
        };
        let minute = match parse_unsigned_exec(ts, 14, 16) {
            Some(x) => x,
            None => return None,
        };
        let second = match parse_unsigned_exec(ts, 17, 19) {
            Some(x) => x,
            None => return None,
        };
        if !(1 <= month && month <= 12) || !(1 <= day && day <= 31) || hour > 23 || minute > 59
            || second > 59 {
            return None;
        }
        Some(Self::from_ymd_hms(year as i32, month, day, hour, minute, second))
    }

    /// Whether the seconds of this instant can be computed: false only for a year
    /// within 447 of the lowest `i32` or the day `03-00`.
    pub fn has_epoch_secs(self) -> (r: bool)
        ensures
            r == epoch_ok(self),
    {
        let y: i64 = if self.month <= 2 {
            self.year as i64 - 1
        } else {
            self.year as i64
        };
        y >= i32::MIN as i64 + 447 && !(self.month == 3 && self.day == 0)
    }

    /// Seconds since 1970-01-01 00:00:00 (negative before it).
    pub fn to_epoch_secs(self) -> (r: i64)
        requires
            epoch_ok(self),
        ensures
            r == epoch_secs(self),
    {
        proof {
            lemma_civil_days_bound(self.year as int, self.month as int, self.day as int);
        }
        let days = days_from_civil(self.year, self.month, self.day);
        let a = sat_mul(days, 86_400);
        let b = sat_add(a, self.hour as i64 * 3_600);
        let c = sat_add(b, self.minute as i64 * 60);
        sat_add(c, self.second as i64)
    }

    /// The instant `secs` seconds after 1970-01-01 00:00:00.
    #[verifier::spinoff_prover]
    #[verifier::rlimit(30)]
    pub fn from_epoch_secs(secs: i64) -> (r: Self)
        requires
            from_epoch_ok(secs as int),
        ensures
            r == from_epoch(secs as int),
    {
        let days = div_floor(secs, 86_400);
        proof {
            vstd::arithmetic::div_mod::lemma_fundamental_div_mod(secs as int, 86400);
            vstd::arithmetic::div_mod::lemma_mod_bound(secs as int, 86400);
        }
        let rem = (secs - days * 86_400) as u32;
        assert(rem as int == secs as int % 86400);
        let (year, month, day) = civil_from_days(days);
        let hour = rem / 3_600;
        let minute = (rem % 3_600) / 60;
        let second = rem % 60;
        assert(hour < 24 && minute < 60 && second < 60);
        let r = Self::from_ymd_hms(year, month as u32, day as u32, hour, minute, second);
        assert(r.hour == (secs as int % 86400) / 3600);
        assert(r.minute == ((secs as int % 86400) % 3600) / 60);
        assert(r.second == (secs as int % 86400) % 60);
        r
    }

    /// Seconds `self` is after `earlier`; zero when `self` is not later.
    pub fn saturating_secs_since(self, earlier: Self) -> (r: u64)
        requires
            epoch_ok(self),
            epoch_ok(earlier),
        ensures
            r == secs_since(self, earlier),
    {
        proof {
            lemma_civil_days_bound(self.year as int, self.month as int, self.day as int);
            lemma_civil_days_bound(earlier.year as int, earlier.month as int, earlier.day as int);
        }
        let later = self.to_epoch_secs();
        let early = earlier.to_epoch_secs();
        let diff = sat_add(later, -early);
        if diff > 0 {
            diff as u64
        } else {
            0
        }
    }

    /// The instant `days` whole days later (earlier when negative).
    pub fn saturating_add_days(self, days: i64) -> (r: Self)
        requires
            epoch_ok(self),
            from_epoch_ok(clamp_i64(epoch_secs(self) + clamp_i64(days * 86400))),
        ensures
            r == add_days(self, days as int),
    {
        let secs = self.to_epoch_secs();
        let shift = sat_mul(days, 86_400);
        Self::from_epoch_secs(sat_add(secs, shift))
    }
}

/// A real instant survives the trip through its second count:
/// `from_epoch_secs(to_epoch_secs(t)) == t`, and both directions compute without
/// overflow, for every real date and time whose seconds can be computed.
pub proof fn lemma_epoch_roundtrip_instant(t: Timestamp)
    requires
        is_valid_timestamp(t),
        epoch_ok(t),
    ensures
        from_epoch_ok(epoch_secs(t)),
        from_epoch(epoch_secs(t)) == t,
{
    let days = civil_days(t.year as int, t.month as int, t.day as int);
    let rem = t.hour * 3600 + t.minute * 60 + t.second;
    assert(0 <= rem < 86400);
    lemma_fundamental_div_mod_converse(epoch_secs(t), 86400, days, rem);
    lemma_fundamental_div_mod_converse(rem, 3600, t.hour as int, t.minute * 60 + t.second);
    lemma_fundamental_div_mod_converse(t.minute * 60 + t.second, 60, t.minute as int, t.second as int);
    lemma_date_of_days_of_date(t.year as int, t.month as int, t.day as int);
    lemma_civil_days_bound(t.year as int, t.month as int, t.day as int);
    let y = march_year(t.year as int, t.month as int);
    vstd::arithmetic::div_mod::lemma_fundamental_div_mod(y, 400);
    vstd::arithmetic::div_mod::lemma_mod_bound(y, 400);
    assert(-5368709 <= year_era(y) <= 5368709);
}

/// A second count survives the trip through its instant:
/// `to_epoch_secs(from_epoch_secs(s)) == s`, and the instant is a real date and time.
pub proof fn lemma_epoch_roundtrip_secs(secs: int)
    requires
        from_epoch_ok(secs),
    ensures
        is_valid_timestamp(from_epoch(secs)),
        epoch_secs(from_epoch(secs)) == secs,
{
    let days = secs / 86400;
    let rem = secs % 86400;
    vstd::arithmetic::div_mod::lemma_fundamental_div_mod(secs, 86400);
    vstd::arithmetic::div_mod::lemma_mod_bound(secs, 86400);
    lemma_days_of_date_of_day(days);
    let zz = days + 719468;
    vstd::arithmetic::div_mod::lemma_fundamental_div_mod(zz, 146097);
    vstd::arithmetic::div_mod::lemma_mod_bound(zz, 146097);
    let c = civil_from_days_spec(days);
    let doe = zz - day_era(zz) * 146097;
    lemma_year_of_era_bounds_one_era(doe as u32);
    assert(i32::MIN <= c.0 <= i32::MAX);
    vstd::arithmetic::div_mod::lemma_fundamental_div_mod(rem, 3600);
    vstd::arithmetic::div_mod::lemma_mod_bound(rem, 3600);
    vstd::arithmetic::div_mod::lemma_fundamental_div_mod(rem % 3600, 60);
    vstd::arithmetic::div_mod::lemma_mod_bound(rem % 3600, 60);
    vstd::arithmetic::div_mod::lemma_fundamental_div_mod(rem, 60);
    vstd::arithmetic::div_mod::lemma_mod_bound(rem, 60);
    assert(rem % 60 == (rem % 3600) % 60) by {
        vstd::arithmetic::div_mod::lemma_mod_mod(rem, 60, 60);
        assert(rem == 3600 * (rem / 3600) + rem % 3600);
        assert(rem == 60 * (60 * (rem / 3600)) + rem % 3600);
        vstd::arithmetic::div_mod::lemma_mod_multiples_vanish(60 * (rem / 3600), rem % 3600, 60);
    }
}

/// The seconds between two real instants are exact: `later.saturating_secs_since(earlier)`
/// is the difference of their second counts, and zero when `later` is not after
/// `earlier`.
pub proof fn lemma_secs_since_exact(later: Timestamp, earlier: Timestamp)
    requires
        is_valid_timestamp(later),
        is_valid_timestamp(earlier),
        epoch_ok(later),
        epoch_ok(earlier),
    ensures
        secs_since(later, earlier) == if epoch_secs(later) > epoch_secs(earlier) {
            epoch_secs(later) - epoch_secs(earlier)
        } else {
            0
        },
        from_epoch(epoch_secs(later)) == later,
        from_epoch(epoch_secs(earlier)) == earlier,
{
    lemma_epoch_roundtrip_instant(later);
    lemma_epoch_roundtrip_instant(earlier);
}

/// Adding whole days moves an instant forward by exactly those days: for a real
/// instant and `days >= 0`, as long as the result stays in range, its seconds grow
/// by `days * 86400` (so more days never give an earlier instant), and
/// `t.saturating_add_days(days).saturating_secs_since(t) == days * 86400`.
pub proof fn lemma_add_days_secs_since(t: Timestamp, days: int)
    requires
        is_valid_timestamp(t),
        epoch_ok(t),
        days >= 0,
        epoch_secs(t) + days * 86400 <= i64::MAX,
        from_epoch_ok(epoch_secs(t) + days * 86400),
    ensures
        is_valid_timestamp(add_days(t, days)),
        epoch_secs(add_days(t, days)) == epoch_secs(t) + days * 86400,
        secs_since(add_days(t, days), t) == days * 86400,
{
    lemma_civil_days_bound(t.year as int, t.month as int, t.day as int);
    let s = epoch_secs(t) + days * 86400;
    assert(clamp_i64(days * 86400) == days * 86400);
    assert(clamp_i64(epoch_secs(t) + clamp_i64(days * 86400)) == s);
    lemma_epoch_roundtrip_secs(s);
}

/// A verification stamp reads back as the instant it was written from, for the
/// years written with four characters (-999 to 9999) and fields in their ranges.
pub proof fn lemma_verified_stamp_reads_back(t: Timestamp)
    requires
        -999 <= t.year <= 9999,
        1 <= t.month <= 12,
        1 <= t.day <= 31,
        t.hour <= 23,
        t.minute <= 59,
        t.second <= 59,
    ensures
        parse_verified(verified_stamp_of(t)) == Some(t),
{
    reveal_with_fuel(pow10, 5);
    lemma_fmt_padded_reads_back(t.year as int, 4);
    lemma_fmt_padded_reads_back(t.month as int, 2);
    lemma_fmt_padded_reads_back(t.day as int, 2);
    lemma_fmt_padded_reads_back(t.hour as int, 2);
    lemma_fmt_padded_reads_back(t.minute as int, 2);
    lemma_fmt_padded_reads_back(t.second as int, 2);
    let y = fmt_padded(t.year as int, 4);
    let mo = fmt_padded(t.month as int, 2);
    let d = fmt_padded(t.day as int, 2);
    let h = fmt_padded(t.hour as int, 2);
    let mi = fmt_padded(t.minute as int, 2);
    let se = fmt_padded(t.second as int, 2);
    let s = verified_stamp_of(t);
    assert(s.len() == 19);
    assert(s[0] == y[0]);
    assert(s[18] == se[1]);
    assert(!is_ws(s[0]));
    assert(!is_ws(s.last()));
    assert(trim_start(s) == s);
    assert(trim_end(s) == s);
    assert(trim(s) == s);
    assert(s.subrange(0, 4) =~= y);
    assert(s.subrange(5, 7) =~= mo);
    assert(s.subrange(8, 10) =~= d);
    assert(s.subrange(11, 13) =~= h);
    assert(s.subrange(14, 16) =~= mi);
    assert(s.subrange(17, 19) =~= se);
}

/// For real instants, one comes strictly before another exactly when its second
/// count since 1970-01-01 is smaller: the comparison follows the whole instant,
/// down to the second.
pub proof fn lemma_before_is_earlier(a: Timestamp, b: Timestamp)
    requires
        is_valid_timestamp(a),
        is_valid_timestamp(b),
    ensures
        ts_before(a, b) <==> epoch_secs(a) < epoch_secs(b),
{
    let da = civil_days(a.year as int, a.month as int, a.day as int);
    let db = civil_days(b.year as int, b.month as int, b.day as int);
    let ta = a.hour * 3600 + a.minute * 60 + a.second;
    let tb = b.hour * 3600 + b.minute * 60 + b.second;
    assert(0 <= ta < 86400 && 0 <= tb < 86400);
    if a.year < b.year || (a.year == b.year && a.month < b.month) || (a.year == b.year && a.month
        == b.month && a.day < b.day) {
        lemma_day_numbers_ordered(
            a.year as int,
            a.month as int,
            a.day as int,
            b.year as int,
            b.month as int,
            b.day as int,
        );
        assert(da + 1 <= db);
        assert(da * 86400 + 86400 <= db * 86400);
    } else if b.year < a.year || (a.year == b.year && b.month < a.month) || (a.year == b.year
        && a.month == b.month && b.day < a.day) {
        lemma_day_numbers_ordered(
            b.year as int,
            b.month as int,
            b.day as int,
            a.year as int,
            a.month as int,
            a.day as int,
        );
        assert(db + 1 <= da);
        assert(db * 86400 + 86400 <= da * 86400);
    } else {
        assert(da == db);
    }
}

} // verus!
