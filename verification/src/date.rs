//! Calendar dates: the proleptic Gregorian calendar, HTTP dates, timestamps.
//!
//! A point in time is the number of whole seconds since the Unix epoch, rounded
//! down; it is negative before the epoch.

use vstd::prelude::*;
use vstd::slice::slice_subrange;

use crate::number::{
    all_digits, decimal, digits_value, is_digit, law_padding, lemma_decimal, lemma_four_digits,
    lemma_small_value, lemma_two_digits, padded, padded_string, parse_plain,
};
use crate::text::{chars_are, chars_of};

verus! {

// ---------------------------------------------------------------------------
// The calendar
// ---------------------------------------------------------------------------
/// Whether `y` is a leap year.
pub open spec fn is_leap(y: int) -> bool {
    y % 4 == 0 && (y % 100 != 0 || y % 400 == 0)
}

/// The number of days in month `m` of year `y`.
pub open spec fn days_in_month(y: int, m: int) -> int {
    if m == 2 {
        if is_leap(y) {
            29
        } else {
            28
        }
    } else if m == 4 || m == 6 || m == 9 || m == 11 {
        30
    } else {
        31
    }
}

/// The number of days of year `y` before its month `m`.
pub open spec fn days_before_month(y: int, m: int) -> int
    decreases m,
{
    if m <= 1 {
        0
    } else {
        days_before_month(y, m - 1) + days_in_month(y, m - 1)
    }
}

/// The number of leap days in the years 1 to `y`, or less those after a `y` below 1.
pub open spec fn leap_days(y: int) -> int {
    y / 4 - y / 100 + y / 400
}

/// Whether `y`-`m`-`d` names a day.
pub open spec fn valid_date(y: int, m: int, d: int) -> bool {
    1 <= m <= 12 && 1 <= d <= days_in_month(y, m)
}

/// The number of days from 1970-01-01 to `y`-`m`-`d`.
#[verifier::opaque]
pub open spec fn day_number(y: int, m: int, d: int) -> int {
    365 * (y - 1970) + leap_days(y - 1) - leap_days(1969) + days_before_month(y, m) + d - 1
}

/// The number of days from 0000-03-01 to the 1 March of year `y`.
spec fn march_days(y: int) -> int {
    365 * y + leap_days(y)
}

/// The number of days from 1 March to the first of the month `mp` months later.
spec fn march_month(mp: int) -> int {
    (153 * mp + 2) / 5
}

/// The day number, counted in years that begin with March.
#[verifier::spinoff_prover]
#[verifier::rlimit(40)]
proof fn lemma_march(y: int, m: int, d: int)
    requires
        1 <= m <= 12,
    ensures
        m > 2 ==> day_number(y, m, d) + 719468 == march_days(y) + march_month(m - 3) + d - 1,
        m <= 2 ==> day_number(y, m, d) + 719468 == march_days(y - 1) + march_month(m + 9) + d - 1,
{
    reveal(day_number);
    reveal_with_fuel(days_before_month, 13);
}

/// The years of a 400-year era, by the day of the era.
spec fn year_of_era(doe: int) -> int {
    (doe - doe / 1460 + doe / 36524 - doe / 146096) / 365
}

/// The days of a 400-year era before its year `n`.
spec fn era_days(n: int) -> int {
    365 * n + n / 4 - n / 100
}

/// The year of an era that a day of the era lies in.
#[verifier::spinoff_prover]
#[verifier::rlimit(40)]
proof fn lemma_year_of_era(doe: int)
    requires
        0 <= doe < 146097,
    ensures
        0 <= year_of_era(doe) <= 399,
        era_days(year_of_era(doe)) <= doe,
        doe < era_days(year_of_era(doe) + 1) || year_of_era(doe) == 399,
{
}

/// `a` years' days split off by whole eras of 400 years.
#[verifier::spinoff_prover]
#[verifier::rlimit(40)]
proof fn lemma_eras(era: int, yoe: int)
    requires
        0 <= yoe <= 399,
    ensures
        march_days(400 * era + yoe) == 146097 * era + era_days(yoe),
{
    assert((400 * era + yoe) / 4 == 100 * era + yoe / 4);
    assert((400 * era + yoe) / 100 == 4 * era + yoe / 100);
    assert((400 * era + yoe) / 400 == era);
}

/// The month and the day within a year that begins with March.
#[verifier::spinoff_prover]
#[verifier::rlimit(40)]
proof fn lemma_month_of_year(y: int, doy: int)
    requires
        0 <= doy <= 365,
        doy == 365 ==> is_leap(y + 1),
    ensures
        ({
            let mp = (5 * doy + 2) / 153;
            let d = doy - march_month(mp) + 1;
            &&& 0 <= mp <= 11
            &&& mp < 10 ==> valid_date(y, mp + 3, d)
            &&& mp >= 10 ==> valid_date(y + 1, mp - 9, d)
        }),
{
}

/// The calendar repeats with every era.
#[verifier::spinoff_prover]
#[verifier::rlimit(40)]
proof fn lemma_leap_in_era(era: int, n: int)
    ensures
        is_leap(400 * era + n) == is_leap(n),
{
    assert((400 * era + n) % 4 == n % 4);
    assert((400 * era + n) % 100 == n % 100);
    assert((400 * era + n) % 400 == n % 400);
}

/// A year that begins with March has a day 365 only where it ends in a leap day.
#[verifier::spinoff_prover]
#[verifier::rlimit(40)]
proof fn lemma_day_of_year(era: int, yoe: int, doe: int)
    requires
        0 <= doe < 146097,
        0 <= yoe <= 399,
        era_days(yoe) <= doe,
        doe < era_days(yoe + 1) || yoe == 399,
    ensures
        0 <= doe - era_days(yoe) <= 365,
        doe - era_days(yoe) == 365 ==> is_leap(400 * era + yoe + 1),
{
    lemma_leap_in_era(era, yoe + 1);
    assert(is_leap(400 * era + yoe + 1) == is_leap(yoe + 1));
    if yoe == 399 {
        assert(is_leap(400));
    } else {
        assert(era_days(yoe + 1) - era_days(yoe) <= 366);
        assert(era_days(yoe + 1) - era_days(yoe) == 366 ==> is_leap(yoe + 1));
    }
}

/// `z` divided by the days of an era, rounded down.
fn era_of_day(z: i64) -> (r: i64)
    requires
        i64::MIN + 146096 <= z,
    ensures
        r == (z as int) / 146097,
{
    (if z >= 0 {
        z
    } else {
        z - 146096
    }) / 146097
}

/// The year, month and day of the month `z` days after 1970-01-01.
pub fn civil_from_days(z: i64) -> (r: (i64, i64, i64))
    requires
        i64::MIN + 146096 <= z + 719468 <= i64::MAX,
    ensures
        valid_date(r.0 as int, r.1 as int, r.2 as int),
        day_number(r.0 as int, r.1 as int, r.2 as int) == z,
{
    let z: i64 = z + 719468;
    let era: i64 = era_of_day(z);
    let doe: i64 = z - era * 146097;
    proof {
        lemma_year_of_era(doe as int);
        lemma_day_of_year(era as int, year_of_era(doe as int), doe as int);
    }
    let yoe: i64 = (doe - doe / 1460 + doe / 36524 - doe / 146096) / 365;
    assert(yoe == year_of_era(doe as int));
    let y: i64 = yoe + era * 400;
    let doy: i64 = doe - (365 * yoe + yoe / 4 - yoe / 100);
    assert(doy == doe - era_days(yoe as int));
    let mp: i64 = (5 * doy + 2) / 153;
    let d: i64 = doy - (153 * mp + 2) / 5 + 1;
    let m: i64 = if mp < 10 {
        mp + 3
    } else {
        mp - 9
    };
    let year: i64 = if m <= 2 {
        y + 1
    } else {
        y
    };
    proof {
        lemma_month_of_year(y as int, doy as int);
        lemma_eras(era as int, yoe as int);
        lemma_march(year as int, m as int, d as int);
    }
    (year, m, d)
}

/// `y` divided by the years of an era, rounded down.
fn era_of_year(y: i128) -> (r: i128)
    requires
        i64::MIN - 1 <= y <= i64::MAX,
    ensures
        r == (y as int) / 400,
{
    (if y >= 0 {
        y
    } else {
        y - 399
    }) / 400
}

/// The number of days from 1970-01-01 to the day `d` of month `m` of year `y`; the
/// day may lie outside the month. The number has to fit.
pub fn days_from_civil(y: i64, m: i64, d: i64) -> (r: i64)
    requires
        1 <= m <= 12,
        i64::MIN <= day_number(y as int, m as int, d as int) <= i64::MAX,
    ensures
        r == day_number(y as int, m as int, d as int),
{
    proof {
        lemma_march(y as int, m as int, d as int);
    }
    let y: i128 = if m <= 2 {
        y as i128 - 1
    } else {
        y as i128
    };
    let era: i128 = era_of_year(y);
    let yoe: i128 = y - era * 400;
    let mp: i128 = if m > 2 {
        m as i128 - 3
    } else {
        m as i128 + 9
    };
    let doy: i128 = (153 * mp + 2) / 5 + d as i128 - 1;
    let doe: i128 = yoe * 365 + yoe / 4 - yoe / 100 + doy;
    proof {
        lemma_eras(era as int, yoe as int);
    }
    (era * 146097 + doe - 719468) as i64
}

/// The leap days never fall behind by more than the years advance.
#[verifier::spinoff_prover]
#[verifier::rlimit(40)]
proof fn lemma_years_advance(a: int, b: int)
    requires
        a <= b,
    ensures
        365 * (b - a) + leap_days(b) - leap_days(a) >= 0,
{
}

/// A leap year has one leap day, another year none.
#[verifier::spinoff_prover]
#[verifier::rlimit(40)]
proof fn lemma_leap_day(y: int)
    ensures
        leap_days(y) - leap_days(y - 1) == (if is_leap(y) {
            1int
        } else {
            0
        }),
{
    assert(y / 4 - (y - 1) / 4 == (if y % 4 == 0 {
        1int
    } else {
        0
    }));
    assert(y / 100 - (y - 1) / 100 == (if y % 100 == 0 {
        1int
    } else {
        0
    }));
    assert(y / 400 - (y - 1) / 400 == (if y % 400 == 0 {
        1int
    } else {
        0
    }));
    assert(y % 100 == 0 ==> y % 4 == 0);
    assert(y % 400 == 0 ==> y % 100 == 0);
}

/// The days of a year up to one of its days.
#[verifier::spinoff_prover]
#[verifier::rlimit(40)]
proof fn lemma_day_of_months(y: int, m: int, d: int)
    requires
        valid_date(y, m, d),
    ensures
        0 <= days_before_month(y, m) + d - 1 < (if is_leap(y) {
            366int
        } else {
            365
        }),
{
    reveal_with_fuel(days_before_month, 13);
}

/// A year holds the days between its first day and that of the next.
proof fn lemma_day_in_year(y: int, m: int, d: int)
    requires
        valid_date(y, m, d),
    ensures
        day_number(y, 1, 1) <= day_number(y, m, d) < day_number(y + 1, 1, 1),
{
    reveal(day_number);
    lemma_leap_day(y);
    lemma_day_of_months(y, m, d);
    assert(days_before_month(y, 1) == 0);
    assert(days_before_month(y + 1, 1) == 0);
}

/// The calendar law: two dates with the same day number are the same date, so
/// that the conversions between dates and day numbers undo each other.
pub proof fn law_dates_are_unique(y1: int, m1: int, d1: int, y2: int, m2: int, d2: int)
    requires
        valid_date(y1, m1, d1),
        valid_date(y2, m2, d2),
        day_number(y1, m1, d1) == day_number(y2, m2, d2),
    ensures
        y1 == y2,
        m1 == m2,
        d1 == d2,
{
    reveal(day_number);
    lemma_day_in_year(y1, m1, d1);
    lemma_day_in_year(y2, m2, d2);
    reveal_with_fuel(days_before_month, 13);
    if y1 < y2 {
        lemma_years_advance(y1, y2 - 1);
    } else if y2 < y1 {
        lemma_years_advance(y2, y1 - 1);
    }
}

/// The date `z` days after 1970-01-01, as year, month and day.
pub open spec fn civil(z: int) -> (int, int, int) {
    choose|c: (int, int, int)|
        valid_date(c.0, c.1, c.2) && #[trigger] day_number(c.0, c.1, c.2) == z
}

/// What `civil` is, given one date with that day number.
pub proof fn lemma_civil(z: int, y: int, m: int, d: int)
    requires
        valid_date(y, m, d),
        day_number(y, m, d) == z,
    ensures
        civil(z) == (y, m, d),
{
    let c = (y, m, d);
    assert(valid_date(c.0, c.1, c.2) && day_number(c.0, c.1, c.2) == z);
    let e = civil(z);
    law_dates_are_unique(y, m, d, e.0, e.1, e.2);
}

// ---------------------------------------------------------------------------
// Points in time
// ---------------------------------------------------------------------------
/// A point in time with those before the epoch moved to the epoch.
pub open spec fn since_epoch(t: int) -> int {
    if t < 0 {
        0
    } else {
        t
    }
}

/// The parts of a point in time, in UTC.
pub struct Moment {
    pub year: u64,
    pub month: u64,
    pub day: u64,
    pub hour: u64,
    pub minute: u64,
    pub second: u64,
    /// The day of the week, from 0 for Sunday.
    pub weekday: u64,
}

impl Moment {
    /// Whether these are the parts of the second `s` after the epoch.
    pub open spec fn is_at(self, s: int) -> bool {
        &&& civil(s / 86400) == (self.year as int, self.month as int, self.day as int)
        &&& valid_date(self.year as int, self.month as int, self.day as int)
        &&& day_number(self.year as int, self.month as int, self.day as int) == s / 86400
        &&& self.hour == s % 86400 / 3600
        &&& self.minute == s % 3600 / 60
        &&& self.second == s % 60
        &&& self.weekday == (s / 86400 + 4) % 7
    }
}

/// The hours, minutes and seconds of a day, and that they make up the time.
#[verifier::spinoff_prover]
#[verifier::rlimit(40)]
proof fn lemma_clock(s: int)
    requires
        s >= 0,
    ensures
        s % 86400 % 3600 == s % 3600,
        s % 86400 % 60 == s % 60,
        s % 3600 % 60 == s % 60,
        0 <= s % 86400 / 3600 < 24,
        0 <= s % 3600 / 60 < 60,
        s / 86400 * 86400 + s % 86400 / 3600 * 3600 + s % 3600 / 60 * 60 + s % 60 == s,
{
}

/// The parts of the point in time `t`; those before the epoch count as the epoch.
pub fn ymd_hms(t: i64) -> (r: Moment)
    ensures
        r.is_at(since_epoch(t as int)),
{
    let secs: i64 = if t < 0 {
        0
    } else {
        t
    };
    let days: i64 = secs / 86400;
    let rem: i64 = secs % 86400;
    let (year, month, day) = civil_from_days(days);
    proof {
        lemma_civil(days as int, year as int, month as int, day as int);
        lemma_not_before_epoch(year as int, month as int, day as int);
        lemma_clock(secs as int);
    }
    Moment {
        year: year as u64,
        month: month as u64,
        day: day as u64,
        hour: (rem / 3600) as u64,
        minute: (rem % 3600 / 60) as u64,
        second: (rem % 60) as u64,
        weekday: ((days + 4) % 7) as u64,
    }
}

/// A day on or after 1970-01-01 lies in 1970 or later.
proof fn lemma_not_before_epoch(y: int, m: int, d: int)
    requires
        valid_date(y, m, d),
        day_number(y, m, d) >= 0,
    ensures
        y >= 1970,
{
    reveal(day_number);
    lemma_day_in_year(y, m, d);
    if y < 1970 {
        lemma_years_advance(y, 1969);
        assert(day_number(1970, 1, 1) == 0);
    }
}

/// A day before 10000-01-01 lies in 9999 or earlier.
proof fn lemma_four_digit_year(y: int, m: int, d: int)
    requires
        valid_date(y, m, d),
        day_number(y, m, d) < 2932897,
    ensures
        y <= 9999,
{
    reveal(day_number);
    lemma_day_in_year(y, m, d);
    if y > 9999 {
        lemma_years_advance(9999, y - 1);
        assert(day_number(10000, 1, 1) == 2932897);
    }
}

// ---------------------------------------------------------------------------
// Names
// ---------------------------------------------------------------------------
/// The short English name of month `m`.
pub open spec fn month_name(m: int) -> Seq<char> {
    if m == 1 {
        "Jan"@
    } else if m == 2 {
        "Feb"@
    } else if m == 3 {
        "Mar"@
    } else if m == 4 {
        "Apr"@
    } else if m == 5 {
        "May"@
    } else if m == 6 {
        "Jun"@
    } else if m == 7 {
        "Jul"@
    } else if m == 8 {
        "Aug"@
    } else if m == 9 {
        "Sep"@
    } else if m == 10 {
        "Oct"@
    } else if m == 11 {
        "Nov"@
    } else {
        "Dec"@
    }
}

/// The short English name of the day of the week `w`, from 0 for Sunday.
pub open spec fn weekday_name(w: int) -> Seq<char> {
    if w == 0 {
        "Sun"@
    } else if w == 1 {
        "Mon"@
    } else if w == 2 {
        "Tue"@
    } else if w == 3 {
        "Wed"@
    } else if w == 4 {
        "Thu"@
    } else if w == 5 {
        "Fri"@
    } else {
        "Sat"@
    }
}

/// The short English name of month `m`.
fn month_text(m: u64) -> (r: &'static str)
    requires
        1 <= m <= 12,
    ensures
        r@ == month_name(m as int),
{
    if m == 1 {
        "Jan"
    } else if m == 2 {
        "Feb"
    } else if m == 3 {
        "Mar"
    } else if m == 4 {
        "Apr"
    } else if m == 5 {
        "May"
    } else if m == 6 {
        "Jun"
    } else if m == 7 {
        "Jul"
    } else if m == 8 {
        "Aug"
    } else if m == 9 {
        "Sep"
    } else if m == 10 {
        "Oct"
    } else if m == 11 {
        "Nov"
    } else {
        "Dec"
    }
}

/// The short English name of the day of the week `w`.
fn weekday_text(w: u64) -> (r: &'static str)
    requires
        w < 7,
    ensures
        r@ == weekday_name(w as int),
{
    if w == 0 {
        "Sun"
    } else if w == 1 {
        "Mon"
    } else if w == 2 {
        "Tue"
    } else if w == 3 {
        "Wed"
    } else if w == 4 {
        "Thu"
    } else if w == 5 {
        "Fri"
    } else {
        "Sat"
    }
}

/// Each name has three letters, and no two months share one.
proof fn lemma_names()
    ensures
        forall|m: int| #[trigger] month_name(m).len() == 3,
        forall|w: int| #[trigger] weekday_name(w).len() == 3,
        forall|m: int, n: int|
            1 <= m <= 12 && 1 <= n <= 12 && #[trigger] month_name(m) == #[trigger] month_name(n)
                ==> m == n,
{
    reveal_strlit("Jan");
    reveal_strlit("Feb");
    reveal_strlit("Mar");
    reveal_strlit("Apr");
    reveal_strlit("May");
    reveal_strlit("Jun");
    reveal_strlit("Jul");
    reveal_strlit("Aug");
    reveal_strlit("Sep");
    reveal_strlit("Oct");
    reveal_strlit("Nov");
    reveal_strlit("Dec");
    reveal_strlit("Sun");
    reveal_strlit("Mon");
    reveal_strlit("Tue");
    reveal_strlit("Wed");
    reveal_strlit("Thu");
    reveal_strlit("Fri");
    reveal_strlit("Sat");
    assert forall|m: int, n: int|
        1 <= m <= 12 && 1 <= n <= 12 && #[trigger] month_name(m) == #[trigger] month_name(
            n,
        ) implies m == n by {
        let a = month_name(m);
        let b = month_name(n);
        assert(a[0] == b[0] && a[1] == b[1] && a[2] == b[2]);
    }
}

// ---------------------------------------------------------------------------
// Dates as text
// ---------------------------------------------------------------------------
/// The second `s` after the epoch as an HTTP date.
pub open spec fn http_date_text(s: int) -> Seq<char> {
    let date = civil(s / 86400);
    weekday_name((s / 86400 + 4) % 7) + ", "@ + padded(date.2 as nat, 2) + " "@ + month_name(date.1)
        + " "@ + padded(date.0 as nat, 4) + " "@ + padded((s % 86400 / 3600) as nat, 2) + ":"@
        + padded((s % 3600 / 60) as nat, 2) + ":"@ + padded((s % 60) as nat, 2) + " GMT"@
}

/// The second `s` after the epoch as `YYYY-MM-DD HH:MM:SS`.
pub open spec fn datetime_text(s: int) -> Seq<char> {
    let date = civil(s / 86400);
    padded(date.0 as nat, 4) + "-"@ + padded(date.1 as nat, 2) + "-"@ + padded(date.2 as nat, 2)
        + " "@ + padded((s % 86400 / 3600) as nat, 2) + ":"@ + padded((s % 3600 / 60) as nat, 2)
        + ":"@ + padded((s % 60) as nat, 2)
}

/// The point in time `t` as an HTTP date (IMF-fixdate), such as
/// `Tue, 15 Nov 1994 08:12:31 GMT`. A time before the epoch is shown as the epoch.
pub fn http_date(t: i64) -> (r: String)
    ensures
        r@ == http_date_text(since_epoch(t as int)),
{
    let p = ymd_hms(t);
    let mut out = weekday_text(p.weekday).to_string();
    out.append(", ");
    out.append(padded_string(p.day, 2).as_str());
    out.append(" ");
    out.append(month_text(p.month));
    out.append(" ");
    out.append(padded_string(p.year, 4).as_str());
    out.append(" ");
    out.append(padded_string(p.hour, 2).as_str());
    out.append(":");
    out.append(padded_string(p.minute, 2).as_str());
    out.append(":");
    out.append(padded_string(p.second, 2).as_str());
    out.append(" GMT");
    out
}

/// The point in time `t` as `YYYY-MM-DD HH:MM:SS` in UTC. A time before the epoch
/// is shown as the epoch.
pub fn datetime_utc(t: i64) -> (r: String)
    ensures
        r@ == datetime_text(since_epoch(t as int)),
{
    let p = ymd_hms(t);
    let mut out = padded_string(p.year, 4);
    out.append("-");
    out.append(padded_string(p.month, 2).as_str());
    out.append("-");
    out.append(padded_string(p.day, 2).as_str());
    out.append(" ");
    out.append(padded_string(p.hour, 2).as_str());
    out.append(":");
    out.append(padded_string(p.minute, 2).as_str());
    out.append(":");
    out.append(padded_string(p.second, 2).as_str());
    out
}

/// Whether `s` is the name of a month.
pub open spec fn is_month(s: Seq<char>) -> bool {
    exists|m: int| 1 <= m <= 12 && s == #[trigger] month_name(m)
}

/// The month with the name `s`.
pub open spec fn month_of(s: Seq<char>) -> int {
    choose|m: int| 1 <= m <= 12 && s == #[trigger] month_name(m)
}

/// Whether `s` is the name of a day of the week.
pub open spec fn is_weekday(s: Seq<char>) -> bool {
    exists|w: int| 0 <= w < 7 && s == #[trigger] weekday_name(w)
}

/// Whether `s` has the form of an IMF-fixdate:
/// `Sun, 06 Nov 1994 08:49:37 GMT`.
pub open spec fn is_http_date(s: Seq<char>) -> bool {
    &&& s.len() == 29
    &&& is_weekday(s.subrange(0, 3))
    &&& s[3] == ','
    &&& s[4] == ' '
    &&& all_digits(s.subrange(5, 7), 10)
    &&& s[7] == ' '
    &&& is_month(s.subrange(8, 11))
    &&& s[11] == ' '
    &&& all_digits(s.subrange(12, 16), 10)
    &&& s[16] == ' '
    &&& all_digits(s.subrange(17, 19), 10)
    &&& s[19] == ':'
    &&& all_digits(s.subrange(20, 22), 10)
    &&& s[22] == ':'
    &&& all_digits(s.subrange(23, 25), 10)
    &&& s.subrange(25, 29) == " GMT"@
}

/// The seconds from the epoch to the time that the parts of `s` name.
pub open spec fn http_date_value(s: Seq<char>) -> int {
    day_number(
        digits_value(s.subrange(12, 16), 10) as int,
        month_of(s.subrange(8, 11)),
        digits_value(s.subrange(5, 7), 10) as int,
    ) * 86400 + digits_value(s.subrange(17, 19), 10) * 3600 + digits_value(s.subrange(20, 22), 10)
        * 60 + digits_value(s.subrange(23, 25), 10)
}

/// The number of the month with the name `s`.
fn month_number(s: &[char]) -> (r: Option<u64>)
    ensures
        r is Some <==> is_month(s@),
        r matches Some(m) ==> 1 <= m <= 12 && m == month_of(s@),
{
    let mut m: u64 = 1;
    while m <= 12
        invariant
            1 <= m <= 13,
            forall|n: int| 1 <= n < m ==> s@ != #[trigger] month_name(n),
        decreases 13 - m,
    {
        if chars_are(s, month_text(m)) {
            proof {
                lemma_names();
                assert(s@ == month_name(m as int));
            }
            return Some(m);
        }
        m += 1;
    }
    None
}

/// Whether `s` is the name of a day of the week.
fn names_weekday(s: &[char]) -> (r: bool)
    ensures
        r == is_weekday(s@),
{
    let mut w: u64 = 0;
    while w < 7
        invariant
            w <= 7,
            forall|n: int| 0 <= n < w ==> s@ != #[trigger] weekday_name(n),
        decreases 7 - w,
    {
        if chars_are(s, weekday_text(w)) {
            assert(s@ == weekday_name(w as int));
            return true;
        }
        w += 1;
    }
    false
}

/// The number in the characters of `s` from `from` up to `to`.
fn field(s: &[char], from: usize, to: usize) -> (r: Option<u64>)
    requires
        from < to <= s@.len(),
        to - from <= 4,
    ensures
        r is Some <==> all_digits(s@.subrange(from as int, to as int), 10),
        r matches Some(n) ==> n == digits_value(s@.subrange(from as int, to as int), 10),
        r matches Some(n) ==> n < 10000 && (to - from <= 2 ==> n < 100),
{
    let part = slice_subrange(s, from, to);
    proof {
        if all_digits(part@, 10) {
            lemma_small_value(part@);
        }
    }
    parse_plain(part, 10)
}

/// The seconds from the epoch to the time that the HTTP date `text` names, or
/// `None` if it does not have the form of an IMF-fixdate, such as
/// `Sun, 06 Nov 1994 08:49:37 GMT`.
pub fn parse_http_date(text: &str) -> (r: Option<i64>)
    ensures
        r is Some <==> is_http_date(text@),
        r matches Some(t) ==> t == http_date_value(text@),
{
    let v = chars_of(text);
    let s = v.as_slice();
    if s.len() != 29 || !names_weekday(slice_subrange(s, 0, 3)) || s[3] != ',' || s[4] != ' '
        || s[7] != ' ' || s[11] != ' ' || s[16] != ' ' || s[19] != ':' || s[22] != ':'
        || !chars_are(slice_subrange(s, 25, 29), " GMT") {
        return None;
    }
    let month = month_number(slice_subrange(s, 8, 11));
    let day = field(s, 5, 7);
    let year = field(s, 12, 16);
    let hour = field(s, 17, 19);
    let minute = field(s, 20, 22);
    let second = field(s, 23, 25);
    match (year, month, day, hour, minute, second) {
        (Some(y), Some(m), Some(d), Some(h), Some(mi), Some(se)) => {
            proof {
                lemma_day_bound(y as int, m as int, d as int);
            }
            let days: i64 = days_from_civil(y as i64, m as i64, d as i64);
            Some(days * 86400 + h as i64 * 3600 + mi as i64 * 60 + se as i64)
        },
        _ => None,
    }
}

/// The day numbers of years with four digits are small.
#[verifier::spinoff_prover]
#[verifier::rlimit(40)]
proof fn lemma_day_bound(y: int, m: int, d: int)
    requires
        0 <= y < 10000,
        1 <= m <= 12,
        0 <= d < 100,
    ensures
        -1_000_000 < day_number(y, m, d) < 10_000_000,
{
    reveal(day_number);
    reveal_with_fuel(days_before_month, 13);
}

/// Where the parts of an HTTP date stand.
proof fn lemma_http_date_layout(
    w: Seq<char>,
    d: Seq<char>,
    mo: Seq<char>,
    y: Seq<char>,
    h: Seq<char>,
    mi: Seq<char>,
    se: Seq<char>,
)
    requires
        w.len() == 3,
        d.len() == 2,
        mo.len() == 3,
        y.len() == 4,
        h.len() == 2,
        mi.len() == 2,
        se.len() == 2,
    ensures
        ({
            let s = w + ", "@ + d + " "@ + mo + " "@ + y + " "@ + h + ":"@ + mi + ":"@ + se
                + " GMT"@;
            &&& s.len() == 29
            &&& s.subrange(0, 3) == w
            &&& s[3] == ','
            &&& s[4] == ' '
            &&& s.subrange(5, 7) == d
            &&& s[7] == ' '
            &&& s.subrange(8, 11) == mo
            &&& s[11] == ' '
            &&& s.subrange(12, 16) == y
            &&& s[16] == ' '
            &&& s.subrange(17, 19) == h
            &&& s[19] == ':'
            &&& s.subrange(20, 22) == mi
            &&& s[22] == ':'
            &&& s.subrange(23, 25) == se
            &&& s.subrange(25, 29) == " GMT"@
        }),
{
    reveal_strlit(", ");
    reveal_strlit(" ");
    reveal_strlit(":");
    reveal_strlit(" GMT");
    let s = w + ", "@ + d + " "@ + mo + " "@ + y + " "@ + h + ":"@ + mi + ":"@ + se + " GMT"@;
    assert(s.subrange(0, 3) =~= w);
    assert(s.subrange(5, 7) =~= d);
    assert(s.subrange(8, 11) =~= mo);
    assert(s.subrange(12, 16) =~= y);
    assert(s.subrange(17, 19) =~= h);
    assert(s.subrange(20, 22) =~= mi);
    assert(s.subrange(23, 25) =~= se);
    assert(s.subrange(25, 29) =~= " GMT"@);
}

/// The round-trip law: an HTTP date read back is the time that it was written
/// from. It holds up to the year 9999, after which the year no longer has the
/// four digits of an IMF-fixdate.
pub proof fn law_http_date_round_trip(t: int)
    requires
        0 <= t < 253402300800,
    ensures
        is_http_date(http_date_text(t)),
        http_date_value(http_date_text(t)) == t,
{
    let s = http_date_text(t);
    let date = civil(t / 86400);
    lemma_civil_exists(t / 86400);
    lemma_not_before_epoch(date.0, date.1, date.2);
    lemma_four_digit_year(date.0, date.1, date.2);
    lemma_clock(t);
    lemma_two_digits(date.2 as nat);
    lemma_four_digits(date.0 as nat);
    lemma_two_digits((t % 86400 / 3600) as nat);
    lemma_two_digits((t % 3600 / 60) as nat);
    lemma_two_digits((t % 60) as nat);
    let w = weekday_name((t / 86400 + 4) % 7);
    let mo = month_name(date.1);
    lemma_names();
    lemma_http_date_layout(
        w,
        padded(date.2 as nat, 2),
        mo,
        padded(date.0 as nat, 4),
        padded((t % 86400 / 3600) as nat, 2),
        padded((t % 3600 / 60) as nat, 2),
        padded((t % 60) as nat, 2),
    );
    assert(month_of(mo) == date.1);
}

/// Every day has a date.
proof fn lemma_civil_exists(z: int)
    ensures
        valid_date(civil(z).0, civil(z).1, civil(z).2),
        day_number(civil(z).0, civil(z).1, civil(z).2) == z,
{
    let w = z + 719468;
    let era = w / 146097;
    let doe = w % 146097;
    let yoe = year_of_era(doe);
    lemma_year_of_era(doe);
    lemma_day_of_year(era, yoe, doe);
    let y = yoe + era * 400;
    let doy = doe - era_days(yoe);
    let mp = (5 * doy + 2) / 153;
    let d = doy - march_month(mp) + 1;
    let m = if mp < 10 {
        mp + 3
    } else {
        mp - 9
    };
    let year = if m <= 2 {
        y + 1
    } else {
        y
    };
    lemma_month_of_year(y, doy);
    lemma_eras(era, yoe);
    lemma_march(year, m, d);
    lemma_civil(z, year, m, d);
}

/// The calendar in numbers: day 0 is 1970-01-01, each day has the number after that
/// of the day before, and a month follows the other after as many days as it has:
/// 31 or 30, and February 28, or 29 in every fourth year but for the centuries that
/// 400 does not divide.
#[verifier::spinoff_prover]
#[verifier::rlimit(60)]
pub proof fn law_calendar(y: int, m: int, d: int)
    requires
        1 <= m <= 12,
    ensures
        day_number(1970, 1, 1) == 0,
        day_number(y, m, d + 1) == day_number(y, m, d) + 1,
        m == 1 || m == 3 || m == 5 || m == 7 || m == 8 || m == 10 ==> day_number(y, m + 1, 1)
            == day_number(y, m, 31) + 1 && (valid_date(y, m, d) <==> 1 <= d <= 31),
        m == 12 ==> day_number(y + 1, 1, 1) == day_number(y, 12, 31) + 1 && (valid_date(y, m, d)
            <==> 1 <= d <= 31),
        m == 4 || m == 6 || m == 9 || m == 11 ==> day_number(y, m + 1, 1) == day_number(y, m, 30)
            + 1 && (valid_date(y, m, d) <==> 1 <= d <= 30),
        m == 2 && y % 4 == 0 && (y % 100 != 0 || y % 400 == 0) ==> day_number(y, 3, 1)
            == day_number(y, 2, 29) + 1 && (valid_date(y, m, d) <==> 1 <= d <= 29),
        m == 2 && (y % 4 != 0 || (y % 100 == 0 && y % 400 != 0)) ==> day_number(y, 3, 1)
            == day_number(y, 2, 28) + 1 && (valid_date(y, m, d) <==> 1 <= d <= 28),
{
    reveal(day_number);
    assert(days_before_month(1970, 1) == 0);
    assert(days_before_month(y, m + 1) == days_before_month(y, m) + days_in_month(y, m));
    if m == 12 {
        lemma_leap_day(y);
        assert(days_before_month(y + 1, 1) == 0);
        assert(days_before_month(y, 12) == (if is_leap(y) {
            335int
        } else {
            334
        })) by {
            reveal_with_fuel(days_before_month, 13);
        }
    }
}

/// Every day has one date, and the date of a day number is the one that has it.
pub proof fn law_every_day_has_a_date(z: int, y: int, m: int, d: int)
    ensures
        valid_date(civil(z).0, civil(z).1, civil(z).2),
        day_number(civil(z).0, civil(z).1, civil(z).2) == z,
        valid_date(y, m, d) ==> civil(day_number(y, m, d)) == (y, m, d),
{
    lemma_civil_exists(z);
    if valid_date(y, m, d) {
        lemma_civil(day_number(y, m, d), y, m, d);
    }
}

/// The three letters of month `m`.
proof fn lemma_month_letters(m: int)
    requires
        1 <= m <= 12,
    ensures
        month_name(m) == "JanFebMarAprMayJunJulAugSepOctNovDec"@.subrange(3 * m - 3, 3 * m),
{
    reveal_strlit("JanFebMarAprMayJunJulAugSepOctNovDec");
    reveal_strlit("Jan");
    reveal_strlit("Feb");
    reveal_strlit("Mar");
    reveal_strlit("Apr");
    reveal_strlit("May");
    reveal_strlit("Jun");
    reveal_strlit("Jul");
    reveal_strlit("Aug");
    reveal_strlit("Sep");
    reveal_strlit("Oct");
    reveal_strlit("Nov");
    reveal_strlit("Dec");
    let all = "JanFebMarAprMayJunJulAugSepOctNovDec"@;
    assert(m == 1 || m == 2 || m == 3 || m == 4 || m == 5 || m == 6 || m == 7 || m == 8 || m == 9
        || m == 10 || m == 11 || m == 12);
    assert(month_name(m) =~= all.subrange(3 * m - 3, 3 * m));
}

/// The three letters of the day of the week `w`.
proof fn lemma_weekday_letters(w: int)
    requires
        0 <= w < 7,
    ensures
        weekday_name(w) == "SunMonTueWedThuFriSat"@.subrange(3 * w, 3 * w + 3),
{
    reveal_strlit("SunMonTueWedThuFriSat");
    reveal_strlit("Sun");
    reveal_strlit("Mon");
    reveal_strlit("Tue");
    reveal_strlit("Wed");
    reveal_strlit("Thu");
    reveal_strlit("Fri");
    reveal_strlit("Sat");
    let all = "SunMonTueWedThuFriSat"@;
    assert(w == 0 || w == 1 || w == 2 || w == 3 || w == 4 || w == 5 || w == 6);
    assert(weekday_name(w) =~= all.subrange(3 * w, 3 * w + 3));
}

/// What a point in time looks like: the second `se` of minute `mi` of hour `h` of a
/// day is shown by the names and numbers of that day and by that hour, minute and
/// second. 1970-01-01 was a Thursday, and the days of the week follow each other.
#[verifier::spinoff_prover]
pub proof fn law_dates_are_shown(y: int, m: int, d: int, h: int, mi: int, se: int)
    requires
        valid_date(y, m, d),
        y >= 1970,
        0 <= h < 24,
        0 <= mi < 60,
        0 <= se < 60,
    ensures
        ({
            let t = day_number(y, m, d) * 86400 + h * 3600 + mi * 60 + se;
            let w = (day_number(y, m, d) + 4) % 7;
            &&& http_date_text(t) == "SunMonTueWedThuFriSat"@.subrange(3 * w, 3 * w + 3) + ", "@
                + padded(d as nat, 2) + " "@ + "JanFebMarAprMayJunJulAugSepOctNovDec"@.subrange(
                3 * m - 3,
                3 * m,
            ) + " "@ + padded(y as nat, 4) + " "@ + padded(h as nat, 2) + ":"@ + padded(
                mi as nat,
                2,
            ) + ":"@ + padded(se as nat, 2) + " GMT"@
            &&& datetime_text(t) == padded(y as nat, 4) + "-"@ + padded(m as nat, 2) + "-"@
                + padded(d as nat, 2) + " "@ + padded(h as nat, 2) + ":"@ + padded(mi as nat, 2)
                + ":"@ + padded(se as nat, 2)
        }),
{
    let n = day_number(y, m, d);
    let t = n * 86400 + h * 3600 + mi * 60 + se;
    lemma_clock_of(n, h, mi, se);
    lemma_civil(n, y, m, d);
    lemma_month_letters(m);
    lemma_weekday_letters((n + 4) % 7);
}

/// The hours, minutes and seconds that a time is made up of.
#[verifier::spinoff_prover]
#[verifier::rlimit(40)]
proof fn lemma_clock_of(n: int, h: int, mi: int, se: int)
    requires
        0 <= h < 24,
        0 <= mi < 60,
        0 <= se < 60,
    ensures
        ({
            let t = n * 86400 + h * 3600 + mi * 60 + se;
            &&& t / 86400 == n
            &&& t % 86400 / 3600 == h
            &&& t % 3600 / 60 == mi
            &&& t % 60 == se
        }),
{
    let t = n * 86400 + h * 3600 + mi * 60 + se;
    assert(t % 86400 == h * 3600 + mi * 60 + se);
    assert(t % 3600 == mi * 60 + se);
    assert(t % 60 == se);
}

/// How an HTTP date is read: from the day, month, year, hour, minute and second in
/// it, whatever day of the week it names and even where a number is out of its range.
#[verifier::spinoff_prover]
pub proof fn law_http_dates_are_read(w: int, y: int, m: int, d: int, h: int, mi: int, se: int)
    requires
        0 <= w < 7,
        0 <= y < 10000,
        1 <= m <= 12,
        0 <= d < 100,
        0 <= h < 100,
        0 <= mi < 100,
        0 <= se < 100,
    ensures
        ({
            let s = "SunMonTueWedThuFriSat"@.subrange(3 * w, 3 * w + 3) + ", "@ + padded(
                d as nat,
                2,
            ) + " "@ + "JanFebMarAprMayJunJulAugSepOctNovDec"@.subrange(3 * m - 3, 3 * m) + " "@
                + padded(y as nat, 4) + " "@ + padded(h as nat, 2) + ":"@ + padded(mi as nat, 2)
                + ":"@ + padded(se as nat, 2) + " GMT"@;
            &&& is_http_date(s)
            &&& http_date_value(s) == day_number(y, m, d) * 86400 + h * 3600 + mi * 60 + se
        }),
{
    lemma_month_letters(m);
    lemma_weekday_letters(w);
    lemma_names();
    lemma_two_digits(d as nat);
    lemma_four_digits(y as nat);
    lemma_two_digits(h as nat);
    lemma_two_digits(mi as nat);
    lemma_two_digits(se as nat);
    lemma_http_date_layout(
        weekday_name(w),
        padded(d as nat, 2),
        month_name(m),
        padded(y as nat, 4),
        padded(h as nat, 2),
        padded(mi as nat, 2),
        padded(se as nat, 2),
    );
    assert(month_of(month_name(m)) == m);
}

/// Nothing else is read as an HTTP date: a text that is one has its 29 characters,
/// its names, its digits and its separators where they belong.
pub proof fn law_only_http_dates_are_read(s: Seq<char>) -> (r: (int, int))
    requires
        is_http_date(s),
    ensures
        s.len() == 29,
        0 <= r.0 < 7,
        s.subrange(0, 3) == "SunMonTueWedThuFriSat"@.subrange(3 * r.0, 3 * r.0 + 3),
        1 <= r.1 <= 12,
        s.subrange(8, 11) == "JanFebMarAprMayJunJulAugSepOctNovDec"@.subrange(
            3 * r.1 - 3,
            3 * r.1,
        ),
        s[3] == ',',
        s[4] == ' ' && s[7] == ' ' && s[11] == ' ' && s[16] == ' ',
        s[19] == ':' && s[22] == ':',
        s.skip(25) == seq![' ', 'G', 'M', 'T'],
        forall|i: int|
            5 <= i < 7 || 12 <= i < 16 || 17 <= i < 19 || 20 <= i < 22 || 23 <= i < 25 ==> '0'
                <= #[trigger] s[i] <= '9',
{
    let w = choose|w: int| 0 <= w < 7 && s.subrange(0, 3) == #[trigger] weekday_name(w);
    let m = choose|m: int| 1 <= m <= 12 && s.subrange(8, 11) == #[trigger] month_name(m);
    lemma_weekday_letters(w);
    lemma_month_letters(m);
    reveal_strlit(" GMT");
    assert(s.skip(25) =~= s.subrange(25, 29));
    assert(" GMT"@ =~= seq![' ', 'G', 'M', 'T']);
    assert forall|i: int|
        5 <= i < 7 || 12 <= i < 16 || 17 <= i < 19 || 20 <= i < 22 || 23 <= i < 25 implies '0'
        <= #[trigger] s[i] <= '9' by {
        if i < 7 {
            assert(s.subrange(5, 7)[i - 5] == s[i]);
        } else if i < 16 {
            assert(s.subrange(12, 16)[i - 12] == s[i]);
        } else if i < 19 {
            assert(s.subrange(17, 19)[i - 17] == s[i]);
        } else if i < 22 {
            assert(s.subrange(20, 22)[i - 20] == s[i]);
        } else {
            assert(s.subrange(23, 25)[i - 23] == s[i]);
        }
    }
    (w, m)
}

/// An HTTP date stands on one line, and begins and ends with a letter.
pub proof fn lemma_http_date_chars(t: int)
    requires
        t >= 0,
    ensures
        ({
            let s = http_date_text(t);
            &&& s.len() > 0
            &&& 'A' <= s[0] <= 'Z'
            &&& s[s.len() - 1] == 'T'
            &&& forall|i: int| 0 <= i < s.len() ==> ' ' <= #[trigger] s[i] <= 'z'
        }),
{
    let date = civil(t / 86400);
    lemma_civil_exists(t / 86400);
    lemma_not_before_epoch(date.0, date.1, date.2);
    let w = weekday_name((t / 86400 + 4) % 7);
    let mo = month_name(date.1);
    let a = padded(date.2 as nat, 2);
    let b = padded(date.0 as nat, 4);
    let c = padded((t % 86400 / 3600) as nat, 2);
    let d = padded((t % 3600 / 60) as nat, 2);
    let e = padded((t % 60) as nat, 2);
    reveal_strlit(", ");
    reveal_strlit(" ");
    reveal_strlit(":");
    reveal_strlit(" GMT");
    lemma_name_letters((t / 86400 + 4) % 7, date.1);
    lemma_padded_digits(date.2 as nat, 2);
    lemma_padded_digits(date.0 as nat, 4);
    lemma_padded_digits((t % 86400 / 3600) as nat, 2);
    lemma_padded_digits((t % 3600 / 60) as nat, 2);
    lemma_padded_digits((t % 60) as nat, 2);
    lemma_plain_join(w, ", "@);
    let s1 = w + ", "@;
    lemma_plain_join(s1, a);
    let s2 = s1 + a;
    lemma_plain_join(s2, " "@);
    let s3 = s2 + " "@;
    lemma_plain_join(s3, mo);
    let s4 = s3 + mo;
    lemma_plain_join(s4, " "@);
    let s5 = s4 + " "@;
    lemma_plain_join(s5, b);
    let s6 = s5 + b;
    lemma_plain_join(s6, " "@);
    let s7 = s6 + " "@;
    lemma_plain_join(s7, c);
    let s8 = s7 + c;
    lemma_plain_join(s8, ":"@);
    let s9 = s8 + ":"@;
    lemma_plain_join(s9, d);
    let s10 = s9 + d;
    lemma_plain_join(s10, ":"@);
    let s11 = s10 + ":"@;
    lemma_plain_join(s11, e);
    let s12 = s11 + e;
    lemma_plain_join(s12, " GMT"@);
    let s = s12 + " GMT"@;
    assert(s == http_date_text(t));
    assert(s[0] == w[0]);
    assert(s[s.len() - 1] == " GMT"@[3]);
}

/// Whether the characters of `s` are printable, from the space to the letter `z`.
spec fn is_plain(s: Seq<char>) -> bool {
    forall|i: int| 0 <= i < s.len() ==> ' ' <= #[trigger] s[i] <= 'z'
}

/// Two plain texts in a row are plain.
proof fn lemma_plain_join(a: Seq<char>, b: Seq<char>)
    requires
        is_plain(a),
        is_plain(b),
    ensures
        is_plain(a + b),
{
}

/// A padded number is plain.
proof fn lemma_padded_digits(n: nat, width: nat)
    ensures
        is_plain(padded(n, width)),
{
    law_padding(n, width);
    lemma_decimal(n);
    let s = padded(n, width);
    let k = s.len() - decimal(n).len();
    assert forall|i: int| 0 <= i < s.len() implies ' ' <= #[trigger] s[i] <= 'z' by {
        if i >= k {
            assert(s.skip(k)[i - k] == s[i]);
            assert(is_digit(decimal(n)[i - k], 10));
        }
    }
}

/// The names of days and months are plain.
proof fn lemma_name_letters(w: int, m: int)
    requires
        0 <= w < 7,
        1 <= m <= 12,
    ensures
        is_plain(weekday_name(w)),
        is_plain(month_name(m)),
        weekday_name(w).len() == 3,
        'A' <= weekday_name(w)[0] <= 'Z',
{
    reveal_strlit("Jan");
    reveal_strlit("Feb");
    reveal_strlit("Mar");
    reveal_strlit("Apr");
    reveal_strlit("May");
    reveal_strlit("Jun");
    reveal_strlit("Jul");
    reveal_strlit("Aug");
    reveal_strlit("Sep");
    reveal_strlit("Oct");
    reveal_strlit("Nov");
    reveal_strlit("Dec");
    reveal_strlit("Sun");
    reveal_strlit("Mon");
    reveal_strlit("Tue");
    reveal_strlit("Wed");
    reveal_strlit("Thu");
    reveal_strlit("Fri");
    reveal_strlit("Sat");
}

} // verus!
