//! Local wall-clock time, computed without the system's time-zone database.
//!
//! A zone is a fixed offset and one rule for daylight saving time: from the second Sunday of March
//! at 02:00 standard time to the first Sunday of November at 02:00 daylight time.
//!
//! The reading that occurs twice when the clock falls back is taken for its first occurrence; the
//! one that is skipped when the clock springs forward is taken for the instant as long after the
//! jump as the reading is past it.

use vstd::arithmetic::div_mod::{
    lemma_fundamental_div_mod, lemma_fundamental_div_mod_converse, lemma_mod_bound,
    lemma_mod_multiples_vanish,
};
use vstd::prelude::*;
use vstd::string::*;

use crate::number::{
    dec, dec_int_padded, dec_padded, digit_char, push_dec_int_padded, push_dec_padded,
};
use crate::order::{before, lemma_before_at};

verus! {

/// A proleptic-Gregorian calendar date, independent of any time zone.
#[derive(Debug, Clone, Copy, PartialEq, Eq, Structural)]
pub struct Civil {
    pub year: i64,
    pub month: u32,
    pub day: u32,
}

/// The days from the first of March of year zero to the first of January 1970. Days are counted
/// from the former on the way to a date, so that many must be left to the end of 64 bits.
pub const EPOCH_SHIFT: i64 = 719_468;

pub open spec fn is_leap(y: int) -> bool {
    y % 4 == 0 && (y % 100 != 0 || y % 400 == 0)
}

pub open spec fn year_days(y: int) -> int {
    if is_leap(y) {
        366
    } else {
        365
    }
}

pub open spec fn month_days(y: int, m: int) -> int {
    if m == 2 {
        if is_leap(y) {
            29
        } else {
            28
        }
    } else if m == 4 || m == 6 || m == 9 || m == 11 {
        30
    } else {
        31
    }
}

/// The days of year `y` before month `m`.
pub open spec fn days_before_month(y: int, m: int) -> int
    decreases m,
{
    if m <= 1 {
        0
    } else {
        days_before_month(y, m - 1) + month_days(y, m - 1)
    }
}

/// The days between the first of January 1970 and the first of January of year `y`: 365 for each
/// year between, and one for each leap year.
pub open spec fn days_before_year(y: int) -> int {
    365 * y + (y - 1) / 4 - (y - 1) / 100 + (y - 1) / 400 - 719527
}

/// The days between the first of January 1970 and a date.
pub open spec fn day_number(y: int, m: int, d: int) -> int {
    days_before_year(y) + days_before_month(y, m) + d - 1
}

/// Whether the day with number `n` can be counted in 64 bits.
pub open spec fn counts_day(n: int) -> bool {
    i64::MIN <= n <= i64::MAX - EPOCH_SHIFT
}

/// The start of 1970 is day zero, and each year starts as many days after the one before as that
/// one is long.
pub proof fn law_years_follow_each_other(y: int)
    ensures
        days_before_year(1970) == 0,
        days_before_year(y + 1) == days_before_year(y) + year_days(y),
        days_before_month(y, 13) == year_days(y),
{
    lemma_months(y);
    lemma_quotient_steps(y);
}

/// A quotient grows by one at each multiple of the divisor.
proof fn lemma_quotient_step(y: int, d: int)
    requires
        d > 1,
    ensures
        y / d - (y - 1) / d == (if y % d == 0 {
            1int
        } else {
            0
        }),
{
    let q = y / d;
    let r = y % d;
    lemma_fundamental_div_mod(y, d);
    lemma_mod_bound(y, d);
    if r == 0 {
        assert((q - 1) * d == q * d - d) by (nonlinear_arith);
        assert(d * q == q * d) by (nonlinear_arith);
        lemma_fundamental_div_mod_converse(y - 1, d, q - 1, d - 1);
    } else {
        assert(d * q == q * d) by (nonlinear_arith);
        lemma_fundamental_div_mod_converse(y - 1, d, q, r - 1);
    }
}

/// The same for the three divisors of the calendar, of which each divides the next.
proof fn lemma_quotient_steps(y: int)
    ensures
        y / 4 - (y - 1) / 4 == (if y % 4 == 0 {
            1int
        } else {
            0
        }),
        y / 100 - (y - 1) / 100 == (if y % 100 == 0 {
            1int
        } else {
            0
        }),
        y / 400 - (y - 1) / 400 == (if y % 400 == 0 {
            1int
        } else {
            0
        }),
        y % 400 == 0 ==> y % 100 == 0,
        y % 100 == 0 ==> y % 4 == 0,
{
    lemma_quotient_step(y, 4);
    lemma_quotient_step(y, 100);
    lemma_quotient_step(y, 400);
    lemma_fundamental_div_mod(y, 400);
    lemma_fundamental_div_mod(y, 100);
    if y % 400 == 0 {
        lemma_fundamental_div_mod_converse(y, 100, 4 * (y / 400), 0);
    }
    if y % 100 == 0 {
        lemma_fundamental_div_mod_converse(y, 4, 25 * (y / 100), 0);
    }
}

pub proof fn lemma_months(y: int)
    ensures
        days_before_month(y, 1) == 0,
        days_before_month(y, 2) == 31,
        days_before_month(y, 3) == year_days(y) - 306,
        days_before_month(y, 4) == year_days(y) - 275,
        days_before_month(y, 5) == year_days(y) - 245,
        days_before_month(y, 6) == year_days(y) - 214,
        days_before_month(y, 7) == year_days(y) - 184,
        days_before_month(y, 8) == year_days(y) - 153,
        days_before_month(y, 9) == year_days(y) - 122,
        days_before_month(y, 10) == year_days(y) - 92,
        days_before_month(y, 11) == year_days(y) - 61,
        days_before_month(y, 12) == year_days(y) - 31,
        days_before_month(y, 13) == year_days(y),
{
    reveal_with_fuel(days_before_month, 14);
}

impl Civil {
    /// Whether this is a date of the calendar.
    pub open spec fn valid(self) -> bool {
        1 <= self.month <= 12 && 1 <= self.day <= month_days(self.year as int, self.month as int)
    }

    /// The days since the first of January 1970.
    pub open spec fn number(self) -> int {
        day_number(self.year as int, self.month as int, self.day as int)
    }

    /// The number of the first day of the month.
    pub open spec fn month_start(self) -> int {
        day_number(self.year as int, self.month as int, 1)
    }

    /// Whether this is a day of a month, or past one, that can be counted in 64 bits.
    pub open spec fn in_range(self) -> bool {
        &&& 1 <= self.month <= 12
        &&& i64::MIN <= self.month_start()
        &&& counts_day(self.number())
    }
}

/// The days of the years of an era before year `k` of it, where a year starts in March.
spec fn march_days(k: int) -> int {
    365 * k + k / 4 - k / 100
}

/// The day of the March year with which month `mp` of it starts.
spec fn march_month(mp: int) -> int {
    (153 * mp + 2) / 5
}

proof fn lemma_march_months()
    ensures
        march_month(0) == 0,
        march_month(1) == 31,
        march_month(2) == 61,
        march_month(3) == 92,
        march_month(4) == 122,
        march_month(5) == 153,
        march_month(6) == 184,
        march_month(7) == 214,
        march_month(8) == 245,
        march_month(9) == 275,
        march_month(10) == 306,
        march_month(11) == 337,
        march_month(12) == 367,
{
}

/// Counting in eras of 400 years from March gives the number of the day.
proof fn lemma_march_count(y: int, m: int, d: int)
    requires
        1 <= m <= 12,
    ensures
        ({
            let yy = if m <= 2 {
                y - 1
            } else {
                y
            };
            let mp = (m + 9) % 12;
            yy / 400 * 146097 + march_days(yy % 400) + march_month(mp) + d - 1 - 719468
                == day_number(y, m, d)
        }),
{
    lemma_months(y);
    lemma_march_months();
    let yy = if m <= 2 {
        y - 1
    } else {
        y
    };
    let era = yy / 400;
    let yoe = yy % 400;
    assert(yy == 400 * era + yoe);
    assert(yy / 4 == 100 * era + yoe / 4);
    assert(yy / 100 == 4 * era + yoe / 100);
    assert(era * 146097 + march_days(yoe) == 365 * yy + yy / 4 - yy / 100 + yy / 400);
    lemma_quotient_steps(y);
}

/// The year of an era that day `doe` of it falls in.
spec fn year_of_era(doe: int) -> int {
    (doe - doe / 1460 + doe / 36524 - doe / 146096) / 365
}

proof fn lemma_year_of_era(doe: int)
    requires
        0 <= doe <= 146096,
    ensures
        0 <= year_of_era(doe) <= 399,
        march_days(year_of_era(doe)) <= doe,
        doe - march_days(year_of_era(doe)) <= 365,
        doe - march_days(year_of_era(doe)) == 365 ==> (year_of_era(doe) + 1) % 4 == 0 && ((
        year_of_era(doe) + 1) % 100 != 0 || (year_of_era(doe) + 1) % 400 == 0),
{
    let c = if doe == 146096 {
        3int
    } else {
        doe / 36524
    };
    let r = doe - c * 36524;
    assert(0 <= c <= 3);
    assert(0 <= r <= 36524);
    let q = if r == 36524 {
        24int
    } else {
        r / 1461
    };
    let s = r - q * 1461;
    assert(0 <= q <= 24);
    assert(0 <= s <= 1460);
    let w = if s == 1460 {
        3int
    } else {
        s / 365
    };
    let t = s - w * 365;
    let k = 100 * c + 4 * q + w;
    assert(0 <= w <= 3);
    assert(0 <= t <= 365);
    assert(k / 4 == 25 * c + q);
    assert(k / 100 == c);
    assert(march_days(k) == 36500 * c + 1460 * q + 365 * w + 25 * c + q - c);
    assert(doe == march_days(k) + t);
    assert(year_of_era(doe) == k) by {
        lemma_year_formula(doe, c, q, w, t);
    }
}

/// The closed form for the year of an era agrees with taking off whole centuries, spans of four
/// years and years in turn.
proof fn lemma_year_formula(doe: int, c: int, q: int, w: int, t: int)
    requires
        0 <= c <= 3,
        0 <= q <= 24,
        0 <= w <= 3,
        0 <= t <= 365,
        t == 365 ==> w == 3 && (q < 24 || c == 3),
        doe == c * 36524 + q * 1461 + w * 365 + t,
        0 <= doe <= 146096,
    ensures
        year_of_era(doe) == 100 * c + 4 * q + w,
{
    let k = 100 * c + 4 * q + w;
    let a = doe / 1460;
    let b = doe / 36524;
    let e = doe / 146096;
    let x = doe - a + b - e;
    // Each quotient is its number of spans, but for the leap days already counted.
    assert(365 * k <= x < 365 * k + 365);
}

fn div_floor(z: i64, d: i64) -> (q: i64)
    requires
        d > 1,
    ensures
        q == z as int / d as int,
{
    assert(i64::MIN <= z as int / d as int <= i64::MAX) by (nonlinear_arith)
        requires
            d > 1,
            i64::MIN <= z <= i64::MAX,
    ;
    match z.checked_div_euclid(d) {
        Some(q) => q,
        None => 0,
    }
}

fn rem_floor(z: i64, d: i64) -> (r: i64)
    requires
        d > 1,
    ensures
        r == z as int % d as int,
        0 <= r < d,
{
    assert(0 <= z as int % d as int && (z as int % d as int) < d) by (nonlinear_arith)
        requires
            d > 1,
    ;
    match z.checked_rem_euclid(d) {
        Some(r) => r,
        None => 0,
    }
}

impl Civil {
    /// Days since the Unix epoch.
    pub fn epoch_day(&self) -> (n: i64)
        requires
            self.in_range(),
        ensures
            n == self.number(),
    {
        proof {
            lemma_march_count(self.year as int, self.month as int, self.day as int);
            lemma_march_months();
            lemma_months(self.year as int);
        }
        let y: i64 = if self.month <= 2 {
            self.year - 1
        } else {
            self.year
        };
        let era: i64 = div_floor(y, 400);
        let yoe: i64 = y - era * 400;
        let mp: i64 = (self.month as i64 + 9) % 12;
        let doy: i64 = (153 * mp + 2) / 5 + self.day as i64 - 1;
        let doe: i64 = yoe * 365 + yoe / 4 - yoe / 100 + doy;
        era * 146097 + doe - EPOCH_SHIFT
    }
}

/// Years start in their order.
proof fn lemma_year_order(a: int, b: int)
    requires
        a <= b,
    ensures
        days_before_year(a) + 365 * (b - a) <= days_before_year(b),
    decreases b - a,
{
    if a < b {
        lemma_year_order(a, b - 1);
        law_years_follow_each_other(b - 1);
    }
}

/// Months start in their order.
proof fn lemma_month_order(y: int, a: int, b: int)
    requires
        1 <= a < b,
    ensures
        days_before_month(y, a) + month_days(y, a) <= days_before_month(y, b),
    decreases b - a,
{
    if a + 1 < b {
        lemma_month_order(y, a, b - 1);
    }
}

/// A valid date lies in its year.
proof fn lemma_date_in_year(c: Civil)
    requires
        c.valid(),
    ensures
        days_before_year(c.year as int) <= c.number() < days_before_year(c.year + 1),
{
    lemma_day_in_year(c.year as int, c.month as int, c.day as int);
}

/// No two dates have the same number: a day has one date.
pub proof fn law_dates_are_distinct(a: Civil, b: Civil)
    requires
        a.valid(),
        b.valid(),
        a.number() == b.number(),
    ensures
        a == b,
{
    lemma_date_in_year(a);
    lemma_date_in_year(b);
    if a.year < b.year {
        lemma_year_order(a.year + 1, b.year as int);
    } else if b.year < a.year {
        lemma_year_order(b.year + 1, a.year as int);
    } else if a.month < b.month {
        lemma_month_order(a.year as int, a.month as int, b.month as int);
    } else if b.month < a.month {
        lemma_month_order(a.year as int, b.month as int, a.month as int);
    }
}

/// Whether day `n` falls in year `y`.
pub open spec fn in_year(n: int, y: int) -> bool {
    days_before_year(y) <= n < days_before_year(y + 1)
}

/// The year that day `n` falls in.
pub open spec fn year_of_day(n: int) -> int {
    choose|y: int| in_year(n, y)
}

proof fn lemma_year_of_day(n: int, y: int)
    requires
        in_year(n, y),
    ensures
        year_of_day(n) == y,
{
    let z = year_of_day(n);
    assert(in_year(n, z));
    if z < y {
        lemma_year_order(z + 1, y);
    } else if y < z {
        lemma_year_order(y + 1, z);
    }
}

/// The parts of the day with number `z`: its March year, the day of that year, and its month.
spec fn march_parts(z: int) -> (int, int, int) {
    let s = z + 719468;
    let doe = s % 146097;
    let yoe = year_of_era(doe);
    let doy = doe - march_days(yoe);
    (s / 146097 * 400 + yoe, doy, (5 * doy + 2) / 153)
}

/// The month of a March year that day `doy` of it falls in.
proof fn lemma_march_month_of(doy: int)
    requires
        0 <= doy <= 365,
    ensures
        0 <= (5 * doy + 2) / 153 <= 11,
        march_month((5 * doy + 2) / 153) <= doy < march_month((5 * doy + 2) / 153 + 1),
{
}

/// Within an era a year has the remainders of its place in it.
proof fn lemma_era_remainders(era: int, yoe: int)
    requires
        0 <= yoe <= 399,
    ensures
        (era * 400 + yoe) / 400 == era,
        (era * 400 + yoe) % 400 == yoe,
        (era * 400 + yoe + 1) % 4 == (yoe + 1) % 4,
        (era * 400 + yoe + 1) % 100 == (yoe + 1) % 100,
        (era * 400 + yoe + 1) % 400 == (yoe + 1) % 400,
{
    lemma_fundamental_div_mod_converse(era * 400 + yoe, 400, era, yoe);
    lemma_mod_multiples_vanish(100 * era, yoe + 1, 4);
    lemma_mod_multiples_vanish(4 * era, yoe + 1, 100);
    lemma_mod_multiples_vanish(era, yoe + 1, 400);
}

/// A day of a month lies in the year of that month.
proof fn lemma_day_in_year(y: int, m: int, d: int)
    requires
        1 <= m <= 12,
        1 <= d <= month_days(y, m),
    ensures
        in_year(day_number(y, m, d), y),
{
    lemma_months(y);
    law_years_follow_each_other(y);
}

proof fn lemma_march_parts(z: int)
    ensures
        ({
            let (y, doy, mp) = march_parts(z);
            let m = if mp < 10 {
                mp + 3
            } else {
                mp - 9
            };
            let year = if m <= 2 {
                y + 1
            } else {
                y
            };
            let day = doy - march_month(mp) + 1;
            &&& 0 <= doy <= 365
            &&& 0 <= mp <= 11
            &&& 1 <= day <= month_days(year, m)
            &&& day_number(year, m, day) == z
            &&& in_year(z, year)
        }),
{
    let s = z + 719468;
    let era = s / 146097;
    let doe = s % 146097;
    lemma_year_of_era(doe);
    lemma_march_months();
    let yoe = year_of_era(doe);
    let (y, doy, mp) = march_parts(z);
    lemma_march_month_of(doy);
    lemma_era_remainders(era, yoe);
    let m = if mp < 10 {
        mp + 3
    } else {
        mp - 9
    };
    let year = if m <= 2 {
        y + 1
    } else {
        y
    };
    let day = doy - march_month(mp) + 1;
    assert((m + 9) % 12 == mp);
    assert(y / 400 == era && y % 400 == yoe);
    lemma_march_count(year, m, day);
    assert(s == 146097 * era + doe);
    assert(day_number(year, m, day) == z);
    if mp == 11 {
        assert(day == doy - 336);
        if doy == 365 {
            assert(is_leap(y + 1));
        }
    }
    assert(1 <= day <= month_days(year, m));
    lemma_day_in_year(year, m, day);
}

impl Civil {
    /// Inverse of [`Civil::epoch_day`].
    pub fn from_epoch_day(z: i64) -> (c: Civil)
        requires
            counts_day(z as int),
        ensures
            c.valid(),
            c.number() == z,
            c.year == year_of_day(z as int),
            c.in_range() <==> i64::MIN <= c.month_start(),
    {
        proof {
            lemma_march_parts(z as int);
        }
        let s: i64 = z + EPOCH_SHIFT;
        let era: i64 = div_floor(s, 146097);
        assert(s == 146097 * era + s as int % 146097);
        let doe: i64 = s - era * 146097;
        proof {
            lemma_year_of_era(doe as int);
            lemma_march_months();
        }
        let yoe: i64 = (doe - doe / 1460 + doe / 36524 - doe / 146096) / 365;
        assert(yoe == year_of_era(doe as int));
        let y: i64 = yoe + era * 400;
        let doy: i64 = doe - (365 * yoe + yoe / 4 - yoe / 100);
        let mp: i64 = (5 * doy + 2) / 153;
        let day: u32 = (doy - (153 * mp + 2) / 5 + 1) as u32;
        let month: u32 = (if mp < 10 {
            mp + 3
        } else {
            mp - 9
        }) as u32;
        let year: i64 = if month <= 2 {
            y + 1
        } else {
            y
        };
        proof {
            lemma_year_of_day(z as int, year as int);
        }
        Civil { year, month, day }
    }

    /// The day before.
    pub fn pred(&self) -> (c: Civil)
        requires
            self.in_range(),
            counts_day(self.number() - 1),
        ensures
            c.valid(),
            c.number() == self.number() - 1,
            c.in_range() <==> i64::MIN <= c.month_start(),
    {
        Civil::from_epoch_day(self.epoch_day() - 1)
    }

    /// The day after.
    pub fn succ(&self) -> (c: Civil)
        requires
            self.in_range(),
            counts_day(self.number() + 1),
        ensures
            c.valid(),
            c.number() == self.number() + 1,
            c.in_range() <==> i64::MIN <= c.month_start(),
    {
        Civil::from_epoch_day(self.epoch_day() + 1)
    }
}

/// The weekday of day `n`: 0 is Sunday. Day zero was a Thursday.
pub open spec fn weekday_of(n: int) -> int {
    (n + 4) % 7
}

/// The number of the `n`th day of month `m` that falls on weekday `w`.
pub open spec fn nth_weekday_of(y: int, m: int, w: int, n: int) -> int {
    let first = day_number(y, m, 1);
    first + (w - weekday_of(first)) % 7 + (n - 1) * 7
}

/// The `n`th weekday falls on that weekday, in the `n`th seven days of the month.
pub proof fn law_nth_weekday(y: int, m: int, w: int, n: int)
    requires
        0 <= w < 7,
    ensures
        weekday_of(nth_weekday_of(y, m, w, n)) == w,
        day_number(y, m, 1) + 7 * (n - 1) <= nth_weekday_of(y, m, w, n) < day_number(y, m, 1) + 7
            * n,
{
}

/// A date in the form `YYYY-MM-DD`.
pub open spec fn iso_text(c: Civil) -> Seq<char> {
    dec_int_padded(c.year as int, 4) + "-"@ + dec_padded(c.month as nat, 2) + "-"@ + dec_padded(
        c.day as nat,
        2,
    )
}

impl Civil {
    /// 0 is Sunday, 6 is Saturday.
    pub fn weekday(&self) -> (w: u32)
        requires
            self.in_range(),
        ensures
            w == weekday_of(self.number()),
            w < 7,
    {
        rem_floor(self.epoch_day() + 4, 7) as u32
    }

    /// The `n`th (from 1) occurrence of `weekday` in a month.
    pub fn nth_weekday(year: i64, month: u32, weekday: u32, n: i64) -> (c: Civil)
        requires
            (Civil { year, month, day: 1 }).in_range(),
            weekday <= u32::MAX - 7,
            i64::MIN <= 7 * (n - 1) <= i64::MAX,
            counts_day(nth_weekday_of(year as int, month as int, weekday as int, n as int)),
        ensures
            c.valid(),
            c.number() == nth_weekday_of(year as int, month as int, weekday as int, n as int),
            c.in_range() <==> i64::MIN <= c.month_start(),
    {
        let first: Civil = Civil { year, month, day: 1 };
        let delta: u32 = (weekday + 7 - first.weekday()) % 7;
        Civil::from_epoch_day(first.epoch_day() + delta as i64 + (n - 1) * 7)
    }

    pub fn to_iso(&self) -> (s: String)
        ensures
            s@ == iso_text(*self),
    {
        let mut s: String = String::new();
        push_dec_int_padded(&mut s, self.year, 4);
        assert(s@ =~= dec_int_padded(self.year as int, 4));
        s.append("-");
        push_dec_padded(&mut s, self.month as u64, 2);
        s.append("-");
        push_dec_padded(&mut s, self.day as u64, 2);
        s
    }
}

/// A fixed standard-time offset and, where the other offset differs, daylight saving time.
#[derive(Debug, Clone, Copy, PartialEq, Eq, Structural)]
pub struct Tz {
    pub std_offset_secs: i64,
    pub dst_offset_secs: i64,
}

/// The device's zone: five hours behind UTC, four in summer.
pub fn device_tz() -> (tz: Tz)
    ensures
        tz.std_offset_secs == -18_000,
        tz.dst_offset_secs == -14_400,
{
    Tz { std_offset_secs: -18_000, dst_offset_secs: -14_400 }
}

/// Two years and two days in seconds: no further from an instant, by the standard offset, is
/// anything that is counted for the year it falls in.
pub const TWO_YEARS: i64 = 63_417_600;

/// How far a number is from zero.
pub open spec fn distance(x: int) -> int {
    if x < 0 {
        -x
    } else {
        x
    }
}

impl Tz {
    /// The larger of the two offsets, whichever way it goes.
    pub open spec fn reach(self) -> int {
        if distance(self.std_offset_secs as int) < distance(self.dst_offset_secs as int) {
            distance(self.dst_offset_secs as int)
        } else {
            distance(self.std_offset_secs as int)
        }
    }

    /// Whether the instants of year `y` can be counted in 64 bits.
    pub open spec fn counts_year(self, y: int) -> bool {
        distance(days_before_year(y) * 86_400) + self.reach() + TWO_YEARS / 2 <= i64::MAX
    }

    /// Whether the instants that tell the time at `utc` can be counted in 64 bits.
    pub open spec fn counts(self, utc: int) -> bool {
        distance(utc) + 2 * self.reach() + TWO_YEARS <= i64::MAX
    }

    /// Whether the instants that a reading can be taken for can be counted in 64 bits.
    pub open spec fn counts_reading(self, day: int, second: int) -> bool {
        distance(day * 86_400) + distance(second) + 3 * self.reach() + TWO_YEARS <= i64::MAX
    }

    /// Whether the readings of a minute today and tomorrow can be counted in 64 bits.
    pub open spec fn counts_next(self, utc: int, minute: int) -> bool {
        distance(utc) + minute * 60 + 4 * self.reach() + TWO_YEARS + 2 * 86_400 <= i64::MAX
    }

    pub open spec fn has_dst(self) -> bool {
        self.dst_offset_secs != self.std_offset_secs
    }

    /// The instant at which daylight saving time starts in year `y`.
    pub open spec fn dst_start(self, y: int) -> int {
        nth_weekday_of(y, 3, 0, 2) * 86_400 + 7200 - self.std_offset_secs
    }

    /// The instant at which it ends.
    pub open spec fn dst_end(self, y: int) -> int {
        nth_weekday_of(y, 11, 0, 1) * 86_400 + 7200 - self.dst_offset_secs
    }

    /// Whether daylight saving time is in effect at `utc`.
    pub open spec fn dst_at(self, utc: int) -> bool {
        let y = year_of_day((utc + self.std_offset_secs) / 86_400);
        self.has_dst() && self.dst_start(y) <= utc < self.dst_end(y)
    }

    pub open spec fn offset(self, utc: int) -> int {
        if self.dst_at(utc) {
            self.dst_offset_secs as int
        } else {
            self.std_offset_secs as int
        }
    }

    /// The reading of the local clock at `utc`, in seconds since it read 1970-01-01 00:00.
    pub open spec fn reading(self, utc: int) -> int {
        utc + self.offset(utc)
    }

    /// Whether a reading occurs in standard time.
    pub open spec fn reads_in_std(self, reading: int) -> bool {
        !self.dst_at(reading - self.std_offset_secs)
    }

    /// Whether a reading occurs in daylight time.
    pub open spec fn reads_in_dst(self, reading: int) -> bool {
        self.dst_at(reading - self.dst_offset_secs)
    }

    /// The instant that a reading is taken for.
    pub open spec fn instant(self, reading: int) -> int {
        let as_std = reading - self.std_offset_secs;
        let as_dst = reading - self.dst_offset_secs;
        if !self.has_dst() {
            as_std
        } else if self.reads_in_std(reading) == self.reads_in_dst(reading) {
            if self.reads_in_std(reading) == (as_std <= as_dst) {
                as_std
            } else {
                as_dst
            }
        } else if self.reads_in_std(reading) {
            as_std
        } else {
            as_dst
        }
    }

    pub fn observes_dst(&self) -> (r: bool)
        ensures
            r == self.has_dst(),
    {
        self.dst_offset_secs != self.std_offset_secs
    }

    /// The instants at which daylight saving time starts and ends in `year`.
    pub fn dst_range_utc(&self, year: i64) -> (r: (i64, i64))
        requires
            self.counts_year(year as int),
        ensures
            r.0 == self.dst_start(year as int),
            r.1 == self.dst_end(year as int),
    {
        proof {
            lemma_months(year as int);
            law_years_follow_each_other(year as int);
            law_nth_weekday(year as int, 3, 0, 2);
            law_nth_weekday(year as int, 11, 0, 1);
        }
        let start: Civil = Civil::nth_weekday(year, 3, 0, 2);
        let end: Civil = Civil::nth_weekday(year, 11, 0, 1);
        (
            start.epoch_day() * 86_400 + 7200 - self.std_offset_secs,
            end.epoch_day() * 86_400 + 7200 - self.dst_offset_secs,
        )
    }

    /// Whether daylight saving time is in effect at `utc`.
    pub fn is_dst(&self, utc: i64) -> (r: bool)
        requires
            self.counts(utc as int),
        ensures
            r == self.dst_at(utc as int),
    {
        if !self.observes_dst() {
            return false;
        }
        let day: i64 = div_floor(utc + self.std_offset_secs, 86_400);
        let date: Civil = Civil::from_epoch_day(day);
        proof {
            lemma_date_in_year(date);
            law_years_follow_each_other(date.year as int);
        }
        let (start, end) = self.dst_range_utc(date.year);
        utc >= start && utc < end
    }

    pub fn offset_at(&self, utc: i64) -> (r: i64)
        requires
            self.counts(utc as int),
        ensures
            r == self.offset(utc as int),
    {
        if self.is_dst(utc) {
            self.dst_offset_secs
        } else {
            self.std_offset_secs
        }
    }

    /// The local date and second of the day at `utc`.
    pub fn to_local(&self, utc: i64) -> (r: (Civil, i64))
        requires
            self.counts(utc as int),
        ensures
            r.0.valid(),
            r.0.in_range(),
            r.0.number() * 86_400 + r.1 == self.reading(utc as int),
            0 <= r.1 < 86_400,
    {
        let local: i64 = utc + self.offset_at(utc);
        let day: i64 = div_floor(local, 86_400);
        let sod: i64 = rem_floor(local, 86_400);
        let date: Civil = Civil::from_epoch_day(day);
        proof {
            lemma_date_in_year(date);
        }
        (date, sod)
    }

    /// The instant at which the local clock reads `second_of_day` on `date`.
    pub fn local_to_utc(&self, date: Civil, second_of_day: i64) -> (r: i64)
        requires
            date.in_range(),
            self.counts_reading(date.number(), second_of_day as int),
        ensures
            r == self.instant(date.number() * 86_400 + second_of_day),
    {
        proof {
            lemma_months(date.year as int);
        }
        let day: i64 = date.epoch_day();
        let naive: i64 = day * 86_400 + second_of_day;
        let as_std: i64 = naive - self.std_offset_secs;
        if !self.observes_dst() {
            return as_std;
        }
        let as_dst: i64 = naive - self.dst_offset_secs;
        let std_consistent: bool = !self.is_dst(as_std);
        let dst_consistent: bool = self.is_dst(as_dst);
        let earlier: i64 = if as_std <= as_dst {
            as_std
        } else {
            as_dst
        };
        let later: i64 = if as_std <= as_dst {
            as_dst
        } else {
            as_std
        };
        if std_consistent && !dst_consistent {
            as_std
        } else if !std_consistent && dst_consistent {
            as_dst
        } else if std_consistent {
            earlier
        } else {
            later
        }
    }
}

/// The instant of today's reading of `minute` minutes past midnight, or of tomorrow's where
/// today's has passed.
pub open spec fn next_reading(tz: Tz, minute: int, now: int) -> int {
    let today = tz.reading(now) / 86_400;
    let due = tz.instant(today * 86_400 + minute * 60);
    if due >= now {
        due
    } else {
        tz.instant((today + 1) * 86_400 + minute * 60)
    }
}

/// The next instant, at or after `now_utc`, that the local clock reads `minute_of_day`.
#[verifier::rlimit(40)]
pub fn next_occurrence_utc(tz: &Tz, minute_of_day: u16, now_utc: i64) -> (r: i64)
    requires
        tz.counts_next(now_utc as int, minute_of_day as int),
    ensures
        r == next_reading(*tz, minute_of_day as int, now_utc as int),
{
    let (today, sod) = tz.to_local(now_utc);
    proof {
        lemma_date_in_year(today);
        assert(today.number() == tz.reading(now_utc as int) / 86_400);
    }
    let due: i64 = tz.local_to_utc(today, minute_of_day as i64 * 60);
    if due >= now_utc {
        due
    } else {
        let tomorrow: Civil = today.succ();
        proof {
            lemma_date_in_year(tomorrow);
        }
        tz.local_to_utc(tomorrow, minute_of_day as i64 * 60)
    }
}

impl Tz {
    /// How far the clock springs forward.
    pub open spec fn gap(self) -> int {
        self.dst_offset_secs - self.std_offset_secs
    }

    /// Whether the clock springs forward, and by two hours at most.
    pub open spec fn springs_forward(self) -> bool {
        0 < self.gap() <= 7200
    }
}

/// Daylight saving time starts and ends inside one calendar year.
proof fn lemma_window_in_year(tz: Tz, y: int, u: int)
    requires
        tz.springs_forward(),
        tz.dst_start(y) <= u < tz.dst_end(y),
    ensures
        year_of_day((u + tz.std_offset_secs) / 86_400) == y,
        tz.dst_at(u),
{
    law_nth_weekday(y, 3, 0, 2);
    law_nth_weekday(y, 11, 0, 1);
    lemma_months(y);
    law_years_follow_each_other(y);
    let n = (u + tz.std_offset_secs) / 86_400;
    assert(nth_weekday_of(y, 3, 0, 2) <= n <= nth_weekday_of(y, 11, 0, 1));
    lemma_year_of_day(n, y);
}

/// Where a reading occurs, the clock does read it at the instant that it is taken for: going to
/// UTC and back changes nothing.
pub proof fn law_reading_comes_back(tz: Tz, reading: int)
    requires
        tz.reads_in_std(reading) || tz.reads_in_dst(reading),
    ensures
        tz.reading(tz.instant(reading)) == reading,
{
}

/// A reading that does not occur is one of those that the clock springs over.
pub proof fn law_only_skipped_readings_are_missing(tz: Tz, reading: int) -> (y: int)
    requires
        tz.springs_forward(),
        !tz.reads_in_std(reading),
        !tz.reads_in_dst(reading),
    ensures
        nth_weekday_of(y, 3, 0, 2) * 86_400 + 7200 <= reading < nth_weekday_of(y, 3, 0, 2) * 86_400
            + 7200 + tz.gap(),
{
    let y = year_of_day(reading / 86_400);
    let u = reading - tz.std_offset_secs;
    assert(u + tz.std_offset_secs == reading);
    assert(tz.dst_start(y) <= u < tz.dst_end(y));
    let v = reading - tz.dst_offset_secs;
    if v >= tz.dst_start(y) {
        lemma_window_in_year(tz, y, v);
    }
    y
}

/// A reading that the clock springs over is taken for an instant at or after the jump, as long
/// after it as the reading is past the hour.
pub proof fn law_skipped_reading(tz: Tz, y: int, k: int)
    requires
        tz.springs_forward(),
        0 <= k < tz.gap(),
    ensures
        tz.instant(nth_weekday_of(y, 3, 0, 2) * 86_400 + 7200 + k) == tz.dst_start(y) + k,
        tz.dst_at(tz.dst_start(y) + k),
{
    let reading = nth_weekday_of(y, 3, 0, 2) * 86_400 + 7200 + k;
    let u = reading - tz.std_offset_secs;
    law_nth_weekday(y, 3, 0, 2);
    law_nth_weekday(y, 11, 0, 1);
    lemma_months(y);
    lemma_window_in_year(tz, y, u);
    let v = reading - tz.dst_offset_secs;
    let n = (v + tz.std_offset_secs) / 86_400;
    law_years_follow_each_other(y);
    assert(nth_weekday_of(y, 3, 0, 2) - 1 <= n <= nth_weekday_of(y, 3, 0, 2));
    lemma_year_of_day(n, y);
    assert(!tz.dst_at(v));
}

/// A reading that occurs twice is taken for its first occurrence, still in daylight time.
pub proof fn law_repeated_reading(tz: Tz, y: int, k: int)
    requires
        tz.springs_forward(),
        0 <= k < tz.gap(),
    ensures
        tz.instant(nth_weekday_of(y, 11, 0, 1) * 86_400 + 7200 - tz.gap() + k) == tz.dst_end(y)
            - tz.gap() + k,
        tz.dst_at(tz.dst_end(y) - tz.gap() + k),
        tz.reading(tz.dst_end(y) + k) == nth_weekday_of(y, 11, 0, 1) * 86_400 + 7200 - tz.gap() + k,
{
    let e = nth_weekday_of(y, 11, 0, 1);
    let reading = e * 86_400 + 7200 - tz.gap() + k;
    law_nth_weekday(y, 3, 0, 2);
    law_nth_weekday(y, 11, 0, 1);
    lemma_months(y);
    law_years_follow_each_other(y);
    let v = reading - tz.dst_offset_secs;
    assert(v == tz.dst_end(y) - tz.gap() + k);
    assert(tz.dst_start(y) <= v);
    lemma_window_in_year(tz, y, v);
    let u = reading - tz.std_offset_secs;
    assert(u == tz.dst_end(y) + k);
    let n = (u + tz.std_offset_secs) / 86_400;
    assert(e - 1 <= n <= e);
    lemma_year_of_day(n, y);
    assert(!tz.dst_at(u));
}

/// Reading the clock and taking the reading back gives the instant, but for the second pass
/// through the repeated readings, which gives the first.
pub proof fn law_instant_comes_back(tz: Tz, utc: int) -> (y: int)
    requires
        tz.springs_forward(),
    ensures
        tz.instant(tz.reading(utc)) == utc || (tz.dst_end(y) <= utc < tz.dst_end(y) + tz.gap()
            && tz.instant(tz.reading(utc)) == utc - tz.gap()),
{
    let reading = tz.reading(utc);
    let y = year_of_day((reading - tz.dst_offset_secs + tz.std_offset_secs) / 86_400);
    if !tz.dst_at(utc) && tz.reads_in_dst(reading) {
        let v = reading - tz.dst_offset_secs;
        assert(v == utc - tz.gap());
        assert(tz.dst_start(y) <= v < tz.dst_end(y));
        if utc < tz.dst_end(y) {
            lemma_window_in_year(tz, y, utc);
        }
    }
    y
}

/// The instant that the reading of `minute` minutes past midnight on day `day` is taken for.
pub open spec fn occurrence(tz: Tz, minute: int, day: int) -> int {
    tz.instant(day * 86_400 + minute * 60)
}

/// The readings of a minute on two days are taken for instants in the order of the days.
pub proof fn law_occurrences_follow_the_days(tz: Tz, minute: int, a: int, b: int)
    requires
        tz.springs_forward() || !tz.has_dst(),
        a < b,
    ensures
        occurrence(tz, minute, a) < occurrence(tz, minute, b),
{
    assert((b - a) * 86_400 >= 86_400);
}

/// What is read on an earlier day is taken for an earlier instant.
proof fn lemma_earlier_day_has_passed(tz: Tz, minute: int, now: int, day: int)
    requires
        tz.springs_forward() || !tz.has_dst(),
        0 <= minute < 1440,
        day < tz.reading(now) / 86_400,
    ensures
        occurrence(tz, minute, day) < now,
{
    let today = tz.reading(now) / 86_400;
    let r = day * 86_400 + minute * 60;
    assert(r < today * 86_400 <= tz.reading(now));
    if tz.dst_at(now) {
        let y = year_of_day((now + tz.std_offset_secs) / 86_400);
        let v = r - tz.dst_offset_secs;
        assert(v < now);
        if v >= tz.dst_start(y) {
            lemma_window_in_year(tz, y, v);
        } else if r - tz.std_offset_secs >= tz.dst_start(y) {
            let first = nth_weekday_of(y, 3, 0, 2);
            assert(first * 86_400 + 7200 <= r);
            assert(first < today);
            assert(today * 86_400 >= first * 86_400 + 86_400);
        }
    }
}

/// The next occurrence is the first one, on any day, that is not in the past. One that is due
/// right now is returned itself.
pub proof fn law_next_occurrence_is_the_first(tz: Tz, minute: int, now: int, day: int) -> (found: int)
    requires
        tz.springs_forward() || !tz.has_dst(),
        0 <= minute < 1440,
    ensures
        next_reading(tz, minute, now) >= now,
        next_reading(tz, minute, now) == occurrence(tz, minute, found),
        occurrence(tz, minute, day) < now || occurrence(tz, minute, day) >= next_reading(
            tz,
            minute,
            now,
        ),
        occurrence(tz, minute, day) == now ==> next_reading(tz, minute, now) == now,
{
    let today = tz.reading(now) / 86_400;
    law_next_occurrence_is_ahead(tz, minute, now);
    let found = if occurrence(tz, minute, today) >= now {
        today
    } else {
        today + 1
    };
    assert(next_reading(tz, minute, now) == occurrence(tz, minute, found));
    if day < today {
        lemma_earlier_day_has_passed(tz, minute, now, day);
    } else if day < found {
        assert(day == today);
    } else if day > found {
        law_occurrences_follow_the_days(tz, minute, found, day);
    }
    found
}

/// The next occurrence is never in the past.
pub proof fn law_next_occurrence_is_ahead(tz: Tz, minute: int, now: int)
    requires
        tz.springs_forward() || !tz.has_dst(),
        0 <= minute,
    ensures
        next_reading(tz, minute, now) >= now,
{
    let today = tz.reading(now) / 86_400;
    let due = (today + 1) * 86_400 + minute * 60;
    assert(tz.reading(now) < (today + 1) * 86_400);
    if tz.has_dst() {
        let v = due - tz.dst_offset_secs;
        let u = due - tz.std_offset_secs;
        if tz.instant(due) == v && v < now {
            assert(tz.reads_in_dst(due));
            let y = year_of_day((v + tz.std_offset_secs) / 86_400);
            if tz.dst_at(now) {
                assert(v >= now);
            } else {
                if now < tz.dst_end(y) {
                    lemma_window_in_year(tz, y, now);
                }
                let e = nth_weekday_of(y, 11, 0, 1);
                assert(due < e * 86_400 + 7200);
                assert(tz.reading(now) >= e * 86_400 + 7200 - tz.gap());
                assert(tz.reading(now) >= e * 86_400);
                assert(today >= e);
            }
        }
    }
}

/// A number under ten thousand in four digits.
proof fn lemma_padded_four(n: nat)
    requires
        n < 10_000,
    ensures
        dec_padded(n, 4) == seq![
            digit_char(n / 1000),
            digit_char(n / 100 % 10),
            digit_char(n / 10 % 10),
            digit_char(n % 10),
        ],
{
    reveal_with_fuel(dec, 5);
    let s = dec_padded(n, 4);
    assert(s =~= seq![
        digit_char(n / 1000),
        digit_char(n / 100 % 10),
        digit_char(n / 10 % 10),
        digit_char(n % 10),
    ]);
}

proof fn lemma_padded_two(n: nat)
    requires
        n < 100,
    ensures
        dec_padded(n, 2) == seq![digit_char(n / 10), digit_char(n % 10)],
{
    reveal_with_fuel(dec, 3);
    assert(dec_padded(n, 2) =~= seq![digit_char(n / 10), digit_char(n % 10)]);
}

/// The text of a date with a year of four digits.
proof fn lemma_iso_text(c: Civil)
    requires
        c.valid(),
        0 <= c.year <= 9999,
    ensures
        iso_text(c) == seq![
            digit_char(c.year as nat / 1000),
            digit_char(c.year as nat / 100 % 10),
            digit_char(c.year as nat / 10 % 10),
            digit_char(c.year as nat % 10),
            '-',
            digit_char(c.month as nat / 10),
            digit_char(c.month as nat % 10),
            '-',
            digit_char(c.day as nat / 10),
            digit_char(c.day as nat % 10),
        ],
{
    reveal_strlit("-");
    lemma_padded_four(c.year as nat);
    lemma_padded_two(c.month as nat);
    lemma_padded_two(c.day as nat);
    assert(iso_text(c) =~= seq![
        digit_char(c.year as nat / 1000),
        digit_char(c.year as nat / 100 % 10),
        digit_char(c.year as nat / 10 % 10),
        digit_char(c.year as nat % 10),
        '-',
        digit_char(c.month as nat / 10),
        digit_char(c.month as nat % 10),
        '-',
        digit_char(c.day as nat / 10),
        digit_char(c.day as nat % 10),
    ]);
}

/// Days in their order have years, months and days of the month in their order.
proof fn lemma_calendar_order(a: Civil, b: Civil)
    requires
        a.valid(),
        b.valid(),
        a.number() < b.number(),
    ensures
        a.year < b.year || (a.year == b.year && (a.month < b.month || (a.month == b.month && a.day
            < b.day))),
{
    lemma_date_in_year(a);
    lemma_date_in_year(b);
    if b.year < a.year {
        lemma_year_order(b.year + 1, a.year as int);
    } else if b.year == a.year && b.month < a.month {
        lemma_month_order(a.year as int, b.month as int, a.month as int);
    }
}

/// The first of four digits in which two numbers differ is smaller in the smaller number.
proof fn lemma_four_digits_order(n: nat, m: nat) -> (k: int)
    requires
        n < m < 10_000,
    ensures
        0 <= k < 4,
        k == 0 ==> n / 1000 < m / 1000,
        k >= 1 ==> n / 1000 == m / 1000,
        k == 1 ==> n / 100 % 10 < m / 100 % 10,
        k >= 2 ==> n / 100 % 10 == m / 100 % 10,
        k == 2 ==> n / 10 % 10 < m / 10 % 10,
        k >= 3 ==> n / 10 % 10 == m / 10 % 10,
        k == 3 ==> n % 10 < m % 10,
{
    if n / 1000 != m / 1000 {
        0
    } else if n / 100 != m / 100 {
        1
    } else if n / 10 != m / 10 {
        2
    } else {
        3
    }
}

/// The same of two digits.
proof fn lemma_two_digits_order(n: nat, m: nat) -> (k: int)
    requires
        n < m < 100,
    ensures
        0 <= k < 2,
        k == 0 ==> n / 10 < m / 10,
        k == 1 ==> n / 10 == m / 10 && n % 10 < m % 10,
{
    if n / 10 != m / 10 {
        0
    } else {
        1
    }
}

/// Digits have the order of their characters.
proof fn lemma_digit_order(a: nat, b: nat)
    requires
        a < b < 10,
    ensures
        digit_char(a) < digit_char(b),
{
}

/// Whether `s` has the digits of a date at their places.
spec fn has_date_digits(s: Seq<char>, y: nat, m: nat, d: nat) -> bool {
    &&& s.len() == 10
    &&& s[0] == digit_char(y / 1000)
    &&& s[1] == digit_char(y / 100 % 10)
    &&& s[2] == digit_char(y / 10 % 10)
    &&& s[3] == digit_char(y % 10)
    &&& s[4] == '-'
    &&& s[5] == digit_char(m / 10)
    &&& s[6] == digit_char(m % 10)
    &&& s[7] == '-'
    &&& s[8] == digit_char(d / 10)
    &&& s[9] == digit_char(d % 10)
}

proof fn lemma_year_decides(s: Seq<char>, t: Seq<char>, y: nat, m: nat, d: nat, z: nat, n: nat, e: nat)
    requires
        has_date_digits(s, y, m, d),
        has_date_digits(t, z, n, e),
        y < z < 10_000,
    ensures
        before(s, t),
{
    let k = lemma_four_digits_order(y, z);
    if k == 0 {
        lemma_digit_order(y / 1000, z / 1000);
    } else if k == 1 {
        lemma_digit_order(y / 100 % 10, z / 100 % 10);
    } else if k == 2 {
        lemma_digit_order(y / 10 % 10, z / 10 % 10);
    } else {
        lemma_digit_order(y % 10, z % 10);
    }
    lemma_before_at(s, t, k, 0);
}

proof fn lemma_month_decides(s: Seq<char>, t: Seq<char>, y: nat, m: nat, d: nat, n: nat, e: nat)
    requires
        has_date_digits(s, y, m, d),
        has_date_digits(t, y, n, e),
        m < n < 100,
    ensures
        before(s, t),
{
    let k = lemma_two_digits_order(m, n);
    if k == 0 {
        lemma_digit_order(m / 10, n / 10);
    } else {
        lemma_digit_order(m % 10, n % 10);
    }
    lemma_before_at(s, t, 5 + k, 0);
}

proof fn lemma_day_decides(s: Seq<char>, t: Seq<char>, y: nat, m: nat, d: nat, e: nat)
    requires
        has_date_digits(s, y, m, d),
        has_date_digits(t, y, m, e),
        d < e < 100,
    ensures
        before(s, t),
{
    let k = lemma_two_digits_order(d, e);
    if k == 0 {
        lemma_digit_order(d / 10, e / 10);
    } else {
        lemma_digit_order(d % 10, e % 10);
    }
    lemma_before_at(s, t, 8 + k, 0);
}

/// Dates of years with four digits stand in the order of their texts.
pub proof fn law_iso_dates_sort(a: Civil, b: Civil)
    requires
        a.valid(),
        b.valid(),
        0 <= a.year <= 9999,
        0 <= b.year <= 9999,
        a.number() < b.number(),
    ensures
        before(iso_text(a), iso_text(b)),
{
    lemma_iso_digits(a);
    lemma_iso_digits(b);
    lemma_calendar_order(a, b);
    let s = iso_text(a);
    let t = iso_text(b);
    let (y, m, d) = (a.year as nat, a.month as nat, a.day as nat);
    let (z, n, e) = (b.year as nat, b.month as nat, b.day as nat);
    if y < z {
        lemma_year_decides(s, t, y, m, d, z, n, e);
    } else if m < n {
        lemma_month_decides(s, t, y, m, d, n, e);
    } else {
        lemma_day_decides(s, t, y, m, d, e);
    }
}

proof fn lemma_iso_digits(c: Civil)
    requires
        c.valid(),
        0 <= c.year <= 9999,
    ensures
        has_date_digits(iso_text(c), c.year as nat, c.month as nat, c.day as nat),
{
    lemma_iso_text(c);
}

/// The days of the week follow each other, and the first day of 1970 was a Thursday.
pub proof fn law_weekdays_follow(n: int)
    ensures
        weekday_of(0) == 4,
        weekday_of(n + 1) == (weekday_of(n) + 1) % 7,
        0 <= weekday_of(n) < 7,
        weekday_of(n + 7) == weekday_of(n),
{
}

} // verus!
