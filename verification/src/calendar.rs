//! Calendar arithmetic on plain year/month/day values: validity, succession,
//! weekday computation, and the Monday-to-Sunday grid boundaries that a
//! month's display grid is built from.

use vstd::prelude::*;

verus! {

/// Smallest year the library handles.
pub const MIN_YEAR: i32 = 1;

/// Largest year the library handles.
pub const MAX_YEAR: i32 = 9999;

/// Day of the week, Monday first.
#[derive(Copy, Clone, Debug, PartialEq, Eq, Structural)]
pub enum Weekday {
    Mon,
    Tue,
    Wed,
    Thu,
    Fri,
    Sat,
    Sun,
}

/// A calendar date in the proleptic Gregorian calendar, held as plain values.
#[derive(Copy, Clone, Debug, PartialEq, Eq, Structural)]
pub struct Date {
    pub year: i32,
    pub month: u32,
    pub day: u32,
}

/// Month-of-year successor: December wraps to January of the next year.
pub fn next_month(year: i32, month: u32) -> (r: (i32, u32))
    requires
        year < i32::MAX,
        1 <= month <= 12,
    ensures
        (r.0 as int, r.1 as int) == spec_next_month(year as int, month as int),
{
    if month == 12 {
        (year + 1, 1)
    } else {
        (year, month + 1)
    }
}

/// Month-of-year predecessor: January wraps to December of the previous year.
pub fn prev_month(year: i32, month: u32) -> (r: (i32, u32))
    requires
        year > i32::MIN,
        1 <= month <= 12,
    ensures
        (r.0 as int, r.1 as int) == spec_prev_month(year as int, month as int),
{
    if month == 1 {
        (year - 1, 12)
    } else {
        (year, month - 1)
    }
}

pub open spec fn spec_next_month(year: int, month: int) -> (int, int) {
    if month == 12 {
        (year + 1, 1)
    } else {
        (year, month + 1)
    }
}

pub open spec fn spec_prev_month(year: int, month: int) -> (int, int) {
    if month == 1 {
        (year - 1, 12)
    } else {
        (year, month - 1)
    }
}

/// Gregorian leap-year rule.
pub open spec fn spec_is_leap_year(y: int) -> bool {
    y % 4 == 0 && (y % 100 != 0 || y % 400 == 0)
}

/// Length of a month, in days.
pub open spec fn spec_days_in_month(y: int, m: int) -> int {
    if m == 2 {
        if spec_is_leap_year(y) {
            29
        } else {
            28
        }
    } else if m == 4 || m == 6 || m == 9 || m == 11 {
        30
    } else {
        31
    }
}

/// A date the library accepts: a real Gregorian date within the year range.
pub open spec fn date_valid(d: Date) -> bool {
    &&& MIN_YEAR <= d.year <= MAX_YEAR
    &&& 1 <= d.month <= 12
    &&& 1 <= d.day <= spec_days_in_month(d.year as int, d.month as int)
}

pub fn is_leap_year(y: i32) -> (r: bool)
    ensures
        r == spec_is_leap_year(y as int),
{
    y % 4 == 0 && (y % 100 != 0 || y % 400 == 0)
}

pub fn days_in_month(y: i32, m: u32) -> (r: u32)
    ensures
        r == spec_days_in_month(y as int, m as int),
{
    if m == 2 {
        if is_leap_year(y) {
            29
        } else {
            28
        }
    } else if m == 4 || m == 6 || m == 9 || m == 11 {
        30
    } else {
        31
    }
}

impl Date {
    /// Builds the date if the year, month and day form a valid one.
    pub fn from_ymd_opt(year: i32, month: u32, day: u32) -> (r: Option<Date>)
        ensures
            match r {
                Some(d) => d == (Date { year, month, day }) && date_valid(d),
                None => !date_valid(Date { year, month, day }),
            },
    {
        if MIN_YEAR <= year && year <= MAX_YEAR && 1 <= month && month <= 12 && 1 <= day && day
            <= days_in_month(year, month) {
            Some(Date { year, month, day })
        } else {
            None
        }
    }

    /// Builds a date the caller already knows to be valid.
    pub fn from_ymd(year: i32, month: u32, day: u32) -> (r: Date)
        requires
            date_valid(Date { year, month, day }),
        ensures
            r == (Date { year, month, day }),
    {
        Date { year, month, day }
    }
}

/// The day after `d`.
pub open spec fn spec_next_date(d: Date) -> Date {
    if d.day < spec_days_in_month(d.year as int, d.month as int) {
        Date { year: d.year, month: d.month, day: (d.day + 1) as u32 }
    } else if d.month < 12 {
        Date { year: d.year, month: (d.month + 1) as u32, day: 1 }
    } else {
        Date { year: (d.year + 1) as i32, month: 1, day: 1 }
    }
}

/// The day before `d`.
pub open spec fn spec_prev_date(d: Date) -> Date {
    if d.day > 1 {
        Date { year: d.year, month: d.month, day: (d.day - 1) as u32 }
    } else if d.month > 1 {
        Date {
            year: d.year,
            month: (d.month - 1) as u32,
            day: spec_days_in_month(d.year as int, d.month as int - 1) as u32,
        }
    } else {
        Date { year: (d.year - 1) as i32, month: 12, day: 31 }
    }
}

impl Date {
    /// The next calendar day.
    pub fn succ(self) -> (r: Date)
        requires
            date_valid(self),
            !(self.year == MAX_YEAR && self.month == 12 && self.day == 31),
        ensures
            r == spec_next_date(self),
            date_valid(r),
    {
        if self.day < days_in_month(self.year, self.month) {
            Date { year: self.year, month: self.month, day: self.day + 1 }
        } else if self.month < 12 {
            Date { year: self.year, month: self.month + 1, day: 1 }
        } else {
            Date { year: self.year + 1, month: 1, day: 1 }
        }
    }

    /// The previous calendar day.
    pub fn pred(self) -> (r: Date)
        requires
            date_valid(self),
            !(self.year == MIN_YEAR && self.month == 1 && self.day == 1),
        ensures
            r == spec_prev_date(self),
            date_valid(r),
    {
        if self.day > 1 {
            Date { year: self.year, month: self.month, day: self.day - 1 }
        } else if self.month > 1 {
            Date { year: self.year, month: self.month - 1, day: days_in_month(self.year, self.month - 1) }
        } else {
            Date { year: self.year - 1, month: 12, day: 31 }
        }
    }
}

/// Day number of a date: days elapsed since March 1st of year 0 in the
/// proleptic Gregorian calendar.  Shifting the year to start in March puts
/// the leap day at the end of the counting year, which keeps the formula
/// uniform across it.
pub open spec fn spec_rata(d: Date) -> int {
    let y: int = if d.month <= 2 {
        d.year - 1
    } else {
        d.year as int
    };
    let mp: int = if d.month > 2 {
        d.month - 3
    } else {
        d.month + 9
    };
    year_days(y) + (153 * mp + 2) / 5 + d.day - 1
}

/// Days from March 1st of year 0 up to March 1st of year `t`.
pub open spec fn year_days(t: int) -> int {
    (t / 400) * 146097 + (t % 400) * 365 + (t % 400) / 4 - (t % 400) / 100
}

/// Index of a date's weekday: 0 is Monday, 6 is Sunday.
pub open spec fn wd_index(d: Date) -> int {
    (spec_rata(d) + 2) % 7
}

/// Day number of the latest date the library handles, 9999-12-31.
pub const RATA_MAX: u32 = 3652364;

/// Day number of the earliest date the library handles, 0001-01-01.
pub const RATA_MIN: u32 = 306;

/// How division by a positive constant changes when the dividend grows by one.
proof fn lemma_incr_div(x: int, k: int)
    requires
        x >= 0,
        k > 0,
    ensures
        x % k == k - 1 ==> (x + 1) / k == x / k + 1 && (x + 1) % k == 0,
        x % k < k - 1 ==> (x + 1) / k == x / k && (x + 1) % k == x % k + 1,
        0 <= x % k < k,
{
    broadcast use vstd::arithmetic::mul::lemma_mul_is_commutative;
    broadcast use vstd::arithmetic::mul::group_mul_is_distributive;

    vstd::arithmetic::div_mod::lemma_fundamental_div_mod(x, k);
    vstd::arithmetic::div_mod::lemma_mod_division_less_than_divisor(x, k);
    vstd::arithmetic::div_mod::lemma_div_pos_is_pos(x, k);
    let q = x / k;
    let r = x % k;
    if r == k - 1 {
        assert((q + 1) * k == q * k + k);
        assert(x + 1 == (q + 1) * k + 0);
        vstd::arithmetic::div_mod::lemma_fundamental_div_mod_converse_div(x + 1, k, q + 1, 0);
        vstd::arithmetic::div_mod::lemma_fundamental_div_mod_converse_mod(x + 1, k, q + 1, 0);
    } else {
        vstd::arithmetic::div_mod::lemma_fundamental_div_mod_converse_div(x + 1, k, q, r + 1);
        vstd::arithmetic::div_mod::lemma_fundamental_div_mod_converse_mod(x + 1, k, q, r + 1);
    }
}

/// A remainder modulo 400 determines remainders modulo 4 and 100, and
/// `year_days` of the next year grows by the length of that year.
proof fn lemma_year_step(t: int)
    requires
        t >= 0,
    ensures
        year_days(t + 1) == year_days(t) + 365 + if spec_is_leap_year(t + 1) {
            1int
        } else {
            0int
        },
{
    vstd::arithmetic::div_mod::lemma_fundamental_div_mod(t, 400);
    vstd::arithmetic::div_mod::lemma_mod_division_less_than_divisor(t, 400);
    vstd::arithmetic::div_mod::lemma_div_pos_is_pos(t, 400);
    let q = t / 400;
    let r = t % 400;
    lemma_incr_div(t, 400);
    if r == 399 {
        // Rolling over a 400-year cycle: the new year is divisible by 400.
        assert(year_days(t) == q * 146097 + 399int * 365 + 399int / 4 - 399int / 100);
        assert(year_days(t + 1) == (q + 1) * 146097);
        assert(t + 1 == 4 * (100 * (q + 1)) + 0);
        vstd::arithmetic::div_mod::lemma_fundamental_div_mod_converse_mod(t + 1, 4, 100 * (q + 1), 0);
        assert(spec_is_leap_year(t + 1));
    } else {
        // Same 400-year cycle: remainders modulo 4 and 100 step with r.
        assert((t + 1) / 400 == q && (t + 1) % 400 == r + 1);
        lemma_incr_div(r, 4);
        lemma_incr_div(r, 100);
        // Remainders of t + 1 modulo 4 and 100 equal those of r + 1.
        vstd::arithmetic::div_mod::lemma_fundamental_div_mod(r + 1, 4);
        assert(t + 1 == 4 * (100 * q + (r + 1) / 4) + (r + 1) % 4);
        vstd::arithmetic::div_mod::lemma_mod_division_less_than_divisor(r + 1, 4);
        vstd::arithmetic::div_mod::lemma_fundamental_div_mod_converse_mod(
            t + 1,
            4,
            100 * q + (r + 1) / 4,
            (r + 1) % 4,
        );
        vstd::arithmetic::div_mod::lemma_fundamental_div_mod(r + 1, 100);
        assert(t + 1 == 100 * (4 * q + (r + 1) / 100) + (r + 1) % 100);
        vstd::arithmetic::div_mod::lemma_mod_division_less_than_divisor(r + 1, 100);
        vstd::arithmetic::div_mod::lemma_fundamental_div_mod_converse_mod(
            t + 1,
            100,
            4 * q + (r + 1) / 100,
            (r + 1) % 100,
        );
        assert((t + 1) % 4 == (r + 1) % 4);
        assert((t + 1) % 100 == (r + 1) % 100);
        // If 100 divides r + 1 then so does 4, because 100 is 4 times 25.
        if (r + 1) % 100 == 0 {
            assert(r + 1 == 4 * (25 * ((r + 1) / 100)) + 0);
            vstd::arithmetic::div_mod::lemma_fundamental_div_mod_converse_mod(
                r + 1,
                4,
                25 * ((r + 1) / 100),
                0,
            );
        }
        assert(year_days(t + 1) - year_days(t) == 365 + ((r + 1) / 4 - r / 4) - ((r + 1) / 100
            - r / 100));
    }
}

/// February has 29 days exactly in leap years.
proof fn lemma_feb_len(y: int)
    ensures
        spec_days_in_month(y, 2) == 28 + if spec_is_leap_year(y) {
            1int
        } else {
            0int
        },
{
}

/// The day number of the next calendar day is one greater.
pub proof fn lemma_rata_next(d: Date)
    requires
        date_valid(d),
    ensures
        spec_rata(spec_next_date(d)) == spec_rata(d) + 1,
        date_valid(spec_next_date(d)) || (d.year == MAX_YEAR && d.month == 12 && d.day == 31),
{
    let n = spec_next_date(d);
    let dim = spec_days_in_month(d.year as int, d.month as int);
    if d.day < dim {
        // Within a month the formula is linear in the day.
        assert(spec_rata(n) == spec_rata(d) + 1);
    } else if d.month == 2 {
        // February rolls into March: the shifted year advances by one.
        lemma_year_step(d.year - 1);
        lemma_feb_len(d.year as int);
        assert(spec_rata(d) == year_days(d.year - 1) + 337 + dim - 1);
        assert(spec_rata(n) == year_days(d.year as int) + 0);
    } else if d.month == 12 {
        // December 31st rolls into January: the shifted year is unchanged,
        // because January belongs to the previous March-based year.
        assert(spec_rata(n) == spec_rata(d) + 1);
    } else {
        // Month boundaries inside one shifted year: the day-of-year offsets
        // of consecutive months differ by exactly the month length.
        if d.month == 1 {
            assert(spec_rata(n) == spec_rata(d) + 1);
        } else if d.month == 3 {
            assert(spec_rata(n) == spec_rata(d) + 1);
        } else if d.month == 4 {
            assert(spec_rata(n) == spec_rata(d) + 1);
        } else if d.month == 5 {
            assert(spec_rata(n) == spec_rata(d) + 1);
        } else if d.month == 6 {
            assert(spec_rata(n) == spec_rata(d) + 1);
        } else if d.month == 7 {
            assert(spec_rata(n) == spec_rata(d) + 1);
        } else if d.month == 8 {
            assert(spec_rata(n) == spec_rata(d) + 1);
        } else if d.month == 9 {
            assert(spec_rata(n) == spec_rata(d) + 1);
        } else if d.month == 10 {
            assert(spec_rata(n) == spec_rata(d) + 1);
        } else {
            assert(d.month == 11);
            assert(spec_rata(n) == spec_rata(d) + 1);
        }
    }
}

/// Taking the previous day is well defined and undoes taking the next day.
pub proof fn lemma_prev_next(d: Date)
    requires
        date_valid(d),
        !(d.year == MIN_YEAR && d.month == 1 && d.day == 1),
    ensures
        date_valid(spec_prev_date(d)),
        spec_next_date(spec_prev_date(d)) == d,
        spec_rata(spec_prev_date(d)) == spec_rata(d) - 1,
{
    lemma_rata_next(spec_prev_date(d));
}

/// The day number of the previous calendar day is one smaller.
pub proof fn lemma_rata_prev(d: Date)
    requires
        date_valid(d),
        !(d.year == MIN_YEAR && d.month == 1 && d.day == 1),
    ensures
        date_valid(spec_prev_date(d)),
        spec_rata(spec_prev_date(d)) == spec_rata(d) - 1,
        wd_index(spec_prev_date(d)) == (wd_index(d) + 6) % 7,
{
    lemma_prev_next(d);
    lemma_wd_next(spec_prev_date(d));
    let w = wd_index(spec_prev_date(d));
    if w < 6 {
        // wd_index(d) == w + 1, so wd_index(d) + 6 == w + 7.
        vstd::arithmetic::div_mod::lemma_fundamental_div_mod_converse_mod(w + 7, 7, 1, w);
    } else {
        // wd_index(d) == 0 and 6 % 7 == 6.
        vstd::arithmetic::div_mod::lemma_small_mod(6nat, 7);
    }
}

/// The weekday index steps forward cyclically with the date.
pub proof fn lemma_wd_next(d: Date)
    requires
        date_valid(d),
    ensures
        wd_index(spec_next_date(d)) == (wd_index(d) + 1) % 7,
        0 <= wd_index(d) < 7,
{
    lemma_rata_next(d);
    lemma_rata_nonneg(d);
    lemma_incr_div(spec_rata(d) + 2, 7);
    vstd::arithmetic::div_mod::lemma_mod_division_less_than_divisor(spec_rata(d) + 2, 7);
    let w = wd_index(d);
    if w == 6 {
        vstd::arithmetic::div_mod::lemma_small_mod(0nat, 7);
    } else {
        vstd::arithmetic::div_mod::lemma_small_mod((w + 1) as nat, 7);
    }
}

/// Day numbers of valid dates are nonnegative.
pub proof fn lemma_rata_nonneg(d: Date)
    requires
        date_valid(d),
    ensures
        spec_rata(d) >= 0,
{
    let y: int = if d.month <= 2 {
        d.year - 1
    } else {
        d.year as int
    };
    vstd::arithmetic::div_mod::lemma_div_pos_is_pos(y, 400);
    vstd::arithmetic::div_mod::lemma_mod_division_less_than_divisor(y, 400);
    vstd::arithmetic::div_mod::lemma_div_pos_is_pos(y % 400, 4);
    vstd::arithmetic::div_mod::lemma_div_pos_is_pos(y % 400, 100);
    vstd::arithmetic::div_mod::lemma_div_nonincreasing(y % 400, 100);
    let mp: int = if d.month > 2 {
        d.month - 3
    } else {
        d.month + 9
    };
    vstd::arithmetic::div_mod::lemma_div_pos_is_pos(153 * mp + 2, 5);
}

/// `year_days` never decreases as the year grows.
proof fn lemma_year_days_monotone(t1: int, t2: int)
    requires
        0 <= t1 <= t2,
    ensures
        year_days(t1) <= year_days(t2),
    decreases t2 - t1,
{
    if t1 < t2 {
        lemma_year_step(t2 - 1);
        lemma_year_days_monotone(t1, t2 - 1);
    }
}

/// Bounds on the day number over the library's whole date range; the upper
/// bound leaves room for a week of forward steps from any first of a month
/// that grid construction starts from.
pub proof fn lemma_rata_bounds(d: Date)
    requires
        date_valid(d),
    ensures
        RATA_MIN <= spec_rata(d) <= RATA_MAX,
        d.year <= MAX_YEAR - 1 || d.month <= 2 ==> spec_rata(d) <= 3652059,
{
    let y: int = if d.month <= 2 {
        d.year - 1
    } else {
        d.year as int
    };
    let mp: int = if d.month > 2 {
        d.month - 3
    } else {
        d.month + 9
    };
    let doy = (153 * mp + 2) / 5 + d.day - 1;
    // Lower bound: year 0 contributes nothing and the day-of-year offset of
    // January is already 306.
    lemma_year_days_monotone(0, y);
    assert(year_days(0) == 0);
    if d.month <= 2 {
        assert(mp == 10 || mp == 11);
        assert((153 * mp + 2) / 5 >= 306) by {
            vstd::arithmetic::div_mod::lemma_div_is_ordered(153int * 10 + 2, 153 * mp + 2, 5);
        }
    } else {
        assert(y >= 1);
        lemma_year_days_monotone(1, y);
        lemma_year_step(0);
        assert(year_days(1) == 365);
        vstd::arithmetic::div_mod::lemma_div_pos_is_pos(153 * mp + 2, 5);
    }
    // Upper bound, by cases on the month: January and February belong to the
    // shifted year before, so their year part stays a year lower; for the
    // other months the day-of-year offset is at most December's.
    assert(year_days(9999) == 24 * 146097 + 399int * 365 + 399int / 4 - 399int / 100) by {
        vstd::arithmetic::div_mod::lemma_fundamental_div_mod_converse_div(9999, 400, 24, 399);
        vstd::arithmetic::div_mod::lemma_fundamental_div_mod_converse_mod(9999, 400, 24, 399);
    }
    assert(year_days(9998) == 24 * 146097 + 398int * 365 + 398int / 4 - 398int / 100) by {
        vstd::arithmetic::div_mod::lemma_fundamental_div_mod_converse_div(9998, 400, 24, 398);
        vstd::arithmetic::div_mod::lemma_fundamental_div_mod_converse_mod(9998, 400, 24, 398);
    }
    if d.month <= 2 {
        assert(y <= 9998);
        lemma_year_days_monotone(y, 9998);
        if d.month == 1 {
            assert(mp == 10 && d.day <= 31);
        } else {
            assert(mp == 11 && d.day <= 29);
        }
    } else {
        lemma_year_days_monotone(y, 9999);
        if d.year <= MAX_YEAR - 1 {
            lemma_year_days_monotone(y, 9998);
        }
        if d.month == 12 {
            assert(mp == 9 && d.day <= 31);
        } else {
            assert(mp <= 8 && d.day <= 31);
            assert((153 * mp + 2) / 5 <= 245) by {
                vstd::arithmetic::div_mod::lemma_div_is_ordered(153 * mp + 2, 153int * 8 + 2, 5);
            }
        }
    }
}

/// The date `n` days after `d`.
pub open spec fn spec_plus_days(d: Date, n: nat) -> Date
    decreases n,
{
    if n == 0 {
        d
    } else {
        spec_next_date(spec_plus_days(d, (n - 1) as nat))
    }
}

/// The date `n` days before `d`.
pub open spec fn spec_minus_days(d: Date, n: nat) -> Date
    decreases n,
{
    if n == 0 {
        d
    } else {
        spec_prev_date(spec_minus_days(d, (n - 1) as nat))
    }
}

/// The day numbers of the extreme dates of the library's range.
pub proof fn lemma_rata_extremes()
    ensures
        spec_rata(Date { year: MAX_YEAR, month: 12, day: 31 }) == RATA_MAX,
        spec_rata(Date { year: MIN_YEAR, month: 1, day: 1 }) == RATA_MIN,
{
    assert(year_days(9999) == 24 * 146097 + 399int * 365 + 399int / 4 - 399int / 100) by {
        vstd::arithmetic::div_mod::lemma_fundamental_div_mod_converse_div(9999, 400, 24, 399);
        vstd::arithmetic::div_mod::lemma_fundamental_div_mod_converse_mod(9999, 400, 24, 399);
    }
    assert(year_days(0) == 0);
}

/// Stepping forward day by day stays valid and adds to the day number,
/// as long as the range's end is not crossed.
pub proof fn lemma_plus_days_ok(d: Date, n: nat)
    requires
        date_valid(d),
        spec_rata(d) + n <= RATA_MAX,
    ensures
        date_valid(spec_plus_days(d, n)),
        spec_rata(spec_plus_days(d, n)) == spec_rata(d) + n,
    decreases n,
{
    if n > 0 {
        lemma_plus_days_ok(d, (n - 1) as nat);
        let p = spec_plus_days(d, (n - 1) as nat);
        lemma_rata_extremes();
        assert(p != (Date { year: MAX_YEAR, month: 12, day: 31 }));
        lemma_rata_next(p);
    }
}

/// Stepping backward day by day stays valid and subtracts from the day
/// number, as long as the range's start is not crossed.
pub proof fn lemma_minus_days_ok(d: Date, n: nat)
    requires
        date_valid(d),
        spec_rata(d) - n >= RATA_MIN,
    ensures
        date_valid(spec_minus_days(d, n)),
        spec_rata(spec_minus_days(d, n)) == spec_rata(d) - n,
    decreases n,
{
    if n > 0 {
        lemma_minus_days_ok(d, (n - 1) as nat);
        let p = spec_minus_days(d, (n - 1) as nat);
        lemma_rata_extremes();
        assert(p != (Date { year: MIN_YEAR, month: 1, day: 1 }));
        lemma_rata_prev(p);
    }
}

/// Adding days to a date's successor is adding one day more to the date.
proof fn lemma_plus_days_prepend(d: Date, n: nat)
    ensures
        spec_plus_days(spec_next_date(d), n) == spec_plus_days(d, n + 1),
    decreases n,
{
    assert(spec_plus_days(d, n + 1) == spec_next_date(spec_plus_days(d, n)));
    if n > 0 {
        lemma_plus_days_prepend(d, (n - 1) as nat);
        assert(spec_plus_days(spec_next_date(d), n) == spec_next_date(
            spec_plus_days(spec_next_date(d), (n - 1) as nat),
        ));
    }
}

/// Removing days from a date's predecessor is removing one day more.
proof fn lemma_minus_days_prepend(d: Date, n: nat)
    ensures
        spec_minus_days(spec_prev_date(d), n) == spec_minus_days(d, n + 1),
    decreases n,
{
    assert(spec_minus_days(d, n + 1) == spec_prev_date(spec_minus_days(d, n)));
    if n > 0 {
        lemma_minus_days_prepend(d, (n - 1) as nat);
        assert(spec_minus_days(spec_prev_date(d), n) == spec_prev_date(
            spec_minus_days(spec_prev_date(d), (n - 1) as nat),
        ));
    }
}

/// Day number of a date, computed by the closed formula.
pub fn date_rata(d: Date) -> (r: u32)
    requires
        date_valid(d),
    ensures
        r as int == spec_rata(d),
        RATA_MIN <= r <= RATA_MAX,
{
    proof {
        lemma_rata_bounds(d);
    }
    let ys: u32 = if d.month <= 2 {
        (d.year - 1) as u32
    } else {
        d.year as u32
    };
    let mp: u32 = if d.month > 2 {
        d.month - 3
    } else {
        d.month + 9
    };
    proof {
        vstd::arithmetic::div_mod::lemma_div_pos_is_pos(ys as int, 400);
        vstd::arithmetic::div_mod::lemma_div_is_ordered(ys as int, 9999, 400);
        vstd::arithmetic::div_mod::lemma_mod_division_less_than_divisor(ys as int, 400);
        vstd::arithmetic::div_mod::lemma_div_pos_is_pos(ys as int % 400, 4);
        vstd::arithmetic::div_mod::lemma_div_pos_is_pos(ys as int % 400, 100);
        vstd::arithmetic::div_mod::lemma_div_is_ordered(ys as int % 400, 399, 4);
        vstd::arithmetic::div_mod::lemma_div_nonincreasing(ys as int % 400, 100);
        vstd::arithmetic::div_mod::lemma_div_pos_is_pos(153 * mp as int + 2, 5);
        vstd::arithmetic::div_mod::lemma_div_is_ordered(153 * mp as int + 2, 153int * 11 + 2, 5);
    }
    let era: u32 = ys / 400;
    let yoe: u32 = ys % 400;
    let doy: u32 = (153 * mp + 2) / 5 + d.day - 1;
    era * 146097 + yoe * 365 + yoe / 4 - yoe / 100 + doy
}

/// Weekday index of a date: 0 is Monday, 6 is Sunday.
pub fn weekday_index(d: Date) -> (r: u32)
    requires
        date_valid(d),
    ensures
        r as int == wd_index(d),
        r < 7,
{
    proof {
        vstd::arithmetic::div_mod::lemma_mod_division_less_than_divisor(spec_rata(d) + 2, 7);
        vstd::arithmetic::div_mod::lemma_mod_bound(spec_rata(d) + 2, 7);
    }
    (date_rata(d) + 2) % 7
}

/// The weekday a given index stands for.
pub open spec fn weekday_of_index(i: int) -> Weekday {
    if i == 0 {
        Weekday::Mon
    } else if i == 1 {
        Weekday::Tue
    } else if i == 2 {
        Weekday::Wed
    } else if i == 3 {
        Weekday::Thu
    } else if i == 4 {
        Weekday::Fri
    } else if i == 5 {
        Weekday::Sat
    } else {
        Weekday::Sun
    }
}

/// Index of a weekday, Monday being 0.
pub open spec fn index_of_weekday(w: Weekday) -> int {
    match w {
        Weekday::Mon => 0,
        Weekday::Tue => 1,
        Weekday::Wed => 2,
        Weekday::Thu => 3,
        Weekday::Fri => 4,
        Weekday::Sat => 5,
        Weekday::Sun => 6,
    }
}

/// The weekday a date falls on.
pub open spec fn spec_weekday_of(d: Date) -> Weekday {
    weekday_of_index(wd_index(d))
}

impl Date {
    /// The weekday this date falls on.
    pub fn weekday(self) -> (r: Weekday)
        requires
            date_valid(self),
        ensures
            r == spec_weekday_of(self),
            index_of_weekday(r) == wd_index(self),
    {
        let i = weekday_index(self);
        if i == 0 {
            Weekday::Mon
        } else if i == 1 {
            Weekday::Tue
        } else if i == 2 {
            Weekday::Wed
        } else if i == 3 {
            Weekday::Thu
        } else if i == 4 {
            Weekday::Fri
        } else if i == 5 {
            Weekday::Sat
        } else {
            Weekday::Sun
        }
    }
}

/// Days from Monday to the given weekday.
pub fn num_days_from_monday(w: Weekday) -> (r: u32)
    ensures
        r as int == index_of_weekday(w),
{
    match w {
        Weekday::Mon => 0,
        Weekday::Tue => 1,
        Weekday::Wed => 2,
        Weekday::Thu => 3,
        Weekday::Fri => 4,
        Weekday::Sat => 5,
        Weekday::Sun => 6,
    }
}

/// The weekday at a given index, Monday being 0.
pub fn weekday_from_index(i: u32) -> (r: Weekday)
    requires
        i < 7,
    ensures
        r == weekday_of_index(i as int),
{
    match i {
        0 => Weekday::Mon,
        1 => Weekday::Tue,
        2 => Weekday::Wed,
        3 => Weekday::Thu,
        4 => Weekday::Fri,
        5 => Weekday::Sat,
        _ => Weekday::Sun,
    }
}

/// The Monday that begins a month's display grid.
pub open spec fn spec_grid_start(y: int, m: int) -> Date {
    let first = Date { year: y as i32, month: m as u32, day: 1 };
    let w = wd_index(first);
    if w == 0 {
        first
    } else if w >= 5 {
        spec_plus_days(first, (7 - w) as nat)
    } else {
        spec_minus_days(first, w as nat)
    }
}

/// The Sunday that ends a month's display grid: the day before the next
/// month's grid begins.
pub open spec fn spec_grid_end(y: int, m: int) -> Date {
    spec_grid_end_helper(spec_next_month(y, m).0, spec_next_month(y, m).1)
}

pub open spec fn spec_grid_end_helper(y2: int, m2: int) -> Date {
    spec_prev_date(spec_grid_start(y2, m2))
}

/// The month pairs whose grid start the library computes: every month of the
/// year range, except that in the last year only January is reachable (as
/// the month after December of the year before).
pub open spec fn grid_month_ok(y: int, m: int) -> bool {
    &&& MIN_YEAR <= y <= MAX_YEAR
    &&& 1 <= m <= 12
    &&& (y <= MAX_YEAR - 1 || m == 1)
}

/// First days of months other than January of the first year sit strictly
/// above the range's start, with a week of room.
proof fn lemma_first_rata_lower(d: Date)
    requires
        date_valid(d),
        d.day == 1,
        !(d.year == MIN_YEAR && d.month == 1),
    ensures
        spec_rata(d) >= 337,
{
    if d.month <= 2 {
        if d.year == MIN_YEAR {
            assert(d.month == 2);
        } else {
            lemma_year_days_monotone(1, d.year - 1);
            lemma_year_step(0);
        }
    } else {
        lemma_year_days_monotone(1, d.year as int);
        lemma_year_step(0);
        vstd::arithmetic::div_mod::lemma_div_pos_is_pos(153 * (d.month - 3) + 2, 5);
    }
}

/// Shape of a month's grid start: a Monday within the week around the first
/// of the month, pulled forward over a weekend and backward otherwise.
pub proof fn lemma_grid_start_props(y: int, m: int)
    requires
        grid_month_ok(y, m),
    ensures
        ({
            let first = Date { year: y as i32, month: m as u32, day: 1 };
            let s = spec_grid_start(y, m);
            &&& date_valid(s)
            &&& wd_index(s) == 0
            &&& spec_rata(first) - 4 <= spec_rata(s) <= spec_rata(first) + 2
            &&& spec_rata(s) == if wd_index(first) >= 5 {
                spec_rata(first) + 7 - wd_index(first)
            } else {
                spec_rata(first) - wd_index(first)
            }
        }),
{
    let first = Date { year: y as i32, month: m as u32, day: 1 };
    let s = spec_grid_start(y, m);
    lemma_rata_bounds(first);
    let x = spec_rata(first) + 2;
    let w = wd_index(first);
    vstd::arithmetic::div_mod::lemma_mod_division_less_than_divisor(x, 7);
    vstd::arithmetic::div_mod::lemma_fundamental_div_mod(x, 7);
    if w == 0 {
    } else if w >= 5 {
        lemma_plus_days_ok(first, (7 - w) as nat);
        // rata(s) + 2 is the next multiple of 7 above x.
        vstd::arithmetic::div_mod::lemma_fundamental_div_mod_converse_mod(
            x + 7 - w,
            7,
            x / 7 + 1,
            0,
        );
    } else {
        lemma_rata_extremes();
        lemma_first_rata_lower(first);
        lemma_minus_days_ok(first, w as nat);
        // rata(s) + 2 is the multiple of 7 at or below x.
        vstd::arithmetic::div_mod::lemma_fundamental_div_mod_converse_mod(x - w, 7, x / 7, 0);
    }
}

/// Shape of a month's grid end: the Sunday right before the next month's
/// grid start.
pub proof fn lemma_grid_end_props(y: int, m: int)
    requires
        MIN_YEAR <= y <= MAX_YEAR - 1,
        1 <= m <= 12,
    ensures
        ({
            let e = spec_grid_end(y, m);
            let s2 = spec_grid_start(spec_next_month(y, m).0, spec_next_month(y, m).1);
            &&& date_valid(e)
            &&& wd_index(e) == 6
            &&& spec_rata(e) == spec_rata(s2) - 1
        }),
{
    let (y2, m2) = spec_next_month(y, m);
    let first2 = Date { year: y2 as i32, month: m2 as u32, day: 1 };
    lemma_grid_start_props(y2, m2);
    let s2 = spec_grid_start(y2, m2);
    lemma_first_rata_lower(first2);
    lemma_rata_extremes();
    assert(s2 != (Date { year: MIN_YEAR, month: 1, day: 1 }));
    lemma_rata_prev(s2);
    vstd::arithmetic::div_mod::lemma_small_mod(6nat, 7);
}

/// The first of the next month lies one month's length after the first of
/// this month.
pub proof fn lemma_month_length_step(y: int, m: int)
    requires
        MIN_YEAR <= y <= MAX_YEAR - 1,
        1 <= m <= 12,
    ensures
        ({
            let (y2, m2) = spec_next_month(y, m);
            spec_rata(Date { year: y2 as i32, month: m2 as u32, day: 1 }) == spec_rata(
                Date { year: y as i32, month: m as u32, day: 1 },
            ) + spec_days_in_month(y, m)
        }),
{
    let dim = spec_days_in_month(y, m);
    let last = Date { year: y as i32, month: m as u32, day: dim as u32 };
    lemma_rata_next(last);
}

/// A month's grid runs from a Monday to a Sunday and covers a whole number
/// of weeks: four or five of them.
pub proof fn lemma_grid_shape(y: int, m: int)
    requires
        MIN_YEAR <= y <= MAX_YEAR - 1,
        1 <= m <= 12,
    ensures
        ({
            let s = spec_grid_start(y, m);
            let e = spec_grid_end(y, m);
            let len = spec_rata(e) + 1 - spec_rata(s);
            &&& date_valid(s) && wd_index(s) == 0
            &&& date_valid(e) && wd_index(e) == 6
            &&& len % 7 == 0
            &&& len == 28 || len == 35
        }),
{
    let s = spec_grid_start(y, m);
    let e = spec_grid_end(y, m);
    let (y2, m2) = spec_next_month(y, m);
    let s2 = spec_grid_start(y2, m2);
    lemma_grid_start_props(y, m);
    lemma_grid_start_props(y2, m2);
    lemma_grid_end_props(y, m);
    lemma_month_length_step(y, m);
    let len = spec_rata(e) + 1 - spec_rata(s);
    assert(22 <= len <= 37);
    // Both grid starts are Mondays, so their distance is a whole number
    // of weeks.
    vstd::arithmetic::div_mod::lemma_fundamental_div_mod(spec_rata(s) + 2, 7);
    vstd::arithmetic::div_mod::lemma_fundamental_div_mod(spec_rata(s2) + 2, 7);
    let q1 = (spec_rata(s) + 2) / 7;
    let q2 = (spec_rata(s2) + 2) / 7;
    assert(len == 7 * (q2 - q1));
    vstd::arithmetic::div_mod::lemma_fundamental_div_mod_converse_mod(len, 7, q2 - q1, 0);
    assert(q2 - q1 == 4 || q2 - q1 == 5);
}

/// Taking the next day is well defined and undoes taking the previous day.
proof fn lemma_next_prev(d: Date)
    requires
        date_valid(d),
        !(d.year == MAX_YEAR && d.month == 12 && d.day == 31),
    ensures
        spec_prev_date(spec_next_date(d)) == d,
{
}

/// Walking forward to the coming Monday, staying put on one.
pub fn find_next_monday(day: Date) -> (r: Date)
    requires
        date_valid(day),
        spec_rata(day) + (7 - wd_index(day)) % 7 <= RATA_MAX,
    ensures
        date_valid(r),
        wd_index(r) == 0,
        r == spec_plus_days(day, ((7 - wd_index(day)) % 7) as nat),
        spec_rata(r) == spec_rata(day) + (7 - wd_index(day)) % 7,
    decreases (7 - wd_index(day)) % 7,
{
    proof {
        lemma_dist_to_monday(wd_index(day));
    }
    let w = weekday_index(day);
    if w == 0 {
        day
    } else {
        proof {
            lemma_rata_extremes();
            lemma_rata_nonneg(day);
            assert(day != (Date { year: MAX_YEAR, month: 12, day: 31 }));
            lemma_rata_next(day);
            lemma_wd_next(day);
            if wd_index(day) < 6 {
                vstd::arithmetic::div_mod::lemma_small_mod((wd_index(day) + 1) as nat, 7);
            } else {
                vstd::arithmetic::div_mod::lemma_fundamental_div_mod_converse_mod(7, 7, 1, 0);
            }
            lemma_dist_to_monday(wd_index(spec_next_date(day)));
            lemma_plus_days_prepend(day, ((7 - wd_index(spec_next_date(day))) % 7) as nat);
        }
        find_next_monday(day.succ())
    }
}

/// Walking backward to the preceding Monday, staying put on one.
pub fn find_prec_monday(day: Date) -> (r: Date)
    requires
        date_valid(day),
    ensures
        date_valid(r),
        wd_index(r) == 0,
        r == spec_minus_days(day, wd_index(day) as nat),
        spec_rata(r) == spec_rata(day) - wd_index(day),
    decreases wd_index(day),
{
    proof {
        vstd::arithmetic::div_mod::lemma_mod_division_less_than_divisor(spec_rata(day) + 2, 7);
    }
    let w = weekday_index(day);
    if w == 0 {
        day
    } else {
        proof {
            lemma_rata_extremes();
            assert(wd_index(Date { year: MIN_YEAR, month: 1, day: 1 }) == 0) by {
                vstd::arithmetic::div_mod::lemma_small_mod(0nat, 7);
                vstd::arithmetic::div_mod::lemma_fundamental_div_mod_converse_mod(308, 7, 44, 0);
            }
            assert(day != (Date { year: MIN_YEAR, month: 1, day: 1 }));
            lemma_rata_prev(day);
            vstd::arithmetic::div_mod::lemma_fundamental_div_mod_converse_mod(
                wd_index(day) + 6,
                7,
                1,
                wd_index(day) - 1,
            );
            lemma_minus_days_prepend(day, (wd_index(day) - 1) as nat);
        }
        find_prec_monday(day.pred())
    }
}

/// Distance from a weekday to the coming Monday, as days.
proof fn lemma_dist_to_monday(w: int)
    requires
        0 <= w < 7,
    ensures
        (7 - w) % 7 == if w == 0 {
            0int
        } else {
            7 - w
        },
{
    if w == 0 {
        vstd::arithmetic::div_mod::lemma_fundamental_div_mod_converse_mod(7, 7, 1, 0);
    } else {
        vstd::arithmetic::div_mod::lemma_small_mod((7 - w) as nat, 7);
    }
}

/// The Monday that begins the display grid of a month: the first itself if
/// it is a Monday, the coming Monday if the month starts on a weekend, and
/// the preceding Monday otherwise.
pub fn find_first_monday_of_grid(year: i32, month: u32) -> (r: Date)
    requires
        grid_month_ok(year as int, month as int),
    ensures
        date_valid(r),
        r == spec_grid_start(year as int, month as int),
        wd_index(r) == 0,
{
    proof {
        lemma_grid_start_props(year as int, month as int);
        lemma_rata_bounds(Date { year, month, day: 1 });
        lemma_dist_to_monday(wd_index(Date { year, month, day: 1 }));
    }
    let first = Date { year, month, day: 1 };
    let w = weekday_index(first);
    if w == 0 {
        first
    } else if w >= 5 {
        find_next_monday(first)
    } else {
        find_prec_monday(first)
    }
}

/// How the closing Sunday relates to the first day of the next month,
/// by cases on that day's weekday.
#[verifier::rlimit(100)]
proof fn lemma_grid_end_cases(y: int, m: int)
    requires
        MIN_YEAR <= y <= MAX_YEAR - 1,
        1 <= m <= 12,
    ensures
        ({
            let (y2, m2) = spec_next_month(y, m);
            let first2 = Date { year: y2 as i32, month: m2 as u32, day: 1 };
            let s2 = spec_grid_start(y2, m2);
            &&& wd_index(first2) == 6 ==> spec_grid_end(y, m) == first2
            &&& s2 != (Date { year: MIN_YEAR, month: 1, day: 1 })
            &&& spec_grid_end(y, m) == spec_prev_date(s2)
        }),
{
    let (y2, m2) = spec_next_month(y, m);
    let first2 = Date { year: y2 as i32, month: m2 as u32, day: 1 };
    let s2 = spec_grid_start(y2, m2);
    lemma_grid_start_props(y2, m2);
    lemma_first_rata_lower(first2);
    lemma_rata_extremes();
    assert(s2 != (Date { year: MIN_YEAR, month: 1, day: 1 }));
    if wd_index(first2) == 6 {
        // On a Sunday the next grid starts the very next day, so the first
        // of the month is itself the closing Sunday.
        assert(s2 == spec_plus_days(first2, 1));
        assert(spec_plus_days(first2, 0) == first2);
        assert(s2 == spec_next_date(first2));
        lemma_next_prev(first2);
    }
}

/// The Sunday that ends the display grid of a month.
pub fn find_last_sunday_for(year: i32, month: u32) -> (r: Date)
    requires
        MIN_YEAR <= year <= MAX_YEAR - 1,
        1 <= month <= 12,
    ensures
        date_valid(r),
        r == spec_grid_end(year as int, month as int),
        wd_index(r) == 6,
{
    proof {
        lemma_grid_end_props(year as int, month as int);
        lemma_grid_end_cases(year as int, month as int);
    }
    let (y, m) = next_month(year, month);
    let first_next = Date { year: y, month: m, day: 1 };
    if weekday_index(first_next) == 6 {
        first_next
    } else {
        find_first_monday_of_grid(y, m).pred()
    }
}

/// A time of day with minute precision, held as plain values.
#[derive(Copy, Clone, Debug, PartialEq, Eq, Structural)]
pub struct TimeOfDay {
    pub hour: u32,
    pub minute: u32,
}

/// A time of day the library accepts.
pub open spec fn time_valid(t: TimeOfDay) -> bool {
    t.hour < 24 && t.minute < 60
}

impl TimeOfDay {
    /// Minutes elapsed since midnight.
    pub open spec fn spec_minutes(self) -> int {
        self.hour * 60 + self.minute
    }

    /// Builds a time of day the caller already knows to be valid.
    pub fn from_hm(hour: u32, minute: u32) -> (r: TimeOfDay)
        requires
            hour < 24,
            minute < 60,
        ensures
            r == (TimeOfDay { hour, minute }),
    {
        TimeOfDay { hour, minute }
    }

    /// Minutes elapsed since midnight.
    pub fn minutes_of_day(self) -> (r: u32)
        requires
            time_valid(self),
        ensures
            r as int == self.spec_minutes(),
            r < 1440,
    {
        self.hour * 60 + self.minute
    }

    /// The time one hour later, wrapping around midnight.
    pub fn plus_hour(self) -> (r: TimeOfDay)
        requires
            time_valid(self),
        ensures
            time_valid(r),
            r.minute == self.minute,
            r.hour as int == (self.hour + 1) % 24,
    {
        TimeOfDay { hour: if self.hour == 23 { 0 } else { self.hour + 1 }, minute: self.minute }
    }

    /// The time one hour earlier, wrapping around midnight.
    pub fn minus_hour(self) -> (r: TimeOfDay)
        requires
            time_valid(self),
        ensures
            time_valid(r),
            r.minute == self.minute,
            r.hour as int == (self.hour + 23) % 24,
    {
        TimeOfDay { hour: if self.hour == 0 { 23 } else { self.hour - 1 }, minute: self.minute }
    }

    /// The time one minute later, wrapping around midnight.
    pub fn plus_minute(self) -> (r: TimeOfDay)
        requires
            time_valid(self),
        ensures
            time_valid(r),
            r.spec_minutes() == (self.spec_minutes() + 1) % 1440,
    {
        proof {
            if self.hour == 23 && self.minute == 59 {
                vstd::arithmetic::div_mod::lemma_fundamental_div_mod_converse_mod(1440, 1440, 1, 0);
            } else {
                vstd::arithmetic::div_mod::lemma_small_mod((self.spec_minutes() + 1) as nat, 1440);
            }
        }
        if self.minute == 59 {
            TimeOfDay { hour: if self.hour == 23 { 0 } else { self.hour + 1 }, minute: 0 }
        } else {
            TimeOfDay { hour: self.hour, minute: self.minute + 1 }
        }
    }

    /// The time one minute earlier, wrapping around midnight.
    pub fn minus_minute(self) -> (r: TimeOfDay)
        requires
            time_valid(self),
        ensures
            time_valid(r),
            r.spec_minutes() == (self.spec_minutes() + 1439) % 1440,
    {
        proof {
            if self.spec_minutes() == 0 {
                vstd::arithmetic::div_mod::lemma_small_mod(1439nat, 1440);
            } else {
                vstd::arithmetic::div_mod::lemma_fundamental_div_mod_converse_mod(
                    self.spec_minutes() + 1439,
                    1440,
                    1,
                    self.spec_minutes() - 1,
                );
            }
        }
        if self.minute == 0 {
            TimeOfDay { hour: if self.hour == 0 { 23 } else { self.hour - 1 }, minute: 59 }
        } else {
            TimeOfDay { hour: self.hour, minute: self.minute - 1 }
        }
    }
}

impl Date {
    /// The date `n` days later, or nothing when that would leave the
    /// supported range.
    pub fn add_days(self, n: u32) -> (r: Option<Date>)
        requires
            date_valid(self),
        ensures
            match r {
                Some(x) => spec_rata(self) + n <= RATA_MAX && x == spec_plus_days(self, n as nat)
                    && date_valid(x),
                None => spec_rata(self) + n > RATA_MAX,
            },
    {
        let start_rata = date_rata(self);
        if n > RATA_MAX - start_rata {
            return None;
        }
        let mut cur = self;
        let mut i: u32 = 0;
        #[verifier::loop_isolation(false)]
        while i < n
            invariant
                0 <= i <= n,
                cur == spec_plus_days(self, i as nat),
                date_valid(cur),
                spec_rata(cur) == spec_rata(self) + i,
            decreases n - i,
        {
            proof {
                lemma_rata_extremes();
                assert(cur != (Date { year: MAX_YEAR, month: 12, day: 31 }));
                lemma_rata_next(cur);
            }
            cur = cur.succ();
            i = i + 1;
        }
        Some(cur)
    }

    /// The date `n` days earlier, or nothing when that would leave the
    /// supported range.
    pub fn sub_days(self, n: u32) -> (r: Option<Date>)
        requires
            date_valid(self),
        ensures
            match r {
                Some(x) => spec_rata(self) - n >= RATA_MIN && x == spec_minus_days(self, n as nat)
                    && date_valid(x),
                None => spec_rata(self) - n < RATA_MIN,
            },
    {
        let start_rata = date_rata(self);
        if n > start_rata - RATA_MIN {
            return None;
        }
        let mut cur = self;
        let mut i: u32 = 0;
        #[verifier::loop_isolation(false)]
        while i < n
            invariant
                0 <= i <= n,
                cur == spec_minus_days(self, i as nat),
                date_valid(cur),
                spec_rata(cur) == spec_rata(self) - i,
            decreases n - i,
        {
            proof {
                lemma_rata_extremes();
                assert(cur != (Date { year: MIN_YEAR, month: 1, day: 1 }));
                lemma_rata_prev(cur);
            }
            cur = cur.pred();
            i = i + 1;
        }
        Some(cur)
    }
}

/// Dates ordered as they fall in the calendar.
pub open spec fn spec_date_le(a: Date, b: Date) -> bool {
    ||| a.year < b.year
    ||| (a.year == b.year && a.month < b.month)
    ||| (a.year == b.year && a.month == b.month && a.day <= b.day)
}

/// Whether `a` falls no later than `b`.
pub fn date_le(a: Date, b: Date) -> (r: bool)
    ensures
        r == spec_date_le(a, b),
{
    a.year < b.year || (a.year == b.year && (a.month < b.month || (a.month == b.month && a.day
        <= b.day)))
}

/// Whether `a` falls strictly before `b`.
pub fn date_lt(a: Date, b: Date) -> (r: bool)
    ensures
        r == (spec_date_le(a, b) && a != b),
{
    date_le(a, b) && !(a.year == b.year && a.month == b.month && a.day == b.day)
}

/// Walks the dates from a start to an end, both included.
pub struct DateIter {
    pub cur: Option<Date>,
    pub end: Date,
}

impl DateIter {
    /// The dates still to be handed out are valid ones.
    pub open spec fn wf(self) -> bool {
        &&& match self.cur {
            Some(c) => date_valid(c),
            None => true,
        }
        &&& date_valid(self.end)
    }

    /// A walk over the dates from `start` to `end`; empty when `start`
    /// falls after `end`.
    pub fn new(start: Date, end: Date) -> (r: DateIter)
        requires
            date_valid(start),
            date_valid(end),
        ensures
            r == (DateIter { cur: Some(start), end }),
            r.wf(),
    {
        DateIter { cur: Some(start), end }
    }

    /// The next date of the walk, if one is left.
    pub fn next(&mut self) -> (r: Option<Date>)
        requires
            old(self).wf(),
        ensures
            final(self).wf(),
            final(self).end == old(self).end,
            match old(self).cur {
                None => r == None::<Date> && final(self).cur == None::<Date>,
                Some(c) => if spec_date_le(c, old(self).end) {
                    r == Some(c) && final(self).cur == (if c == old(self).end {
                        None::<Date>
                    } else {
                        Some(spec_next_date(c))
                    })
                } else {
                    r == None::<Date> && final(self).cur == None::<Date>
                },
            },
    {
        match self.cur {
            None => None,
            Some(c) => {
                if date_le(c, self.end) {
                    if c.year == self.end.year && c.month == self.end.month && c.day
                        == self.end.day {
                        self.cur = None;
                    } else {
                        self.cur = Some(c.succ());
                    }
                    Some(c)
                } else {
                    self.cur = None;
                    None
                }
            },
        }
    }
}

/// Name of a month of the year, or a placeholder outside 1 to 12.
pub open spec fn spec_month_name(m: int) -> Seq<char> {
    if m == 1 {
        "January"@
    } else if m == 2 {
        "February"@
    } else if m == 3 {
        "March"@
    } else if m == 4 {
        "April"@
    } else if m == 5 {
        "May"@
    } else if m == 6 {
        "June"@
    } else if m == 7 {
        "July"@
    } else if m == 8 {
        "August"@
    } else if m == 9 {
        "September"@
    } else if m == 10 {
        "October"@
    } else if m == 11 {
        "November"@
    } else if m == 12 {
        "December"@
    } else {
        "???"@
    }
}

/// The English name of a month of the year.
pub fn month_to_string(m: u32) -> (r: &'static str)
    ensures
        r@ == spec_month_name(m as int),
{
    match m {
        1 => "January",
        2 => "February",
        3 => "March",
        4 => "April",
        5 => "May",
        6 => "June",
        7 => "July",
        8 => "August",
        9 => "September",
        10 => "October",
        11 => "November",
        12 => "December",
        _ => "???",
    }
}

/// Short name of a weekday.
pub open spec fn spec_weekday_name(w: Weekday) -> Seq<char> {
    match w {
        Weekday::Mon => "Mon"@,
        Weekday::Tue => "Tue"@,
        Weekday::Wed => "Wed"@,
        Weekday::Thu => "Thu"@,
        Weekday::Fri => "Fri"@,
        Weekday::Sat => "Sat"@,
        Weekday::Sun => "Sun"@,
    }
}

/// The short English name of a weekday.
pub fn weekday_to_string(wd: Weekday) -> (r: String)
    ensures
        r@ == spec_weekday_name(wd),
{
    match wd {
        Weekday::Mon => "Mon",
        Weekday::Tue => "Tue",
        Weekday::Wed => "Wed",
        Weekday::Thu => "Thu",
        Weekday::Fri => "Fri",
        Weekday::Sat => "Sat",
        Weekday::Sun => "Sun",
    }.to_owned()
}

} // verus!
