//! The `Instant` type: a local wall-clock timestamp with minute resolution,
//! modelled on the proleptic Gregorian calendar for years 0 through 9999.

use vstd::prelude::*;

verus! {

/// An absolute local wall-clock point in time, at minute resolution.
#[derive(Clone, Copy, Debug, PartialEq, Eq, Structural)]
pub struct Instant {
    pub year: u32,
    pub month: u32,
    pub day: u32,
    pub hour: u32,
    pub minute: u32,
}

/// Leap years of the Gregorian calendar.
pub open spec fn is_leap_year(y: int) -> bool {
    (y % 4 == 0 && y % 100 != 0) || y % 400 == 0
}

/// Number of days in a month (1 = January .. 12 = December).
pub open spec fn days_in_month(y: int, m: int) -> int {
    if m == 2 {
        if is_leap_year(y) {
            29
        } else {
            28
        }
    } else if m == 4 || m == 6 || m == 9 || m == 11 {
        30
    } else {
        31
    }
}

pub open spec fn days_in_year(y: int) -> int {
    if is_leap_year(y) {
        366
    } else {
        365
    }
}

/// Days in all months of year `y` strictly before month `m`.
pub open spec fn days_before_month(y: int, m: int) -> int
    decreases m,
{
    if m <= 1 {
        0
    } else {
        days_before_month(y, m - 1) + days_in_month(y, m - 1)
    }
}

/// Days in all years from year 0 up to but not including year `y`.
pub open spec fn days_before_year(y: int) -> int
    decreases y,
{
    if y <= 0 {
        0
    } else {
        days_before_year(y - 1) + days_in_year(y - 1)
    }
}

/// A calendar date that exists, within the supported year range.
pub open spec fn valid_date(y: int, m: int, d: int) -> bool {
    0 <= y <= 9999 && 1 <= m <= 12 && 1 <= d <= days_in_month(y, m)
}

/// Index of a date, counting 0000-01-01 as day 0.
pub open spec fn date_index(y: int, m: int, d: int) -> int {
    days_before_year(y) + days_before_month(y, m) + (d - 1)
}

impl Instant {
    /// Well-formedness: a real calendar date and a real clock time.
    pub open spec fn wf(self) -> bool {
        valid_date(self.year as int, self.month as int, self.day as int)
            && self.hour < 24
            && self.minute < 60
    }

    /// Index of this instant's date, counting 0000-01-01 as day 0.
    pub open spec fn day_index(self) -> int {
        date_index(self.year as int, self.month as int, self.day as int)
    }

    /// Minutes since 0000-01-01 00:00; the measure by which instants are
    /// compared and subtracted.
    pub open spec fn minute_index(self) -> int {
        self.day_index() * 1440 + self.hour * 60 + self.minute
    }

    /// Same local calendar date.
    pub open spec fn same_date(self, other: Instant) -> bool {
        self.year == other.year && self.month == other.month && self.day == other.day
    }
}

/// One more minute than the largest `wf` instant (9999-12-31 23:59) has.
pub open spec fn minute_limit() -> int {
    days_before_year(10000) * 1440
}

/// `days_before_year` grows by 365 or 366 per year.
pub proof fn lemma_days_before_year_bounds(y: int)
    requires
        y >= 0,
    ensures
        365 * y <= days_before_year(y) <= 366 * y,
    decreases y,
{
    if y > 0 {
        lemma_days_before_year_bounds(y - 1);
    }
}

pub proof fn lemma_days_before_year_monotone(y1: int, y2: int)
    requires
        0 <= y1 <= y2,
    ensures
        days_before_year(y1) <= days_before_year(y2),
    decreases y2,
{
    if y1 < y2 {
        lemma_days_before_year_monotone(y1, y2 - 1);
    }
}

/// `days_before_month` is at most 337 before any valid month slot.
pub proof fn lemma_days_before_month_bounds(y: int, m: int)
    requires
        1 <= m <= 13,
    ensures
        0 <= days_before_month(y, m) <= 31 * (m - 1),
    decreases m,
{
    if m > 1 {
        lemma_days_before_month_bounds(y, m - 1);
    }
}

pub proof fn lemma_days_before_month_plain_monotone(y: int, m1: int, m2: int)
    requires
        m1 <= m2,
    ensures
        days_before_month(y, m1) <= days_before_month(y, m2),
    decreases m2 - m1,
{
    if m1 < m2 {
        lemma_days_before_month_plain_monotone(y, m1, m2 - 1);
    }
}

/// A date's index lies inside its year's and its month's slice of the day
/// line.
pub proof fn lemma_date_index_bounds(y: int, m: int, d: int)
    requires
        valid_date(y, m, d),
    ensures
        days_before_year(y) + days_before_month(y, m) <= date_index(y, m, d) < days_before_year(y)
            + days_before_month(y, m + 1),
        days_before_year(y) <= date_index(y, m, d) < days_before_year(y + 1),
{
    lemma_year_days(y);
    lemma_days_before_month_plain_monotone(y, m + 1, 13);
    lemma_days_before_month_bounds(y, m);
}

/// No two valid dates share a day index.
pub proof fn lemma_date_index_injective(y1: int, m1: int, d1: int, y2: int, m2: int, d2: int)
    requires
        valid_date(y1, m1, d1),
        valid_date(y2, m2, d2),
        date_index(y1, m1, d1) == date_index(y2, m2, d2),
    ensures
        y1 == y2 && m1 == m2 && d1 == d2,
{
    lemma_date_index_bounds(y1, m1, d1);
    lemma_date_index_bounds(y2, m2, d2);
    if y1 < y2 {
        lemma_days_before_year_monotone(y1 + 1, y2);
        assert(false);
    }
    if y2 < y1 {
        lemma_days_before_year_monotone(y2 + 1, y1);
        assert(false);
    }
    if m1 < m2 {
        lemma_days_before_month_plain_monotone(y1, m1 + 1, m2);
        assert(false);
    }
    if m2 < m1 {
        lemma_days_before_month_plain_monotone(y1, m2 + 1, m1);
        assert(false);
    }
}

/// No two well-formed instants share a minute index: the index names the
/// instant completely.
pub proof fn lemma_minute_index_injective(a: Instant, b: Instant)
    requires
        a.wf(),
        b.wf(),
        a.minute_index() == b.minute_index(),
    ensures
        a == b,
{
    let ta = a.hour * 60 + a.minute;
    let tb = b.hour * 60 + b.minute;
    let n = a.minute_index();
    vstd::arithmetic::div_mod::lemma_fundamental_div_mod_converse(
        n,
        1440,
        a.day_index(),
        ta as int,
    );
    vstd::arithmetic::div_mod::lemma_fundamental_div_mod_converse(
        n,
        1440,
        b.day_index(),
        tb as int,
    );
    lemma_date_index_injective(
        a.year as int,
        a.month as int,
        a.day as int,
        b.year as int,
        b.month as int,
        b.day as int,
    );
    vstd::arithmetic::div_mod::lemma_fundamental_div_mod_converse(
        ta as int,
        60,
        a.hour as int,
        a.minute as int,
    );
    vstd::arithmetic::div_mod::lemma_fundamental_div_mod_converse(
        tb as int,
        60,
        b.hour as int,
        b.minute as int,
    );
}

/// The twelve months of a year hold exactly `days_in_year(y)` days.
pub proof fn lemma_year_days(y: int)
    ensures
        days_before_month(y, 13) == days_in_year(y),
{
    reveal_with_fuel(days_before_month, 14);
}

/// Whether year `y` (0 <= y <= 9999) is a leap year.
pub fn leap_year(y: u32) -> (r: bool)
    ensures
        r == is_leap_year(y as int),
{
    (y % 4 == 0 && y % 100 != 0) || y % 400 == 0
}

/// Number of days in the given month of the given year.
pub fn month_length(y: u32, m: u32) -> (r: u32)
    requires
        1 <= m <= 12,
    ensures
        r == days_in_month(y as int, m as int),
{
    if m == 2 {
        if leap_year(y) {
            29
        } else {
            28
        }
    } else if m == 4 || m == 6 || m == 9 || m == 11 {
        30
    } else {
        31
    }
}

/// Days in all years before year `y`, computed by summation.
pub fn days_before_year_x(y: u32) -> (r: u64)
    requires
        y <= 10000,
    ensures
        r == days_before_year(y as int),
{
    let mut acc: u64 = 0;
    let mut i: u32 = 0;
    while i < y
        invariant
            i <= y <= 10000,
            acc == days_before_year(i as int),
        decreases y - i,
    {
        proof {
            lemma_days_before_year_bounds(i as int);
        }
        acc = acc + if leap_year(i) {
            366
        } else {
            365
        };
        i = i + 1;
    }
    acc
}

/// Days in the months of year `y` strictly before month `m`.
pub fn days_before_month_x(y: u32, m: u32) -> (r: u32)
    requires
        1 <= m <= 13,
    ensures
        r == days_before_month(y as int, m as int),
{
    let mut acc: u32 = 0;
    let mut i: u32 = 1;
    while i < m
        invariant
            1 <= i <= m <= 13,
            acc == days_before_month(y as int, i as int),
        decreases m - i,
    {
        proof {
            lemma_days_before_month_bounds(y as int, i as int);
        }
        acc = acc + month_length(y, i);
        i = i + 1;
    }
    acc
}

/// Index of a date, counting 0000-01-01 as day 0.
pub fn date_to_days(y: u32, m: u32, d: u32) -> (r: u64)
    requires
        valid_date(y as int, m as int, d as int),
    ensures
        r == date_index(y as int, m as int, d as int),
        r < days_before_year(10000),
{
    proof {
        lemma_days_before_year_bounds(y as int);
        lemma_days_before_month_bounds(y as int, m as int);
        lemma_days_before_year_monotone(y as int + 1, 10000);
        lemma_year_days(y as int);
        lemma_days_before_month_monotone(y as int, m as int, 13);
    }
    days_before_year_x(y) + days_before_month_x(y, m) as u64 + (d - 1) as u64
}

pub proof fn lemma_days_before_month_monotone(y: int, m1: int, m2: int)
    requires
        1 <= m1 <= m2,
    ensures
        days_before_month(y, m1) + days_in_month(y, m1) <= days_before_month(y, m2)
            + days_in_month(y, m2),
    decreases m2,
{
    if m1 < m2 {
        lemma_days_before_month_monotone(y, m1, m2 - 1);
    }
}

/// The date with the given day index.
pub fn days_to_date(n: u64) -> (r: (u32, u32, u32))
    requires
        n < days_before_year(10000),
    ensures
        valid_date(r.0 as int, r.1 as int, r.2 as int),
        n == date_index(r.0 as int, r.1 as int, r.2 as int),
{
    let mut y: u32 = 0;
    let mut rem: u64 = n;
    loop
        invariant
            y <= 9999,
            rem == n - days_before_year(y as int),
            n < days_before_year(10000),
        ensures
            y <= 9999,
            rem == n - days_before_year(y as int),
            rem < days_in_year(y as int),
        decreases 10000 - y,
    {
        let len: u64 = if leap_year(y) {
            366
        } else {
            365
        };
        if rem < len {
            break ;
        }
        proof {
            if y == 9999 {
                assert(days_before_year(10000) == days_before_year(9999) + days_in_year(9999));
                assert(false);
            }
        }
        rem = rem - len;
        y = y + 1;
    }
    let mut m: u32 = 1;
    proof {
        lemma_year_days(y as int);
    }
    while rem >= month_length(y, m) as u64
        invariant
            1 <= m <= 12,
            rem == n - days_before_year(y as int) - days_before_month(y as int, m as int),
            n - days_before_year(y as int) < days_in_year(y as int),
            days_before_month(y as int, 13) == days_in_year(y as int),
        decreases 12 - m,
    {
        proof {
            if m == 12 {
                assert(days_before_month(y as int, 13) == days_before_month(y as int, 12)
                    + days_in_month(y as int, 12));
                assert(false);
            }
            lemma_days_before_month_bounds(y as int, m as int);
        }
        rem = rem - month_length(y, m) as u64;
        m = m + 1;
    }
    proof {
        lemma_days_before_month_monotone(m as int, m as int, 13);
        lemma_days_before_month_bounds(y as int, m as int);
    }
    (y, m, rem as u32 + 1)
}

impl Instant {
    /// Construct an instant, checking all fields.
    pub fn checked_new(year: u32, month: u32, day: u32, hour: u32, minute: u32) -> (r: Option<
        Instant,
    >)
        ensures
            r is Some <==> (valid_date(year as int, month as int, day as int) && hour < 24
                && minute < 60),
            r is Some ==> r->0 == (Instant { year, month, day, hour, minute }) && r->0.wf(),
    {
        if year <= 9999 && 1 <= month && month <= 12 && 1 <= day && hour < 24 && minute < 60 {
            if day <= month_length(year, month) {
                return Some(Instant { year, month, day, hour, minute });
            }
        }
        None
    }

    /// Minutes since 0000-01-01 00:00.
    pub fn minute_index_x(&self) -> (r: u64)
        requires
            self.wf(),
        ensures
            r == self.minute_index(),
            r < minute_limit(),
    {
        let days = date_to_days(self.year, self.month, self.day);
        proof {
            lemma_days_before_year_bounds(10000);
        }
        days * 1440 + (self.hour * 60 + self.minute) as u64
    }

    /// The instant `n` minutes after 0000-01-01 00:00.
    pub fn from_minute_index(n: u64) -> (r: Instant)
        requires
            n < minute_limit(),
        ensures
            r.wf(),
            r.minute_index() == n,
    {
        let days = n / 1440;
        let rem = (n % 1440) as u32;
        let (year, month, day) = days_to_date(days);
        Instant { year, month, day, hour: rem / 60, minute: rem % 60 }
    }

}

} // verus!
