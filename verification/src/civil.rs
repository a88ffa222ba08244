use vstd::prelude::*;

verus! {

/// Largest year a calendar value may carry; matches the range of years the
/// platform's date library can hand back for the current day.
pub const MAX_CIVIL_YEAR: u32 = 262142;

/// Gregorian leap-year rule.
pub open spec fn is_leap_year(y: int) -> bool {
    (y % 4 == 0 && y % 100 != 0) || y % 400 == 0
}

pub open spec fn days_in_year(y: int) -> int {
    if is_leap_year(y) {
        366
    } else {
        365
    }
}

pub open spec fn days_in_month(y: int, m: int) -> int {
    if m == 2 {
        if is_leap_year(y) {
            29
        } else {
            28
        }
    } else if m == 4 || m == 6 || m == 9 || m == 11 {
        30
    } else {
        31
    }
}

/// Days in all years of the proleptic Gregorian calendar before year `y`,
/// counted from year 0.
pub open spec fn days_before_year(y: int) -> int
    decreases y,
{
    if y <= 0 {
        0
    } else {
        days_before_year(y - 1) + days_in_year(y - 1)
    }
}

/// Days in the months of year `y` that precede month `m`.
pub open spec fn days_before_month(y: int, m: int) -> int
    decreases m,
{
    if m <= 1 {
        0
    } else {
        days_before_month(y, m - 1) + days_in_month(y, m - 1)
    }
}

/// Days from 1970-01-01 to the given calendar day (negative before 1970).
pub open spec fn epoch_days(y: int, m: int, d: int) -> int {
    days_before_year(y) + days_before_month(y, m) + (d - 1) - days_before_year(1970)
}

/// Seconds from 1970-01-01 00:00:00 to the given calendar instant, the
/// calendar day and time of day read without any time-zone offset.
pub open spec fn epoch_seconds(y: int, m: int, d: int, h: int, mi: int, s: int) -> int {
    epoch_days(y, m, d) * 86400 + h * 3600 + mi * 60 + s
}

/// A calendar date at whole-day granularity.
#[derive(Clone, Copy, Debug, PartialEq, Eq, Structural)]
pub struct CivilDate {
    pub year: u32,
    pub month: u32,
    pub day: u32,
}

impl CivilDate {
    pub open spec fn valid(self) -> bool {
        self.year <= MAX_CIVIL_YEAR && 1 <= self.month <= 12 && 1 <= self.day && self.day
            <= days_in_month(self.year as int, self.month as int)
    }
}

/// A calendar date together with a time of day, at second granularity.
#[derive(Clone, Copy, Debug, PartialEq, Eq, Structural)]
pub struct CivilDateTime {
    pub date: CivilDate,
    pub hour: u32,
    pub minute: u32,
    pub second: u32,
}

impl CivilDateTime {
    pub open spec fn valid(self) -> bool {
        self.date.valid() && self.hour <= 23 && self.minute <= 59 && self.second <= 59
    }

    /// The instant this value denotes when its fields are read without any
    /// time-zone offset.
    pub open spec fn spec_epoch_seconds(self) -> int {
        epoch_seconds(
            self.date.year as int,
            self.date.month as int,
            self.date.day as int,
            self.hour as int,
            self.minute as int,
            self.second as int,
        )
    }
}

pub fn is_leap_year_exec(y: u32) -> (b: bool)
    ensures
        b == is_leap_year(y as int),
{
    (y % 4 == 0 && y % 100 != 0) || y % 400 == 0
}

pub fn days_in_month_exec(y: u32, m: u32) -> (d: u32)
    ensures
        d == days_in_month(y as int, m as int),
{
    if m == 2 {
        if is_leap_year_exec(y) {
            29
        } else {
            28
        }
    } else if m == 4 || m == 6 || m == 9 || m == 11 {
        30
    } else {
        31
    }
}

/// The day count of every year is between 365 and 366, so the total before
/// year `y` is bounded by 366 days a year.
pub proof fn lemma_days_before_year_bound(y: int)
    requires
        y >= 0,
    ensures
        0 <= days_before_year(y) <= 366 * y,
    decreases y,
{
    if y > 0 {
        lemma_days_before_year_bound(y - 1);
    }
}

fn days_before_year_exec(y: u32) -> (r: i64)
    requires
        y <= MAX_CIVIL_YEAR,
    ensures
        r == days_before_year(y as int),
{
    proof {
        lemma_days_before_year_bound(y as int);
    }
    let mut acc: i64 = 0;
    let mut yi: u32 = 0;
    while yi < y
        invariant
            yi <= y <= MAX_CIVIL_YEAR,
            acc == days_before_year(yi as int),
            0 <= acc <= 366 * yi,
        decreases y - yi,
    {
        proof {
            lemma_days_before_year_bound(yi as int);
        }
        let step: i64 = if is_leap_year_exec(yi) {
            366
        } else {
            365
        };
        acc = acc + step;
        yi = yi + 1;
    }
    acc
}

fn days_before_month_exec(y: u32, m: u32) -> (r: i64)
    requires
        1 <= m <= 12,
    ensures
        r == days_before_month(y as int, m as int),
        0 <= r <= 366,
{
    let mut acc: i64 = 0;
    let mut mi: u32 = 1;
    while mi < m
        invariant
            1 <= mi <= m <= 12,
            acc == days_before_month(y as int, mi as int),
            0 <= acc <= 31 * (mi - 1),
        decreases m - mi,
    {
        acc = acc + days_in_month_exec(y, mi) as i64;
        mi = mi + 1;
    }
    acc
}

/// Seconds since the Unix epoch of a calendar instant, the fields read
/// without any time-zone offset.
pub fn epoch_seconds_exec(dt: &CivilDateTime) -> (r: i64)
    requires
        dt.valid(),
    ensures
        r == dt.spec_epoch_seconds(),
{
    proof {
        lemma_days_before_year_bound(dt.date.year as int);
        lemma_days_before_year_bound(1970);
    }
    let by: i64 = days_before_year_exec(dt.date.year);
    let bm: i64 = days_before_month_exec(dt.date.year, dt.date.month);
    let epoch: i64 = days_before_year_exec(1970);
    let days: i64 = by + bm + dt.date.day as i64 - 1 - epoch;
    days * 86400 + dt.hour as i64 * 3600 + dt.minute as i64 * 60 + dt.second as i64
}

} // verus!
