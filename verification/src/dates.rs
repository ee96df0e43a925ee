//! Civil (proleptic Gregorian) dates as plain values, with the day-number
//! arithmetic the rendering window needs: weekday computation, day-by-day
//! stepping, and the Monday-to-Friday work-day window.
use vstd::prelude::*;
use vstd::arithmetic::div_mod::lemma_mod_multiples_vanish;

verus! {

/// A civil calendar date. Valid dates (see [`Date::wf`]) start at year 1.
#[derive(Clone, Copy, PartialEq, Eq, Structural, Debug)]
pub struct Date {
    pub year: i32,
    pub month: u8,
    pub day: u8,
}

/// A civil date together with a wall-clock time, as read in some time zone.
#[derive(Clone, Copy, PartialEq, Eq, Structural, Debug)]
pub struct LocalDateTime {
    pub date: Date,
    pub hour: u8,
    pub minute: u8,
}

pub open spec fn is_leap_year(y: int) -> bool {
    (y % 4 == 0 && y % 100 != 0) || y % 400 == 0
}

pub open spec fn days_in_month(y: int, m: int) -> int {
    if m == 2 {
        if is_leap_year(y) {
            29
        } else {
            28
        }
    } else if m == 4 || m == 6 || m == 9 || m == 11 {
        30
    } else {
        31
    }
}

impl Date {
    pub open spec fn wf(self) -> bool {
        &&& 1 <= self.year
        &&& 1 <= self.month <= 12
        &&& 1 <= self.day <= days_in_month(self.year as int, self.month as int)
    }
}

impl LocalDateTime {
    pub open spec fn wf(self) -> bool {
        &&& self.date.wf()
        &&& self.hour < 24
        &&& self.minute < 60
    }
}

/// Days since 1970-01-01 of a civil date, following the standard
/// era/year-of-era decomposition of the Gregorian calendar.
pub open spec fn day_number(d: Date) -> int {
    let m = d.month as int;
    let y = if m <= 2 {
        d.year as int - 1
    } else {
        d.year as int
    };
    let era = y / 400;
    let yoe = y - era * 400;
    let mp = (m + 9) % 12;
    let doy = (153 * mp + 2) / 5 + d.day as int - 1;
    let doe = yoe * 365 + yoe / 4 - yoe / 100 + doy;
    era * 146097 + doe - 719468
}

/// Weekday of a day number: 0 is Monday, ..., 6 is Sunday.
pub open spec fn weekday_of_day_number(z: int) -> int {
    (z + 3) % 7
}

pub open spec fn weekday(d: Date) -> int {
    weekday_of_day_number(day_number(d))
}

pub open spec fn is_weekend(d: Date) -> bool {
    weekday(d) >= 5
}

pub exec fn exec_is_leap_year(year: i32) -> (r: bool)
    requires
        year >= 1,
    ensures
        r == is_leap_year(year as int),
{
    let y: u64 = year as u64;
    (y % 4 == 0 && y % 100 != 0) || y % 400 == 0
}

pub exec fn exec_days_in_month(year: i32, month: u8) -> (r: u8)
    requires
        year >= 1,
    ensures
        r as int == days_in_month(year as int, month as int),
{
    if month == 2 {
        if exec_is_leap_year(year) {
            29
        } else {
            28
        }
    } else if month == 4 || month == 6 || month == 9 || month == 11 {
        30
    } else {
        31
    }
}

/// Range of day numbers over all well-formed dates; used for overflow
/// reasoning in the executable date arithmetic.
pub proof fn lemma_day_number_bounds(d: Date)
    requires
        d.wf(),
    ensures
        -719469 < day_number(d) < 800_000_000_000,
{
    let m = d.month as int;
    let y = if m <= 2 {
        d.year as int - 1
    } else {
        d.year as int
    };
    assert(0 <= y <= 2147483647);
    let era = y / 400;
    let yoe = y - era * 400;
    assert(0 <= era <= 5368709 && era * 400 <= y && yoe < 400) by (nonlinear_arith)
        requires
            era == y / 400,
            yoe == y - era * 400,
            0 <= y <= 2147483647,
    ;
    assert(era * 146097 <= 5368709int * 146097) by (nonlinear_arith)
        requires 0 <= era <= 5368709,
    ;
    let mp = (m + 9) % 12;
    assert(0 <= mp < 12);
    assert(0 <= (153 * mp + 2) / 5 <= 340);
    assert(0 <= yoe / 4 <= 99);
    assert(0 <= yoe / 100 <= 3);
    assert(yoe * 365 <= 399int * 365) by (nonlinear_arith)
        requires 0 <= yoe <= 399,
    ;
    assert(yoe / 100 <= yoe * 365) by (nonlinear_arith)
        requires 0 <= yoe,
    ;
}

pub exec fn exec_day_number(d: &Date) -> (r: i64)
    requires
        d.wf(),
    ensures
        r as int == day_number(*d),
{
    let m: u64 = d.month as u64;
    let y: u64 = if m <= 2 {
        (d.year - 1) as u64
    } else {
        d.year as u64
    };
    proof {
        assert(0 <= y as int / 400 <= 5368709 && (y as int / 400) * 400 <= y as int
            && y as int - (y as int / 400) * 400 < 400) by (nonlinear_arith)
            requires 0 <= y as int <= 2147483647,
        ;
    }
    let era: u64 = y / 400;
    let yoe: u64 = y - era * 400;
    let mp: u64 = (m + 9) % 12;
    let doy: u64 = (153 * mp + 2) / 5 + d.day as u64 - 1;
    proof {
        assert(yoe * 365 <= 399int * 365) by (nonlinear_arith)
            requires 0 <= yoe as int <= 399,
        ;
        assert(yoe as int / 100 <= yoe as int * 365) by (nonlinear_arith)
            requires 0 <= yoe as int,
        ;
    }
    let doe: u64 = yoe * 365 + yoe / 4 - yoe / 100 + doy;
    proof {
        assert(era * 146097 <= 5368709int * 146097) by (nonlinear_arith)
            requires 0 <= era as int <= 5368709,
        ;
    }
    let big: u64 = era * 146097 + doe;
    (big as i64) - 719468
}

pub exec fn exec_weekday(d: &Date) -> (r: u8)
    requires
        d.wf(),
    ensures
        r as int == weekday(*d),
        r < 7,
{
    let z: i64 = exec_day_number(d);
    proof {
        lemma_day_number_bounds(*d);
    }
    let shifted: u64 = (z + 719467) as u64;
    let r: u64 = (shifted + 3) % 7;
    proof {
        // 719467 is a multiple of 7, so the shift leaves the weekday alone.
        lemma_mod_multiples_vanish(102781, z as int + 3, 7);
        assert(7 * 102781 + (z as int + 3) == shifted as int + 3);
    }
    r as u8
}

pub exec fn exec_is_weekend(d: &Date) -> (r: bool)
    requires
        d.wf(),
    ensures
        r == is_weekend(*d),
{
    exec_weekday(d) >= 5
}

/// The day after `d`, rolling over month and year ends.
pub open spec fn spec_next_day(d: Date) -> Date {
    if (d.day as int) < days_in_month(d.year as int, d.month as int) {
        Date { year: d.year, month: d.month, day: (d.day + 1) as u8 }
    } else if d.month < 12 {
        Date { year: d.year, month: (d.month + 1) as u8, day: 1 }
    } else {
        Date { year: (d.year + 1) as i32, month: 1, day: 1 }
    }
}

pub exec fn next_day(d: &Date) -> (r: Date)
    requires
        d.wf(),
        d.year < i32::MAX,
    ensures
        r == spec_next_day(*d),
        r.wf(),
        r.year <= d.year + 1,
{
    let dim: u8 = exec_days_in_month(d.year, d.month);
    if d.day < dim {
        Date { year: d.year, month: d.month, day: d.day + 1 }
    } else if d.month < 12 {
        Date { year: d.year, month: d.month + 1, day: 1 }
    } else {
        Date { year: d.year + 1, month: 1, day: 1 }
    }
}

/// `n` applications of [`spec_next_day`].
pub open spec fn spec_add_days(d: Date, n: int) -> Date
    decreases n,
{
    if n <= 0 {
        d
    } else {
        spec_add_days(spec_next_day(d), n - 1)
    }
}

pub proof fn lemma_add_days_unfold_right(d: Date, n: int)
    requires
        1 <= n,
    ensures
        spec_add_days(d, n) == spec_next_day(spec_add_days(d, n - 1)),
    decreases n,
{
    if n == 1 {
        assert(spec_add_days(d, 1) == spec_add_days(spec_next_day(d), 0));
        assert(spec_add_days(d, 0) == d);
    } else {
        lemma_add_days_unfold_right(spec_next_day(d), n - 1);
        assert(spec_add_days(d, n) == spec_add_days(spec_next_day(d), n - 1));
        assert(spec_add_days(d, n - 1) == spec_add_days(spec_next_day(d), n - 2));
    }
}

// --- the Monday-to-Friday work-day window -----------------------------------

pub open spec fn is_workday_day_number(z: int) -> bool {
    weekday_of_day_number(z) <= 4
}

/// First work day at or after day number `z`.
pub open spec fn next_workday_at_or_after(z: int) -> int {
    if is_workday_day_number(z) {
        z
    } else {
        z + (7 - weekday_of_day_number(z))
    }
}

/// Day number reached after advancing over `m` further work days, one day at
/// a time, counting each work day met.
pub open spec fn advance_workdays(z: int, m: int) -> int
    decreases m,
{
    if m <= 0 {
        z
    } else {
        advance_workdays(next_workday_at_or_after(z + 1), m - 1)
    }
}

/// Day number of the end of a window of `n` work days starting at `z`:
/// `z` itself counts as the first work day when it falls on one.
pub open spec fn work_end_dn(z: int, n: int) -> int {
    if n <= 0 {
        z
    } else {
        advance_workdays(z, if is_workday_day_number(z) { n - 1 } else { n })
    }
}

pub proof fn lemma_advance_workdays_bounds(z: int, m: int)
    requires
        0 <= m,
    ensures
        z + m <= advance_workdays(z, m) <= z + 3 * m,
    decreases m,
{
    if m > 0 {
        let z1 = next_workday_at_or_after(z + 1);
        assert(z + 1 <= z1 <= z + 3);
        lemma_advance_workdays_bounds(z1, m - 1);
    }
}

pub proof fn lemma_work_end_bounds(z: int, n: int)
    requires
        0 <= n,
    ensures
        z <= work_end_dn(z, n) <= z + 3 * n,
{
    if n > 0 {
        if is_workday_day_number(z) {
            lemma_advance_workdays_bounds(z, n - 1);
        } else {
            lemma_advance_workdays_bounds(z, n);
        }
    }
}

} // verus!
