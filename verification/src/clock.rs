//! Calendar dates, minute-precision timestamps, and the 05:00 broadcast-day
//! rule.
//!
//! The listings provider runs its programming day from 05:00 to 05:00, so
//! before 05:00 local time the "broadcast date" is still the previous
//! calendar day. Timestamps travel as twelve-digit `YYYYMMDDHHMM` text;
//! here they are held as plain fields, and `moment_code` restores the
//! numeric form whose ordering is chronological.
use vstd::prelude::*;

verus! {

/// A calendar date.
#[derive(Clone, Copy, Debug, PartialEq, Eq, Structural)]
pub struct CalDate {
    pub year: u64,
    pub month: u64,
    pub day: u64,
}

/// A timestamp with minute precision.
#[derive(Clone, Copy, Debug, PartialEq, Eq, Structural)]
pub struct Moment {
    pub year: u64,
    pub month: u64,
    pub day: u64,
    pub hour: u64,
    pub minute: u64,
}

/// Gregorian leap-year rule.
pub open spec fn is_leap_year(y: u64) -> bool {
    y % 4 == 0 && (y % 100 != 0 || y % 400 == 0)
}

/// Number of days in the given month of the given year.
pub open spec fn days_in_month(y: u64, m: u64) -> u64 {
    if m == 2 {
        if is_leap_year(y) {
            29
        } else {
            28
        }
    } else if m == 4 || m == 6 || m == 9 || m == 11 {
        30
    } else {
        31
    }
}

/// A date is valid when the month exists and the day exists in that month.
/// The year stays positive so that stepping one day back is always defined.
pub open spec fn valid_date(d: CalDate) -> bool {
    &&& 1 <= d.year
    &&& 1 <= d.month <= 12
    &&& 1 <= d.day <= days_in_month(d.year, d.month)
}

/// A moment is valid when its date is and hour and minute are in range.
pub open spec fn valid_moment(m: Moment) -> bool {
    &&& valid_date(date_of(m))
    &&& m.hour <= 23
    &&& m.minute <= 59
}

/// The calendar date of a moment.
pub open spec fn date_of(m: Moment) -> CalDate {
    CalDate { year: m.year, month: m.month, day: m.day }
}

/// The numeric `YYYYMMDD` form of a date; on valid dates its ordering is
/// chronological.
pub open spec fn date_code(d: CalDate) -> u64
    recommends
        d.year <= 99_9999,
{
    (d.year * 10000 + d.month * 100 + d.day) as u64
}

/// The numeric `YYYYMMDDHHMM` form of a moment; on valid moments its
/// ordering is chronological.
pub open spec fn moment_code(m: Moment) -> u64
    recommends
        m.year <= 99_9999,
{
    (m.year * 100_000_000 + m.month * 1_000_000 + m.day * 10_000 + m.hour * 100 + m.minute) as u64
}

/// The numeric `YYYYMMDDHH` prefix of a moment, used to group listing lines
/// under one hour header.
pub open spec fn hour_code(m: Moment) -> u64
    recommends
        m.year <= 99_9999,
{
    (m.year * 1_000_000 + m.month * 10_000 + m.day * 100 + m.hour) as u64
}

/// Exec mirror of `is_leap_year`.
pub fn leap_year(y: u64) -> (r: bool)
    ensures
        r == is_leap_year(y),
{
    y % 4 == 0 && (y % 100 != 0 || y % 400 == 0)
}

/// Exec mirror of `days_in_month`.
pub fn month_days(y: u64, m: u64) -> (r: u64)
    ensures
        r == days_in_month(y, m),
{
    if m == 2 {
        if leap_year(y) {
            29
        } else {
            28
        }
    } else if m == 4 || m == 6 || m == 9 || m == 11 {
        30
    } else {
        31
    }
}

/// Exec mirror of `valid_moment`.
pub fn moment_valid(m: &Moment) -> (r: bool)
    ensures
        r == valid_moment(*m),
{
    1 <= m.year && 1 <= m.month && m.month <= 12 && 1 <= m.day && m.day <= month_days(
        m.year,
        m.month,
    ) && m.hour <= 23 && m.minute <= 59
}

/// Exec mirror of `moment_code`.
pub fn code_of_moment(m: &Moment) -> (r: u64)
    requires
        m.year <= 99_9999,
        valid_moment(*m),
    ensures
        r == moment_code(*m),
{
    m.year * 100_000_000 + m.month * 1_000_000 + m.day * 10_000 + m.hour * 100 + m.minute
}

/// Exec mirror of `date_code`.
pub fn code_of_date(d: &CalDate) -> (r: u64)
    requires
        d.year <= 99_9999,
        valid_date(*d),
    ensures
        r == date_code(*d),
{
    d.year * 10000 + d.month * 100 + d.day
}

/// Exec mirror of `hour_code`.
pub fn code_of_hour(m: &Moment) -> (r: u64)
    requires
        m.year <= 99_9999,
        valid_moment(*m),
    ensures
        r == hour_code(*m),
{
    m.year * 1_000_000 + m.month * 10_000 + m.day * 100 + m.hour
}

/// The same moment with the minute zeroed: the start of its hour.
pub open spec fn hour_floor(m: Moment) -> Moment {
    Moment { minute: 0, ..m }
}

/// Exec mirror of `hour_floor`.
pub fn floor_to_hour(m: &Moment) -> (r: Moment)
    requires
        valid_moment(*m),
    ensures
        r == hour_floor(*m),
        valid_moment(r),
{
    Moment { year: m.year, month: m.month, day: m.day, hour: m.hour, minute: 0 }
}

/// On valid moments, comparing codes is comparing timestamps
/// field-by-field in calendar order.
pub proof fn lemma_moment_code_order(a: Moment, b: Moment)
    requires
        valid_moment(a),
        valid_moment(b),
        a.year <= 99_9999,
        b.year <= 99_9999,
    ensures
        moment_code(a) == moment_code(b) <==> a == b,
        moment_code(a) < moment_code(b) <==> (a.year < b.year || (a.year == b.year && (a.month
            < b.month || (a.month == b.month && (a.day < b.day || (a.day == b.day && (a.hour
            < b.hour || (a.hour == b.hour && a.minute < b.minute)))))))),
{
}

/// The calendar day before `d`.
pub open spec fn prev_date(d: CalDate) -> CalDate
    recommends
        valid_date(d),
{
    if d.day > 1 {
        CalDate { year: d.year, month: d.month, day: (d.day - 1) as u64 }
    } else if d.month > 1 {
        CalDate {
            year: d.year,
            month: (d.month - 1) as u64,
            day: days_in_month(d.year, (d.month - 1) as u64),
        }
    } else {
        CalDate { year: (d.year - 1) as u64, month: 12, day: 31 }
    }
}

/// The calendar day after `d`.
pub open spec fn next_date(d: CalDate) -> CalDate
    recommends
        valid_date(d),
{
    if d.day < days_in_month(d.year, d.month) {
        CalDate { year: d.year, month: d.month, day: (d.day + 1) as u64 }
    } else if d.month < 12 {
        CalDate { year: d.year, month: (d.month + 1) as u64, day: 1 }
    } else {
        CalDate { year: (d.year + 1) as u64, month: 1, day: 1 }
    }
}

/// Stepping a day back or forward keeps the date valid (as long as the year
/// stays positive), and moves the year by at most one.
pub proof fn lemma_date_step_valid(d: CalDate)
    requires
        valid_date(d),
        d.year < u64::MAX,
    ensures
        d.year >= 2 || d.month >= 2 || d.day >= 2 ==> valid_date(prev_date(d)),
        valid_date(next_date(d)),
        next_date(d).year <= d.year + 1,
        prev_date(d).year + 1 >= d.year,
{
}

/// Exec mirror of `prev_date`.
pub fn date_before(d: &CalDate) -> (r: CalDate)
    requires
        valid_date(*d),
    ensures
        r == prev_date(*d),
{
    if d.day > 1 {
        CalDate { year: d.year, month: d.month, day: d.day - 1 }
    } else if d.month > 1 {
        CalDate { year: d.year, month: d.month - 1, day: month_days(d.year, d.month - 1) }
    } else {
        CalDate { year: d.year - 1, month: 12, day: 31 }
    }
}

/// Exec mirror of `next_date`.
pub fn date_after(d: &CalDate) -> (r: CalDate)
    requires
        valid_date(*d),
        d.year < u64::MAX,
    ensures
        r == next_date(*d),
{
    if d.day < month_days(d.year, d.month) {
        CalDate { year: d.year, month: d.month, day: d.day + 1 }
    } else if d.month < 12 {
        CalDate { year: d.year, month: d.month + 1, day: 1 }
    } else {
        CalDate { year: d.year + 1, month: 1, day: 1 }
    }
}

/// The broadcast date of a moment: before 05:00 the provider's programming
/// day is still the previous calendar day.
pub open spec fn spec_broadcast_date(m: Moment) -> CalDate
    recommends
        valid_moment(m),
{
    if m.hour < 5 {
        prev_date(date_of(m))
    } else {
        date_of(m)
    }
}

/// Computes the broadcast date for fetching: the calendar date of `m`,
/// except that before 05:00 it is the previous calendar day.
pub fn broadcast_date(m: &Moment) -> (r: CalDate)
    requires
        valid_moment(*m),
        2 <= m.year < u64::MAX,
    ensures
        r == spec_broadcast_date(*m),
        valid_date(r),
{
    proof {
        lemma_date_step_valid(date_of(*m));
    }
    if m.hour < 5 {
        date_before(&CalDate { year: m.year, month: m.month, day: m.day })
    } else {
        CalDate { year: m.year, month: m.month, day: m.day }
    }
}

/// The moment one hour later, rolling over days, months and years.
pub open spec fn next_hour(m: Moment) -> Moment
    recommends
        valid_moment(m),
{
    if m.hour < 23 {
        Moment { hour: (m.hour + 1) as u64, ..m }
    } else {
        let d = next_date(date_of(m));
        Moment { year: d.year, month: d.month, day: d.day, hour: 0, minute: m.minute }
    }
}

/// One hour later the moment is still valid and the year grew by at most
/// one.
pub proof fn lemma_next_hour_valid(m: Moment)
    requires
        valid_moment(m),
        m.year < u64::MAX,
    ensures
        valid_moment(next_hour(m)),
        next_hour(m).year <= m.year + 1,
        next_hour(m).minute == m.minute,
{
    lemma_date_step_valid(date_of(m));
}

/// The moment `h` hours after `m`.
pub open spec fn spec_add_hours(m: Moment, h: u64) -> Moment
    recommends
        valid_moment(m),
    decreases h,
{
    if h == 0 {
        m
    } else {
        spec_add_hours(next_hour(m), (h - 1) as u64)
    }
}

/// Adding hours keeps the moment valid, keeps the minute, and grows the
/// year by at most one per hour added.
pub proof fn lemma_add_hours_valid(m: Moment, h: u64)
    requires
        valid_moment(m),
        m.year + h < u64::MAX,
    ensures
        valid_moment(spec_add_hours(m, h)),
        m.year <= spec_add_hours(m, h).year <= m.year + h,
        spec_add_hours(m, h).minute == m.minute,
    decreases h,
{
    if h > 0 {
        lemma_next_hour_valid(m);
        lemma_add_hours_valid(next_hour(m), (h - 1) as u64);
    }
}

/// Adding one more hour is taking the next hour of the sum.
pub proof fn lemma_add_hours_snoc(m: Moment, k: u64)
    requires
        valid_moment(m),
        m.year + k + 1 < u64::MAX,
    ensures
        spec_add_hours(m, (k + 1) as u64) == next_hour(spec_add_hours(m, k)),
    decreases k,
{
    lemma_next_hour_valid(m);
    if k == 0 {
        assert(spec_add_hours(m, 1) == spec_add_hours(next_hour(m), 0));
        assert(spec_add_hours(next_hour(m), 0) == next_hour(m));
        assert(spec_add_hours(m, 0) == m);
    } else {
        lemma_add_hours_snoc(next_hour(m), (k - 1) as u64);
        assert(spec_add_hours(m, (k + 1) as u64) == spec_add_hours(next_hour(m), k));
        assert(spec_add_hours(m, k) == spec_add_hours(next_hour(m), (k - 1) as u64));
    }
}

/// Exec mirror of `next_hour`.
pub fn hour_after(m: &Moment) -> (r: Moment)
    requires
        valid_moment(*m),
        m.year < u64::MAX,
    ensures
        r == next_hour(*m),
{
    if m.hour < 23 {
        Moment { year: m.year, month: m.month, day: m.day, hour: m.hour + 1, minute: m.minute }
    } else {
        let d = date_after(&CalDate { year: m.year, month: m.month, day: m.day });
        Moment { year: d.year, month: d.month, day: d.day, hour: 0, minute: m.minute }
    }
}

/// Computes the moment `h` hours after `m`, rolling over day boundaries.
pub fn add_hours(m: &Moment, h: u64) -> (r: Moment)
    requires
        valid_moment(*m),
        m.year <= 99_9999,
        h <= 10_0000,
    ensures
        r == spec_add_hours(*m, h),
        valid_moment(r),
        m.year <= r.year <= m.year + h,
{
    let mut cur: Moment = *m;
    let mut i: u64 = 0;
    while i < h
        invariant
            0 <= i <= h,
            valid_moment(cur),
            m.year <= cur.year <= m.year + i,
            m.year <= 99_9999,
            h <= 10_0000,
            spec_add_hours(*m, h) == spec_add_hours(cur, (h - i) as u64),
        decreases h - i,
    {
        proof {
            lemma_next_hour_valid(cur);
        }
        cur = hour_after(&cur);
        i = i + 1;
    }
    cur
}

/// Whether the display window `[m, m + h hours]` runs into the next
/// broadcast day, so that a second day's listings are needed.
pub open spec fn spec_needs_next_day(m: Moment, h: u64) -> bool
    recommends
        valid_moment(m),
{
    spec_broadcast_date(spec_add_hours(m, h)) != spec_broadcast_date(m)
}

/// Decides whether the window of `h` hours from `m` crosses the next 05:00
/// cutover, i.e. whether the end of the window falls on a different
/// broadcast date than its start.
pub fn needs_next_day(m: &Moment, h: u64) -> (r: bool)
    requires
        valid_moment(*m),
        2 <= m.year <= 99_9999,
        h <= 10_0000,
    ensures
        r == spec_needs_next_day(*m, h),
{
    let end = add_hours(m, h);
    proof {
        lemma_add_hours_valid(*m, h);
    }
    let a = broadcast_date(&end);
    let b = broadcast_date(m);
    !(a.year == b.year && a.month == b.month && a.day == b.day)
}

} // verus!
