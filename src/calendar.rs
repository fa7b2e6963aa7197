//! Calendar dates and wall-clock times as plain values.
use chrono::{Datelike, Timelike};
use vstd::prelude::*;

verus! {

/// The first year that a calendar date may carry.
pub const MIN_YEAR: i32 = -262143;

/// The last year that a calendar date may carry.
pub const MAX_YEAR: i32 = 262142;

/// A day of the proleptic Gregorian calendar, in the local zone.
#[derive(Clone, Copy, Debug, PartialEq, Eq, Structural)]
pub struct Date {
    pub year: i32,
    pub month: u32,
    pub day: u32,
}

/// A time of day: hour, minute and second.
#[derive(Clone, Copy, Debug, PartialEq, Eq, Structural)]
pub struct ClockTime {
    pub hour: u32,
    pub minute: u32,
    pub second: u32,
}

/// A local wall-clock moment: a day and a time on it.
#[derive(Clone, Copy, Debug, PartialEq, Eq, Structural)]
pub struct DateTime {
    pub date: Date,
    pub time: ClockTime,
}

pub open spec fn is_leap_year(y: int) -> bool {
    y % 4 == 0 && (y % 100 != 0 || y % 400 == 0)
}

pub open spec fn days_in_month(y: int, m: int) -> int {
    if m == 2 {
        if is_leap_year(y) {
            29
        } else {
            28
        }
    } else if m == 4 || m == 6 || m == 9 || m == 11 {
        30
    } else {
        31
    }
}

/// Whether year, month and day name a day that exists.
pub open spec fn is_calendar_date(y: int, m: int, d: int) -> bool {
    &&& MIN_YEAR <= y <= MAX_YEAR
    &&& 1 <= m <= 12
    &&& 1 <= d <= days_in_month(y, m)
}

/// Whether hour, minute and second name a time of day.
pub open spec fn is_clock_time(h: int, m: int, s: int) -> bool {
    0 <= h < 24 && 0 <= m < 60 && 0 <= s < 60
}

/// Relies on chrono's `NaiveDate::from_ymd_opt`: `None` exactly when the day
/// does not exist or the year is outside chrono's range, else the same fields.
#[verifier::external_body]
fn chrono_ymd(year: i32, month: u32, day: u32) -> (r: Option<(i32, u32, u32)>)
    ensures
        r == (if is_calendar_date(year as int, month as int, day as int) {
            Some((year, month, day))
        } else {
            None
        }),
{
    chrono::NaiveDate::from_ymd_opt(year, month, day).map(|d| (d.year(), d.month(), d.day()))
}

/// Relies on chrono's `NaiveTime::from_hms_opt`: `None` exactly when the hour,
/// minute or second is out of range, else the same fields.
#[verifier::external_body]
fn chrono_hms(hour: u32, minute: u32, second: u32) -> (r: Option<(u32, u32, u32)>)
    ensures
        r == (if is_clock_time(hour as int, minute as int, second as int) {
            Some((hour, minute, second))
        } else {
            None
        }),
{
    chrono::NaiveTime::from_hms_opt(hour, minute, second).map(|t| (t.hour(), t.minute(), t.second()))
}

/// The day after a valid day, where there is one.
pub open spec fn next_day(y: int, m: int, d: int) -> Option<(int, int, int)> {
    if d < days_in_month(y, m) {
        Some((y, m, d + 1))
    } else if m < 12 {
        Some((y, m + 1, 1))
    } else if y < MAX_YEAR {
        Some((y + 1, 1, 1))
    } else {
        None
    }
}

/// Relies on chrono's `NaiveDate::succ_opt`: the next calendar day, `None`
/// after the last day chrono represents. The day is built with
/// `NaiveDate::from_ymd_opt`, which succeeds on the days that `requires` admits.
#[verifier::external_body]
fn chrono_succ(year: i32, month: u32, day: u32) -> (r: Option<(i32, u32, u32)>)
    requires
        is_calendar_date(year as int, month as int, day as int),
    ensures
        match next_day(year as int, month as int, day as int) {
            Some((y, m, d)) => r == Some((y as i32, m as u32, d as u32)),
            None => r is None,
        },
{
    chrono::NaiveDate::from_ymd_opt(year, month, day).and_then(|d| d.succ_opt()).map(
        |d| (d.year(), d.month(), d.day()),
    )
}

pub open spec fn date_of(f: (int, int, int)) -> Date {
    Date { year: f.0 as i32, month: f.1 as u32, day: f.2 as u32 }
}

/// `n` consecutive days from `d`, fewer where the calendar ends first.
pub open spec fn days_from(d: Date, n: nat) -> Seq<Date>
    decreases n,
{
    if n == 0 {
        seq![]
    } else {
        seq![d] + match next_day(d.year as int, d.month as int, d.day as int) {
            Some(f) => days_from(date_of(f), (n - 1) as nat),
            None => seq![],
        }
    }
}

proof fn lemma_next_day_wf(d: Date)
    requires
        d.wf(),
    ensures
        next_day(d.year as int, d.month as int, d.day as int) matches Some(f) ==> date_of(f).wf(),
{
}

fn month_length(year: i32, month: u32) -> (r: u32)
    requires
        1 <= month <= 12,
    ensures
        r == days_in_month(year as int, month as int),
{
    if month == 2 {
        if year % 4 == 0 && (year % 100 != 0 || year % 400 == 0) {
            29
        } else {
            28
        }
    } else if month == 4 || month == 6 || month == 9 || month == 11 {
        30
    } else {
        31
    }
}

impl Date {
    pub open spec fn wf(self) -> bool {
        is_calendar_date(self.year as int, self.month as int, self.day as int)
    }

    /// The day with these fields, where it exists.
    pub fn from_ymd(year: i32, month: u32, day: u32) -> (r: Option<Date>)
        ensures
            r == (if is_calendar_date(year as int, month as int, day as int) {
                Some(Date { year, month, day })
            } else {
                None
            }),
    {
        match chrono_ymd(year, month, day) {
            Some((y, m, d)) => Some(Date { year: y, month: m, day: d }),
            None => None,
        }
    }

    /// The next day, where the calendar has one.
    pub fn succ(&self) -> (r: Option<Date>)
        requires
            self.wf(),
        ensures
            match next_day(self.year as int, self.month as int, self.day as int) {
                Some((y, m, d)) => r == Some(Date { year: y as i32, month: m as u32, day: d as u32 }),
                None => r is None,
            },
    {
        match chrono_succ(self.year, self.month, self.day) {
            Some((y, m, d)) => Some(Date { year: y, month: m, day: d }),
            None => None,
        }
    }

    /// `n` consecutive days from this one, fewer where the calendar ends first.
    pub fn days(&self, n: u32) -> (r: Vec<Date>)
        requires
            self.wf(),
        ensures
            r@ == days_from(*self, n as nat),
    {
        let mut r: Vec<Date> = Vec::new();
        let mut cur = *self;
        let mut left = n;
        while left > 0
            invariant
                cur.wf(),
                r@ + days_from(cur, left as nat) == days_from(*self, n as nat),
            decreases left,
        {
            let ghost before = r@;
            r.push(cur);
            proof {
                lemma_next_day_wf(cur);
            }
            match cur.succ() {
                Some(next) => {
                    assert(before + days_from(cur, left as nat) =~= r@ + days_from(
                        next,
                        (left - 1) as nat,
                    ));
                    cur = next;
                    left = left - 1;
                },
                None => {
                    assert(before + days_from(cur, left as nat) =~= r@);
                    return r;
                },
            }
        }
        assert(r@ + days_from(cur, 0) =~= r@);
        r
    }

    /// The same day of the next month, or that month's last day where it is
    /// shorter.
    pub fn month_later(&self) -> (r: Date)
        requires
            self.wf(),
            self.year < MAX_YEAR,
        ensures
            r.wf(),
            r.month == (if self.month == 12 { 1 } else { self.month + 1 }),
            r.year == (if self.month == 12 { self.year + 1 } else { self.year as int }),
            r.day == (if self.day <= days_in_month(r.year as int, r.month as int) {
                self.day as int
            } else {
                days_in_month(r.year as int, r.month as int)
            }),
    {
        let (y, m) = if self.month == 12 {
            (self.year + 1, 1)
        } else {
            (self.year, self.month + 1)
        };
        let n = month_length(y, m);
        let d = if self.day <= n {
            self.day
        } else {
            n
        };
        Date { year: y, month: m, day: d }
    }

    /// This day at the given time.
    pub fn and_time(&self, time: ClockTime) -> (r: DateTime)
        ensures
            r == (DateTime { date: *self, time }),
    {
        DateTime { date: *self, time }
    }
}

impl ClockTime {
    pub open spec fn wf(self) -> bool {
        is_clock_time(self.hour as int, self.minute as int, self.second as int)
    }

    /// Seconds since midnight.
    pub open spec fn seconds(self) -> int {
        self.hour * 3600 + self.minute * 60 + self.second
    }

    /// The time with these fields, where it is one.
    pub fn from_hms(hour: u32, minute: u32, second: u32) -> (r: Option<ClockTime>)
        ensures
            r == (if is_clock_time(hour as int, minute as int, second as int) {
                Some(ClockTime { hour, minute, second })
            } else {
                None
            }),
    {
        match chrono_hms(hour, minute, second) {
            Some((h, m, s)) => Some(ClockTime { hour: h, minute: m, second: s }),
            None => None,
        }
    }

    /// Seconds since midnight, as the comparator uses them.
    pub fn seconds_of_day(&self) -> (r: u64)
        ensures
            r == self.seconds(),
    {
        self.hour as u64 * 3600 + self.minute as u64 * 60 + self.second as u64
    }
}

} // verus!
