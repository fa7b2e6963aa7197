//! Tasks, their times, and the named periods of the day.
use crate::calendar::{ClockTime, Date, DateTime};
use core::cmp::Ordering;
use vstd::prelude::*;

verus! {

/// A named period of the day, or a label of the user's own.
#[derive(Clone, Debug)]
pub enum TimeOfDay {
    Morning,
    Noon,
    AfterNoon,
    Evening,
    Night,
    MidNight,
    Custom(String),
}

/// What a `TimeOfDay` stands for, with a custom label as its characters.
pub enum TimeOfDayView {
    Morning,
    Noon,
    AfterNoon,
    Evening,
    Night,
    MidNight,
    Custom(Seq<char>),
}

/// When a task happens.
#[derive(Clone, Debug)]
#[allow(inconsistent_fields)]
pub enum TaskTime {
    /// A single moment.
    Precise { time: DateTime },
    /// A named period of the day.
    General { time: TimeOfDay },
    /// An explicit range of clock times.
    Period { start: DateTime, end: DateTime },
    /// A range from one named period to another.
    GeneralPeriod { start: TimeOfDay, end: TimeOfDay },
}

pub enum TaskTimeView {
    Precise(DateTime),
    General(TimeOfDayView),
    Period(DateTime, DateTime),
    GeneralPeriod(TimeOfDayView, TimeOfDayView),
}

/// One entry of a schedule.
#[derive(Clone, Debug)]
pub struct Task {
    pub time: TaskTime,
    pub description: String,
    /// Planned and completed pomodoro sessions.
    pub pomodoro: Option<(u8, u8)>,
    pub finished: bool,
}

pub struct TaskView {
    pub time: TaskTimeView,
    pub description: Seq<char>,
    pub pomodoro: Option<(u8, u8)>,
    pub finished: bool,
}

impl View for TimeOfDay {
    type V = TimeOfDayView;

    open spec fn view(&self) -> TimeOfDayView {
        match self {
            TimeOfDay::Morning => TimeOfDayView::Morning,
            TimeOfDay::Noon => TimeOfDayView::Noon,
            TimeOfDay::AfterNoon => TimeOfDayView::AfterNoon,
            TimeOfDay::Evening => TimeOfDayView::Evening,
            TimeOfDay::Night => TimeOfDayView::Night,
            TimeOfDay::MidNight => TimeOfDayView::MidNight,
            TimeOfDay::Custom(s) => TimeOfDayView::Custom(s@),
        }
    }
}

impl View for TaskTime {
    type V = TaskTimeView;

    open spec fn view(&self) -> TaskTimeView {
        match self {
            TaskTime::Precise { time } => TaskTimeView::Precise(*time),
            TaskTime::General { time } => TaskTimeView::General(time@),
            TaskTime::Period { start, end } => TaskTimeView::Period(*start, *end),
            TaskTime::GeneralPeriod { start, end } => TaskTimeView::GeneralPeriod(start@, end@),
        }
    }
}

impl View for Task {
    type V = TaskView;

    open spec fn view(&self) -> TaskView {
        TaskView {
            time: self.time@,
            description: self.description@,
            pomodoro: self.pomodoro,
            finished: self.finished,
        }
    }
}

pub open spec fn morning_word() -> Seq<char> {
    seq!['m', 'o', 'r', 'n', 'i', 'n', 'g']
}

pub open spec fn noon_word() -> Seq<char> {
    seq!['n', 'o', 'o', 'n']
}

pub open spec fn afternoon_word() -> Seq<char> {
    seq!['a', 'f', 't', 'e', 'r', 'n', 'o', 'o', 'n']
}

pub open spec fn evening_word() -> Seq<char> {
    seq!['e', 'v', 'e', 'n', 'i', 'n', 'g']
}

pub open spec fn night_word() -> Seq<char> {
    seq!['n', 'i', 'g', 'h', 't']
}

pub open spec fn midnight_word() -> Seq<char> {
    seq!['m', 'i', 'd', 'n', 'i', 'g', 'h', 't']
}

/// The text that names a period: its lowercase name, or the custom label itself.
pub open spec fn period_name(v: TimeOfDayView) -> Seq<char> {
    match v {
        TimeOfDayView::Morning => morning_word(),
        TimeOfDayView::Noon => noon_word(),
        TimeOfDayView::AfterNoon => afternoon_word(),
        TimeOfDayView::Evening => evening_word(),
        TimeOfDayView::Night => night_word(),
        TimeOfDayView::MidNight => midnight_word(),
        TimeOfDayView::Custom(s) => s,
    }
}

/// `c` is the lowercase ASCII letter `w`, in either case, or `w` itself.
pub open spec fn same_letter(c: char, w: char) -> bool {
    c == w || ('A' <= c && c <= 'Z' && c as u32 + 32 == w as u32)
}

/// `s` spells the lowercase word `w`, ignoring case.
pub open spec fn spells(s: Seq<char>, w: Seq<char>) -> bool {
    s.len() == w.len() && forall|i: int| 0 <= i < s.len() ==> same_letter(#[trigger] s[i], w[i])
}

/// The period that a label names: one of the six, whatever its case, or a
/// custom label holding the text as it was given.
pub open spec fn label_period(s: Seq<char>) -> TimeOfDayView {
    if spells(s, morning_word()) {
        TimeOfDayView::Morning
    } else if spells(s, noon_word()) {
        TimeOfDayView::Noon
    } else if spells(s, afternoon_word()) {
        TimeOfDayView::AfterNoon
    } else if spells(s, evening_word()) {
        TimeOfDayView::Evening
    } else if spells(s, night_word()) {
        TimeOfDayView::Night
    } else if spells(s, midnight_word()) {
        TimeOfDayView::MidNight
    } else {
        TimeOfDayView::Custom(s)
    }
}

pub open spec fn clock(h: u32, m: u32, s: u32) -> ClockTime {
    ClockTime { hour: h, minute: m, second: s }
}

/// The clock times a named period covers: a start, and an end where it is a
/// range rather than a single moment. A custom label covers none.
pub open spec fn period_range(v: TimeOfDayView) -> Option<(ClockTime, Option<ClockTime>)> {
    match v {
        TimeOfDayView::Morning => Some((clock(6, 0, 0), Some(clock(11, 59, 59)))),
        TimeOfDayView::Noon => Some((clock(12, 0, 0), None)),
        TimeOfDayView::AfterNoon => Some((clock(12, 0, 1), Some(clock(17, 0, 0)))),
        TimeOfDayView::Evening => Some((clock(17, 0, 1), Some(clock(20, 0, 0)))),
        TimeOfDayView::Night => Some((clock(20, 0, 1), Some(clock(23, 59, 59)))),
        TimeOfDayView::MidNight => Some((clock(0, 0, 0), None)),
        TimeOfDayView::Custom(_) => None,
    }
}

/// The effective start of a time and its end where it is a range; `None` where
/// a custom label leaves it without a clock time.
pub open spec fn span(t: TaskTimeView) -> Option<(ClockTime, Option<ClockTime>)> {
    match t {
        TaskTimeView::Precise(d) => Some((d.time, None)),
        TaskTimeView::General(p) => period_range(p),
        TaskTimeView::Period(s, e) => Some((s.time, Some(e.time))),
        TaskTimeView::GeneralPeriod(s, e) => match (period_range(s), period_range(e)) {
            (Some((s0, _)), Some((e0, e1))) => Some(
                (
                    s0,
                    Some(
                        match e1 {
                            Some(x) => x,
                            None => e0,
                        },
                    ),
                ),
            ),
            _ => None,
        },
    }
}

pub open spec fn order(a: int, b: int) -> Ordering {
    if a < b {
        Ordering::Less
    } else if a == b {
        Ordering::Equal
    } else {
        Ordering::Greater
    }
}

/// Where a moment `p` falls against the range `[s, e]`.
pub open spec fn against_range(p: int, s: int, e: int) -> Ordering {
    if p < s {
        Ordering::Less
    } else if p <= e {
        Ordering::Equal
    } else {
        Ordering::Greater
    }
}

/// Where the range `[s, e]` falls against a moment `p`.
pub open spec fn range_against(p: int, s: int, e: int) -> Ordering {
    if p < s {
        Ordering::Greater
    } else if p <= e {
        Ordering::Equal
    } else {
        Ordering::Less
    }
}

/// The display order of two task times. A moment inside the other's range,
/// bounds included, is `Equal` to it; two ranges compare by their starts; two
/// moments by their clock times. A custom label leaves them incomparable.
pub open spec fn compare_times(a: TaskTimeView, b: TaskTimeView) -> Option<Ordering> {
    match (span(a), span(b)) {
        (Some((a0, None)), Some((b0, Some(b1)))) => Some(
            against_range(a0.seconds(), b0.seconds(), b1.seconds()),
        ),
        (Some((a0, Some(a1))), Some((b0, None))) => Some(
            range_against(b0.seconds(), a0.seconds(), a1.seconds()),
        ),
        (Some((a0, _)), Some((b0, _))) => Some(order(a0.seconds(), b0.seconds())),
        _ => None,
    }
}

/// The time moved to another day, its clock times kept.
pub open spec fn moved_to(t: TaskTimeView, date: Date) -> TaskTimeView {
    match t {
        TaskTimeView::Precise(d) => TaskTimeView::Precise(DateTime { date, time: d.time }),
        TaskTimeView::Period(s, e) => TaskTimeView::Period(
            DateTime { date, time: s.time },
            DateTime { date, time: e.time },
        ),
        _ => t,
    }
}

fn ordering_of(a: u64, b: u64) -> (r: Ordering)
    ensures
        r == order(a as int, b as int),
{
    if a < b {
        Ordering::Less
    } else if a == b {
        Ordering::Equal
    } else {
        Ordering::Greater
    }
}

fn against(p: u64, s: u64, e: u64) -> (r: Ordering)
    ensures
        r == against_range(p as int, s as int, e as int),
{
    if p < s {
        Ordering::Less
    } else if p <= e {
        Ordering::Equal
    } else {
        Ordering::Greater
    }
}

fn range_vs(p: u64, s: u64, e: u64) -> (r: Ordering)
    ensures
        r == range_against(p as int, s as int, e as int),
{
    if p < s {
        Ordering::Greater
    } else if p <= e {
        Ordering::Equal
    } else {
        Ordering::Less
    }
}

impl TimeOfDay {
    /// The text of this period: its lowercase name, or the custom label.
    pub fn as_str(&self) -> (r: &str)
        ensures
            r@ == period_name(self@),
    {
        proof {
            reveal_strlit("morning");
            reveal_strlit("noon");
            reveal_strlit("afternoon");
            reveal_strlit("evening");
            reveal_strlit("night");
            reveal_strlit("midnight");
        }
        match self {
            TimeOfDay::Morning => {
                assert("morning"@ =~= morning_word());
                "morning"
            },
            TimeOfDay::Noon => {
                assert("noon"@ =~= noon_word());
                "noon"
            },
            TimeOfDay::AfterNoon => {
                assert("afternoon"@ =~= afternoon_word());
                "afternoon"
            },
            TimeOfDay::Evening => {
                assert("evening"@ =~= evening_word());
                "evening"
            },
            TimeOfDay::Night => {
                assert("night"@ =~= night_word());
                "night"
            },
            TimeOfDay::MidNight => {
                assert("midnight"@ =~= midnight_word());
                "midnight"
            },
            TimeOfDay::Custom(s) => s.as_str(),
        }
    }

    /// The clock times this period covers: its start, and its end where it is
    /// a range. `None` for a custom label.
    pub fn to_time(&self) -> (r: Option<(ClockTime, Option<ClockTime>)>)
        ensures
            r == period_range(self@),
    {
        match self {
            TimeOfDay::Morning => Some((
                ClockTime { hour: 6, minute: 0, second: 0 },
                Some(ClockTime { hour: 11, minute: 59, second: 59 }),
            )),
            TimeOfDay::Noon => Some((ClockTime { hour: 12, minute: 0, second: 0 }, None)),
            TimeOfDay::AfterNoon => Some((
                ClockTime { hour: 12, minute: 0, second: 1 },
                Some(ClockTime { hour: 17, minute: 0, second: 0 }),
            )),
            TimeOfDay::Evening => Some((
                ClockTime { hour: 17, minute: 0, second: 1 },
                Some(ClockTime { hour: 20, minute: 0, second: 0 }),
            )),
            TimeOfDay::Night => Some((
                ClockTime { hour: 20, minute: 0, second: 1 },
                Some(ClockTime { hour: 23, minute: 59, second: 59 }),
            )),
            TimeOfDay::MidNight => Some((ClockTime { hour: 0, minute: 0, second: 0 }, None)),
            TimeOfDay::Custom(_) => None,
        }
    }
}

impl TaskTime {
    /// The effective start and optional end of this time.
    pub fn span(&self) -> (r: Option<(ClockTime, Option<ClockTime>)>)
        ensures
            r == span(self@),
    {
        match self {
            TaskTime::Precise { time } => Some((time.time, None)),
            TaskTime::General { time } => time.to_time(),
            TaskTime::Period { start, end } => Some((start.time, Some(end.time))),
            TaskTime::GeneralPeriod { start, end } => match (start.to_time(), end.to_time()) {
                (Some((s0, _)), Some((e0, e1))) => Some(
                    (
                        s0,
                        Some(
                            match e1 {
                                Some(x) => x,
                                None => e0,
                            },
                        ),
                    ),
                ),
                _ => None,
            },
        }
    }

    /// The display order of two task times (see `compare_times`).
    pub fn compare(&self, other: &TaskTime) -> (r: Option<Ordering>)
        ensures
            r == compare_times(self@, other@),
    {
        match (self.span(), other.span()) {
            (Some((a0, None)), Some((b0, Some(b1)))) => Some(
                against(a0.seconds_of_day(), b0.seconds_of_day(), b1.seconds_of_day()),
            ),
            (Some((a0, Some(a1))), Some((b0, None))) => Some(
                range_vs(b0.seconds_of_day(), a0.seconds_of_day(), a1.seconds_of_day()),
            ),
            (Some((a0, _)), Some((b0, _))) => Some(
                ordering_of(a0.seconds_of_day(), b0.seconds_of_day()),
            ),
            _ => None,
        }
    }

    /// Moves a clock time, or a range of them, to another day.
    pub fn change_date(&mut self, date: &Date)
        ensures
            final(self)@ == moved_to(old(self)@, *date),
    {
        match self {
            TaskTime::Period { start, end } => {
                *start = date.and_time(start.time);
                *end = date.and_time(end.time);
            },
            TaskTime::Precise { time } => {
                *time = date.and_time(time.time);
            },
            _ => {},
        }
    }
}

impl PartialEq for TimeOfDay {
    fn eq(&self, other: &TimeOfDay) -> (r: bool) {
        match (self, other) {
            (TimeOfDay::Morning, TimeOfDay::Morning) => true,
            (TimeOfDay::Noon, TimeOfDay::Noon) => true,
            (TimeOfDay::AfterNoon, TimeOfDay::AfterNoon) => true,
            (TimeOfDay::Evening, TimeOfDay::Evening) => true,
            (TimeOfDay::Night, TimeOfDay::Night) => true,
            (TimeOfDay::MidNight, TimeOfDay::MidNight) => true,
            (TimeOfDay::Custom(a), TimeOfDay::Custom(b)) => *a == *b,
            _ => false,
        }
    }
}

impl vstd::std_specs::cmp::PartialEqSpecImpl for TimeOfDay {
    open spec fn obeys_eq_spec() -> bool {
        true
    }

    open spec fn eq_spec(&self, other: &TimeOfDay) -> bool {
        self@ == other@
    }
}

impl Eq for TimeOfDay {

}

impl PartialEq for TaskTime {
    fn eq(&self, other: &TaskTime) -> (r: bool) {
        match (self, other) {
            (TaskTime::Precise { time: a }, TaskTime::Precise { time: b }) => a == b,
            (TaskTime::General { time: a }, TaskTime::General { time: b }) => a == b,
            (TaskTime::Period { start: a, end: b }, TaskTime::Period { start: c, end: d }) => a == c
                && b == d,
            (
                TaskTime::GeneralPeriod { start: a, end: b },
                TaskTime::GeneralPeriod { start: c, end: d },
            ) => a == c && b == d,
            _ => false,
        }
    }
}

impl vstd::std_specs::cmp::PartialEqSpecImpl for TaskTime {
    open spec fn obeys_eq_spec() -> bool {
        true
    }

    open spec fn eq_spec(&self, other: &TaskTime) -> bool {
        self@ == other@
    }
}

impl Eq for TaskTime {

}

} // verus!
