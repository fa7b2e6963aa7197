//! Reading the schedule format: clock times, task times, task lines and the
//! date header.
use crate::calendar::{is_calendar_date, is_clock_time, ClockTime, Date, DateTime};
use crate::error::{ParseStage, TimaruError};
use crate::task::{
    afternoon_word, evening_word, label_period, midnight_word, morning_word, night_word, noon_word,
    same_letter, spells, Task, TaskTime, TaskTimeView, TaskView, TimeOfDay,
};
use crate::text::{
    chars_of, digit_run, digits_value, find_char, first_index, is_space, number_at, skip_spaces,
    skip_spaces_at, string_of, trim, trim_at,
};
use vstd::prelude::*;

verus! {

/// Whether `r` is the outcome `s` describes: the value with that view, or a
/// parse error at that stage.
pub open spec fn outcome<T: View>(r: Result<T, TimaruError>, s: Result<T::V, ParseStage>) -> bool {
    match (r, s) {
        (Ok(x), Ok(v)) => x@ == v,
        (Err(TimaruError::Parse(e)), Err(st)) => e == st,
        _ => false,
    }
}

/// The run of digits that starts `s`, where it is there and its value is at
/// most `limit`: that value and what follows.
pub open spec fn number(s: Seq<char>, limit: nat) -> Option<(nat, Seq<char>)> {
    let n = digit_run(s);
    if n == 0 || digits_value(s.take(n as int)) > limit {
        None
    } else {
        Some((digits_value(s.take(n as int)), s.skip(n as int)))
    }
}

/// The fields of `H`, `H:M` or `H:M:S`, each an unsigned 32-bit decimal;
/// the missing ones are zero.
pub open spec fn clock_fields(s: Seq<char>) -> Option<(nat, nat, nat)> {
    match number(s, u32::MAX as nat) {
        None => None,
        Some((h, r1)) => if r1.len() == 0 {
            Some((h, 0nat, 0nat))
        } else if r1[0] != ':' {
            None
        } else {
            match number(r1.drop_first(), u32::MAX as nat) {
                None => None,
                Some((m, r2)) => if r2.len() == 0 {
                    Some((h, m, 0nat))
                } else if r2[0] != ':' {
                    None
                } else {
                    match number(r2.drop_first(), u32::MAX as nat) {
                        Some((sec, r3)) => if r3.len() == 0 {
                            Some((h, m, sec))
                        } else {
                            None
                        },
                        None => None,
                    }
                },
            }
        },
    }
}

pub open spec fn clock_in_range(f: (nat, nat, nat)) -> bool {
    is_clock_time(f.0 as int, f.1 as int, f.2 as int)
}

pub open spec fn moment(date: Date, f: (nat, nat, nat)) -> DateTime {
    DateTime { date, time: ClockTime { hour: f.0 as u32, minute: f.1 as u32, second: f.2 as u32 } }
}

/// A clock time on `date`; malformed text and out-of-range fields are both errors.
pub open spec fn clock_time(s: Seq<char>, date: Date) -> Result<DateTime, ParseStage> {
    match clock_fields(s) {
        Some(f) => if clock_in_range(f) {
            Ok(moment(date, f))
        } else {
            Err(ParseStage::Time)
        },
        None => Err(ParseStage::Time),
    }
}

/// The task time that a time field writes. One segment is a clock time or a
/// label; two segments, split at `-`, are a clock range when both are clock
/// times and a range of labels otherwise. A single segment, or a pair of them,
/// in the shape of clock times with a field out of range is refused; so are
/// more than two segments.
pub open spec fn task_time(t: Seq<char>, date: Date) -> Result<TaskTimeView, ParseStage> {
    let p = first_index(t, '-');
    if p == t.len() {
        let seg = trim(t);
        match clock_fields(seg) {
            Some(f) => if clock_in_range(f) {
                Ok(TaskTimeView::Precise(moment(date, f)))
            } else {
                Err(ParseStage::Time)
            },
            None => Ok(TaskTimeView::General(label_period(seg))),
        }
    } else {
        let rest = t.skip((p + 1) as int);
        if first_index(rest, '-') < rest.len() {
            Err(ParseStage::TaskTime)
        } else {
            let a = trim(t.take(p as int));
            let b = trim(rest);
            match (clock_fields(a), clock_fields(b)) {
                (Some(fa), Some(fb)) => if clock_in_range(fa) && clock_in_range(fb) {
                    Ok(TaskTimeView::Period(moment(date, fa), moment(date, fb)))
                } else {
                    Err(ParseStage::Time)
                },
                _ => Ok(TaskTimeView::GeneralPeriod(label_period(a), label_period(b))),
            }
        }
    }
}

/// Where the time field ends: at the first `(` or `=>`, else at the end.
pub open spec fn field_end(s: Seq<char>) -> nat
    decreases s.len(),
{
    if s.len() == 0 {
        0
    } else if s[0] == '(' || (s[0] == '=' && s.len() > 1 && s[1] == '>') {
        0
    } else {
        1 + field_end(s.drop_first())
    }
}

pub open spec fn starts_with_arrow(s: Seq<char>) -> bool {
    s.len() >= 2 && s[0] == '=' && s[1] == '>'
}

/// What follows the `(` of the counters: `planned , done ) =>` with optional
/// spaces between, each count at most 255. The counters, and the description.
pub open spec fn pomodoro_tail(s: Seq<char>) -> Option<((u8, u8), Seq<char>)> {
    match number(skip_spaces(s), 255) {
        None => None,
        Some((planned, r1)) => {
            let b = skip_spaces(r1);
            if !(b.len() > 0 && b[0] == ',') {
                None
            } else {
                match number(skip_spaces(b.drop_first()), 255) {
                    None => None,
                    Some((done, r2)) => {
                        let d = skip_spaces(r2);
                        if !(d.len() > 0 && d[0] == ')') {
                            None
                        } else {
                            let e = skip_spaces(d.drop_first());
                            if !starts_with_arrow(e) {
                                None
                            } else {
                                Some(((planned as u8, done as u8), skip_spaces(e.skip(2))))
                            }
                        }
                    },
                }
            }
        },
    }
}

/// A task line: `marker [status] time (planned, done) => description`, where
/// the marker is `-` or `*`, the status `X` for finished or blank, and the
/// counters optional.
pub open spec fn task_line(l: Seq<char>, date: Date) -> Result<TaskView, ParseStage> {
    let a = skip_spaces(l);
    if !(a.len() > 0 && (a[0] == '-' || a[0] == '*')) {
        Err(ParseStage::StartOfTask)
    } else {
        let b = skip_spaces(a.drop_first());
        if !(b.len() > 0 && b[0] == '[') {
            Err(ParseStage::StartOfTask)
        } else {
            let c = b.drop_first();
            let finished = c.len() > 0 && c[0] == 'X';
            let d = if finished {
                c.drop_first()
            } else {
                skip_spaces(c)
            };
            if !(d.len() > 0 && d[0] == ']') {
                Err(ParseStage::Finished)
            } else {
                let e = d.drop_first();
                if !(e.len() > 0 && is_space(e[0])) {
                    Err(ParseStage::TaskTime)
                } else {
                    let f = skip_spaces(e);
                    let k = field_end(f);
                    if k == f.len() {
                        Err(ParseStage::TaskTime)
                    } else {
                        match task_time(f.take(k as int), date) {
                            Err(st) => Err(st),
                            Ok(time) => {
                                let g = f.skip(k as int);
                                if g[0] == '(' {
                                    match pomodoro_tail(g.drop_first()) {
                                        None => Err(ParseStage::Pomodoro),
                                        Some((counts, desc)) => Ok(
                                            TaskView {
                                                time,
                                                description: desc,
                                                pomodoro: Some(counts),
                                                finished,
                                            },
                                        ),
                                    }
                                } else {
                                    Ok(
                                        TaskView {
                                            time,
                                            description: skip_spaces(g.skip(2)),
                                            pomodoro: None,
                                            finished,
                                        },
                                    )
                                }
                            },
                        }
                    }
                }
            }
        }
    }
}

/// The leading run of digits of `l[pos..end]`, where its value is at most
/// `limit`: the value, and where the run ends.
pub(crate) fn number_in(l: &Vec<char>, pos: usize, end: usize, limit: u64) -> (r: Option<(u64, usize)>)
    requires
        pos <= end <= l@.len(),
        limit <= u32::MAX,
    ensures
        match r {
            Some((v, e)) => pos <= e <= end && number(
                l@.subrange(pos as int, end as int),
                limit as nat,
            ) == Some((v as nat, l@.subrange(e as int, end as int))),
            None => number(l@.subrange(pos as int, end as int), limit as nat) is None,
        },
{
    let ghost s = l@.subrange(pos as int, end as int);
    let (e, v) = number_at(l, pos, end, limit);
    let ghost n = digit_run(s);
    assert(s.take(n as int) =~= l@.subrange(pos as int, e as int));
    assert(s.skip(n as int) =~= l@.subrange(e as int, end as int));
    if e == pos {
        None
    } else {
        match v {
            Some(v) => Some((v, e)),
            None => None,
        }
    }
}

/// The fields of the clock time `l[lo..hi]`.
fn clock_fields_in(l: &Vec<char>, lo: usize, hi: usize) -> (r: Option<(u32, u32, u32)>)
    requires
        lo <= hi <= l@.len(),
    ensures
        match r {
            Some((h, m, s)) => clock_fields(l@.subrange(lo as int, hi as int)) == Some(
                (h as nat, m as nat, s as nat),
            ),
            None => clock_fields(l@.subrange(lo as int, hi as int)) is None,
        },
{
    let ghost s = l@.subrange(lo as int, hi as int);
    match number_in(l, lo, hi, 0xffff_ffff) {
        None => None,
        Some((h, e1)) => {
            let ghost r1 = l@.subrange(e1 as int, hi as int);
            if e1 == hi {
                Some((h as u32, 0, 0))
            } else if l[e1] != ':' {
                None
            } else {
                assert(r1.drop_first() =~= l@.subrange(e1 + 1, hi as int));
                match number_in(l, e1 + 1, hi, 0xffff_ffff) {
                    None => None,
                    Some((m, e2)) => {
                        let ghost r2 = l@.subrange(e2 as int, hi as int);
                        if e2 == hi {
                            Some((h as u32, m as u32, 0))
                        } else if l[e2] != ':' {
                            None
                        } else {
                            assert(r2.drop_first() =~= l@.subrange(e2 + 1, hi as int));
                            match number_in(l, e2 + 1, hi, 0xffff_ffff) {
                                None => None,
                                Some((sec, e3)) => if e3 == hi {
                                    Some((h as u32, m as u32, sec as u32))
                                } else {
                                    None
                                },
                            }
                        }
                    },
                }
            }
        },
    }
}

/// `l[lo..hi]` spells the lowercase word `w`, ignoring case.
fn spells_in(l: &Vec<char>, lo: usize, hi: usize, w: &str) -> (r: bool)
    requires
        lo <= hi <= l@.len(),
    ensures
        r == spells(l@.subrange(lo as int, hi as int), w@),
{
    let n = w.unicode_len();
    if hi - lo != n {
        return false;
    }
    let mut i: usize = 0;
    while i < n
        invariant
            n == w@.len(),
            lo <= hi <= l@.len(),
            hi - lo == n,
            i <= n,
            forall|j: int| 0 <= j < i ==> same_letter(#[trigger] l@[lo + j], w@[j]),
        decreases n - i,
    {
        let c = l[lo + i];
        let d = w.get_char(i);
        if !(c == d || ('A' <= c && c <= 'Z' && c as u32 + 32 == d as u32)) {
            assert(!same_letter(l@.subrange(lo as int, hi as int)[i as int], w@[i as int]));
            return false;
        }
        i = i + 1;
    }
    assert forall|j: int| 0 <= j < n implies same_letter(
        #[trigger] l@.subrange(lo as int, hi as int)[j],
        w@[j],
    ) by {
        assert(l@.subrange(lo as int, hi as int)[j] == l@[lo + j]);
    }
    true
}

/// The period that the label `l[lo..hi]` names.
fn label_in(l: &Vec<char>, lo: usize, hi: usize) -> (r: TimeOfDay)
    requires
        lo <= hi <= l@.len(),
    ensures
        r@ == label_period(l@.subrange(lo as int, hi as int)),
{
    proof {
        reveal_strlit("morning");
        reveal_strlit("noon");
        reveal_strlit("afternoon");
        reveal_strlit("evening");
        reveal_strlit("night");
        reveal_strlit("midnight");
        assert("morning"@ =~= morning_word());
        assert("noon"@ =~= noon_word());
        assert("afternoon"@ =~= afternoon_word());
        assert("evening"@ =~= evening_word());
        assert("night"@ =~= night_word());
        assert("midnight"@ =~= midnight_word());
    }
    if spells_in(l, lo, hi, "morning") {
        TimeOfDay::Morning
    } else if spells_in(l, lo, hi, "noon") {
        TimeOfDay::Noon
    } else if spells_in(l, lo, hi, "afternoon") {
        TimeOfDay::AfterNoon
    } else if spells_in(l, lo, hi, "evening") {
        TimeOfDay::Evening
    } else if spells_in(l, lo, hi, "night") {
        TimeOfDay::Night
    } else if spells_in(l, lo, hi, "midnight") {
        TimeOfDay::MidNight
    } else {
        TimeOfDay::Custom(string_of(l, lo, hi))
    }
}

fn moment_of(date: &Date, f: (u32, u32, u32)) -> (r: Option<DateTime>)
    ensures
        r == (if clock_in_range((f.0 as nat, f.1 as nat, f.2 as nat)) {
            Some(moment(*date, (f.0 as nat, f.1 as nat, f.2 as nat)))
        } else {
            None
        }),
{
    match ClockTime::from_hms(f.0, f.1, f.2) {
        Some(t) => Some(date.and_time(t)),
        None => None,
    }
}

impl TimeOfDay {
    /// The period a label names: one of the six names in any case, or else a
    /// custom label holding the text unchanged. Never fails.
    pub fn from_label(input: &str) -> (r: TimeOfDay)
        ensures
            r@ == label_period(input@),
    {
        let l = chars_of(input);
        assert(l@.subrange(0, l@.len() as int) =~= l@);
        label_in(&l, 0, l.len())
    }
}

/// A clock time `H`, `H:M` or `H:M:S` on `date`.
pub fn parse_time(input: &str, date: &Date) -> (r: Result<DateTime, TimaruError>)
    ensures
        match r {
            Ok(t) => clock_time(input@, *date) == Ok::<DateTime, ParseStage>(t),
            Err(e) => e == TimaruError::Parse(ParseStage::Time) && clock_time(input@, *date) is Err,
        },
{
    let l = chars_of(input);
    assert(l@.subrange(0, l@.len() as int) =~= l@);
    match clock_fields_in(&l, 0, l.len()) {
        Some(f) => match moment_of(date, f) {
            Some(t) => Ok(t),
            None => Err(TimaruError::Parse(ParseStage::Time)),
        },
        None => Err(TimaruError::Parse(ParseStage::Time)),
    }
}

/// The task time written in `l[lo..hi]`.
fn task_time_in(l: &Vec<char>, lo: usize, hi: usize, date: &Date) -> (r: Result<
    TaskTime,
    TimaruError,
>)
    requires
        lo <= hi <= l@.len(),
    ensures
        outcome(r, task_time(l@.subrange(lo as int, hi as int), *date)),
{
    let ghost t = l@.subrange(lo as int, hi as int);
    let p = find_char(l, lo, hi, '-');
    if p == hi {
        let (a, b) = trim_at(l, lo, hi);
        match clock_fields_in(l, a, b) {
            Some(f) => match moment_of(date, f) {
                Some(time) => Ok(TaskTime::Precise { time }),
                None => Err(TimaruError::Parse(ParseStage::Time)),
            },
            None => Ok(TaskTime::General { time: label_in(l, a, b) }),
        }
    } else {
        assert(t.skip(p - lo + 1) =~= l@.subrange(p + 1, hi as int));
        assert(t.take(p - lo) =~= l@.subrange(lo as int, p as int));
        let q = find_char(l, p + 1, hi, '-');
        if q < hi {
            return Err(TimaruError::Parse(ParseStage::TaskTime));
        }
        let (a1, b1) = trim_at(l, lo, p);
        let (a2, b2) = trim_at(l, p + 1, hi);
        let f1 = clock_fields_in(l, a1, b1);
        let f2 = clock_fields_in(l, a2, b2);
        match (f1, f2) {
            (Some(g1), Some(g2)) => match (moment_of(date, g1), moment_of(date, g2)) {
                (Some(start), Some(end)) => Ok(TaskTime::Period { start, end }),
                _ => Err(TimaruError::Parse(ParseStage::Time)),
            },
            _ => Ok(
                TaskTime::GeneralPeriod { start: label_in(l, a1, b1), end: label_in(l, a2, b2) },
            ),
        }
    }
}

impl TaskTime {
    /// Reads a task time on `date`: a clock time `H[:M[:S]]`, a label, or two
    /// of either joined by `-`.
    pub fn from_str(input: &str, date: &Date) -> (r: Result<TaskTime, TimaruError>)
        ensures
            outcome(r, task_time(input@, *date)),
    {
        let l = chars_of(input);
        assert(l@.subrange(0, l@.len() as int) =~= l@);
        task_time_in(&l, 0, l.len(), date)
    }
}

/// Where the time field that starts at `pos` ends: at the first `(` or `=>`
/// before `end`, or at `end`.
fn field_end_in(l: &Vec<char>, pos: usize, end: usize) -> (r: usize)
    requires
        pos <= end <= l@.len(),
    ensures
        r == pos + field_end(l@.subrange(pos as int, end as int)),
        r <= end,
        r < end ==> l@[r as int] == '(' || (l@[r as int] == '=' && r + 1 < end && l@[r + 1]
            == '>'),
{
    let mut i = pos;
    while i < end && !(l[i] == '(' || (l[i] == '=' && i + 1 < end && l[i + 1] == '>'))
        invariant
            pos <= i <= end <= l@.len(),
            field_end(l@.subrange(pos as int, end as int)) == (i - pos) + field_end(
                l@.subrange(i as int, end as int),
            ),
        decreases end - i,
    {
        assert(l@.subrange(i as int, end as int).drop_first() =~= l@.subrange(i + 1, end as int));
        i = i + 1;
    }
    i
}

/// The counters after a `(` at `pos`, and where the description starts.
fn pomodoro_in(l: &Vec<char>, pos: usize, end: usize) -> (r: Option<((u8, u8), usize)>)
    requires
        pos <= end <= l@.len(),
    ensures
        match r {
            Some((c, e)) => e <= end && pomodoro_tail(l@.subrange(pos as int, end as int)) == Some(
                (c, l@.subrange(e as int, end as int)),
            ),
            None => pomodoro_tail(l@.subrange(pos as int, end as int)) is None,
        },
{
    let at0 = skip_spaces_at(l, pos, end);
    let (planned, at1) = match number_in(l, at0, end, 255) {
        Some(x) => x,
        None => {
            return None;
        },
    };
    let at2 = skip_spaces_at(l, at1, end);
    if !(at2 < end && l[at2] == ',') {
        return None;
    }
    assert(l@.subrange(at2 as int, end as int).drop_first() =~= l@.subrange(at2 + 1, end as int));
    let at3 = skip_spaces_at(l, at2 + 1, end);
    let (done, at4) = match number_in(l, at3, end, 255) {
        Some(x) => x,
        None => {
            return None;
        },
    };
    let at5 = skip_spaces_at(l, at4, end);
    if !(at5 < end && l[at5] == ')') {
        return None;
    }
    assert(l@.subrange(at5 as int, end as int).drop_first() =~= l@.subrange(at5 + 1, end as int));
    let at6 = skip_spaces_at(l, at5 + 1, end);
    if !(at6 < end && l[at6] == '=' && at6 + 1 < end && l[at6 + 1] == '>') {
        return None;
    }
    assert(l@.subrange(at6 as int, end as int).skip(2) =~= l@.subrange(at6 + 2, end as int));
    let at7 = skip_spaces_at(l, at6 + 2, end);
    Some(((planned as u8, done as u8), at7))
}

/// The task written on the line `l[lo..hi]`.
#[verifier::rlimit(40)]
pub(crate) fn task_in(l: &Vec<char>, lo: usize, hi: usize, date: &Date) -> (r: Result<Task, TimaruError>)
    requires
        lo <= hi <= l@.len(),
    ensures
        outcome(r, task_line(l@.subrange(lo as int, hi as int), *date)),
{
    let at0 = skip_spaces_at(l, lo, hi);
    if !(at0 < hi && (l[at0] == '-' || l[at0] == '*')) {
        return Err(TimaruError::Parse(ParseStage::StartOfTask));
    }
    assert(l@.subrange(at0 as int, hi as int).drop_first() =~= l@.subrange(at0 + 1, hi as int));
    let at1 = skip_spaces_at(l, at0 + 1, hi);
    if !(at1 < hi && l[at1] == '[') {
        return Err(TimaruError::Parse(ParseStage::StartOfTask));
    }
    let at2 = at1 + 1;
    assert(l@.subrange(at1 as int, hi as int).drop_first() =~= l@.subrange(at2 as int, hi as int));
    let finished = at2 < hi && l[at2] == 'X';
    let at3 = if finished {
        assert(l@.subrange(at2 as int, hi as int).drop_first() =~= l@.subrange(
            at2 + 1,
            hi as int,
        ));
        at2 + 1
    } else {
        skip_spaces_at(l, at2, hi)
    };
    if !(at3 < hi && l[at3] == ']') {
        return Err(TimaruError::Parse(ParseStage::Finished));
    }
    let at4 = at3 + 1;
    assert(l@.subrange(at3 as int, hi as int).drop_first() =~= l@.subrange(at4 as int, hi as int));
    if !(at4 < hi && (l[at4] == ' ' || l[at4] == '\t')) {
        return Err(TimaruError::Parse(ParseStage::TaskTime));
    }
    let at5 = skip_spaces_at(l, at4, hi);
    let k = field_end_in(l, at5, hi);
    if k == hi {
        return Err(TimaruError::Parse(ParseStage::TaskTime));
    }
    let ghost f = l@.subrange(at5 as int, hi as int);
    assert(f.take(k - at5) =~= l@.subrange(at5 as int, k as int));
    assert(f.skip(k - at5) =~= l@.subrange(k as int, hi as int));
    let time = match task_time_in(l, at5, k, date) {
        Ok(t) => t,
        Err(e) => {
            return Err(e);
        },
    };
    if l[k] == '(' {
        assert(l@.subrange(k as int, hi as int).drop_first() =~= l@.subrange(k + 1, hi as int));
        match pomodoro_in(l, k + 1, hi) {
            None => Err(TimaruError::Parse(ParseStage::Pomodoro)),
            Some((counts, pd)) => Ok(
                Task { time, description: string_of(l, pd, hi), pomodoro: Some(counts), finished },
            ),
        }
    } else {
        assert(l@.subrange(k as int, hi as int).skip(2) =~= l@.subrange(k + 2, hi as int));
        let pd = skip_spaces_at(l, k + 2, hi);
        Ok(Task { time, description: string_of(l, pd, hi), pomodoro: None, finished })
    }
}

impl Task {
    /// Reads one task line, with `date` as the day of its clock times.
    pub fn from_str(input: &str, date: &Date) -> (r: Result<Task, TimaruError>)
        ensures
            outcome(r, task_line(input@, *date)),
    {
        let l = chars_of(input);
        assert(l@.subrange(0, l@.len() as int) =~= l@);
        task_in(&l, 0, l.len(), date)
    }
}

/// `day-month-year` after optional spaces: day and month unsigned 32-bit,
/// the year a non-negative 32-bit signed number. What follows is not read.
pub open spec fn ymd_fields(s: Seq<char>) -> Option<(nat, nat, nat)> {
    match number(skip_spaces(s), u32::MAX as nat) {
        None => None,
        Some((d, r1)) => if !(r1.len() > 0 && r1[0] == '-') {
            None
        } else {
            match number(r1.drop_first(), u32::MAX as nat) {
                None => None,
                Some((m, r2)) => if !(r2.len() > 0 && r2[0] == '-') {
                    None
                } else {
                    match number(r2.drop_first(), i32::MAX as nat) {
                        None => None,
                        Some((y, _)) => Some((d, m, y)),
                    }
                },
            }
        },
    }
}

/// Reads `day-month-year`, as a date argument is written.
pub fn get_ymd(input: &str) -> (r: Option<(u32, u32, i32)>)
    ensures
        match ymd_fields(input@) {
            Some((d, m, y)) => r == Some((d as u32, m as u32, y as i32)),
            None => r is None,
        },
{
    let l = chars_of(input);
    let n = l.len();
    assert(l@.subrange(0, n as int) =~= l@);
    let at0 = skip_spaces_at(&l, 0, n);
    let (d, at1) = match number_in(&l, at0, n, 0xffff_ffff) {
        Some(x) => x,
        None => {
            return None;
        },
    };
    if !(at1 < n && l[at1] == '-') {
        return None;
    }
    assert(l@.subrange(at1 as int, n as int).drop_first() =~= l@.subrange(at1 + 1, n as int));
    let (m, at2) = match number_in(&l, at1 + 1, n, 0xffff_ffff) {
        Some(x) => x,
        None => {
            return None;
        },
    };
    if !(at2 < n && l[at2] == '-') {
        return None;
    }
    assert(l@.subrange(at2 as int, n as int).drop_first() =~= l@.subrange(at2 + 1, n as int));
    match number_in(&l, at2 + 1, n, 0x7fff_ffff) {
        Some((y, _)) => Some((d as u32, m as u32, y as i32)),
        None => None,
    }
}

/// Reads a date argument `day-month-year`; an impossible day is an error.
pub fn get_date(input: &str) -> (r: Result<Date, TimaruError>)
    ensures
        match ymd_fields(input@) {
            Some((d, m, y)) => if is_calendar_date(y as int, m as int, d as int) {
                r == Ok::<Date, TimaruError>(Date { year: y as i32, month: m as u32, day: d as u32 })
            } else {
                r matches Err(TimaruError::Parse(ParseStage::Date))
            },
            None => r matches Err(TimaruError::Parse(ParseStage::Date)),
        },
{
    match get_ymd(input) {
        Some((d, m, y)) => match Date::from_ymd(y, m, d) {
            Some(date) => Ok(date),
            None => Err(TimaruError::Parse(ParseStage::Date)),
        },
        None => Err(TimaruError::Parse(ParseStage::Date)),
    }
}

} // verus!
