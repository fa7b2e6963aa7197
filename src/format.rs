//! Writing schedules back in their canonical text form.
use crate::calendar::{ClockTime, Date};
use crate::schedule::{Schedule, ScheduleView, entries_view};
use crate::task::{period_name, Task, TaskTime, TaskTimeView, TaskView, TimeOfDay};
use crate::text::{dec, dec2, push_char, push_dec, push_dec2, push_signed_dec, signed_dec};
use vstd::prelude::*;

verus! {

/// `H:MM`: the hour as it is, the minutes with two digits.
pub open spec fn clock_text(c: ClockTime) -> Seq<char> {
    dec(c.hour as nat) + seq![':'] + dec2(c.minute as nat)
}

pub open spec fn time_text(t: TaskTimeView) -> Seq<char> {
    match t {
        TaskTimeView::Precise(d) => clock_text(d.time),
        TaskTimeView::General(p) => period_name(p),
        TaskTimeView::Period(s, e) => clock_text(s.time) + seq![' ', '-', ' '] + clock_text(e.time),
        TaskTimeView::GeneralPeriod(s, e) => period_name(s) + seq![' ', '-', ' '] + period_name(e),
    }
}

/// `(planned, done) ` where there are counters, else nothing.
pub open spec fn pomodoro_text(p: Option<(u8, u8)>) -> Seq<char> {
    match p {
        Some((planned, done)) => seq!['('] + dec(planned as nat) + seq![',', ' '] + dec(done as nat)
            + seq![')', ' '],
        None => seq![],
    }
}

/// `* [X] time (planned, done) => description`, with a blank status for an
/// unfinished task.
pub open spec fn task_text(t: TaskView) -> Seq<char> {
    seq!['*', ' ', '[', if t.finished {
        'X'
    } else {
        ' '
    }, ']', ' '] + time_text(t.time) + seq![' '] + pomodoro_text(t.pomodoro) + seq!['=', '>', ' ']
        + t.description
}

/// `# day-month-year` and a line feed.
pub open spec fn header_text(d: Date) -> Seq<char> {
    seq!['#', ' '] + dec(d.day as nat) + seq!['-'] + dec(d.month as nat) + seq!['-'] + signed_dec(
        d.year as int,
    ) + seq!['\n']
}

/// Each task's line and a line feed, in order.
pub open spec fn tasks_text(ts: Seq<(u8, TaskView)>) -> Seq<char>
    decreases ts.len(),
{
    if ts.len() == 0 {
        seq![]
    } else {
        task_text(ts[0].1) + seq!['\n'] + tasks_text(ts.drop_first())
    }
}

/// Each task's line after its index in parentheses, and a line feed.
pub open spec fn indexed_tasks_text(ts: Seq<(u8, TaskView)>) -> Seq<char>
    decreases ts.len(),
{
    if ts.len() == 0 {
        seq![]
    } else {
        indexed_tasks_text(ts.drop_last()) + seq!['('] + dec(ts.last().0 as nat) + seq![')', ' ']
            + task_text(ts.last().1) + seq!['\n']
    }
}

pub open spec fn schedule_string(v: ScheduleView) -> Seq<char> {
    header_text(v.date) + tasks_text(v.tasks)
}

pub proof fn lemma_tasks_text_push(ts: Seq<(u8, TaskView)>, x: (u8, TaskView))
    ensures
        tasks_text(ts.push(x)) == tasks_text(ts) + task_text(x.1) + seq!['\n'],
    decreases ts.len(),
{
    if ts.len() == 0 {
        assert(ts.push(x).drop_first() =~= Seq::<(u8, TaskView)>::empty());
        assert(tasks_text(Seq::<(u8, TaskView)>::empty()) == Seq::<char>::empty());
        assert(ts.push(x)[0] == x);
        assert(tasks_text(ts) == Seq::<char>::empty());
        assert(tasks_text(ts.push(x)) =~= tasks_text(ts) + task_text(x.1) + seq!['\n']);
    } else {
        assert(ts.push(x).drop_first() =~= ts.drop_first().push(x));
        lemma_tasks_text_push(ts.drop_first(), x);
        assert(tasks_text(ts.push(x)) =~= tasks_text(ts) + task_text(x.1) + seq!['\n']);
    }
}

fn push_clock(out: &mut String, c: &ClockTime)
    ensures
        final(out)@ == old(out)@ + clock_text(*c),
{
    push_dec(out, c.hour as u64);
    push_char(out, ':');
    push_dec2(out, c.minute as u64);
    assert(final(out)@ =~= old(out)@ + clock_text(*c));
}

fn push_period(out: &mut String, p: &TimeOfDay)
    ensures
        final(out)@ == old(out)@ + period_name(p@),
{
    out.append(p.as_str());
}

fn push_dash(out: &mut String)
    ensures
        final(out)@ == old(out)@ + seq![' ', '-', ' '],
{
    push_char(out, ' ');
    push_char(out, '-');
    push_char(out, ' ');
    assert(final(out)@ =~= old(out)@ + seq![' ', '-', ' ']);
}

fn push_time(out: &mut String, t: &TaskTime)
    ensures
        final(out)@ == old(out)@ + time_text(t@),
{
    match t {
        TaskTime::Precise { time } => push_clock(out, &time.time),
        TaskTime::General { time } => push_period(out, time),
        TaskTime::Period { start, end } => {
            push_clock(out, &start.time);
            push_dash(out);
            push_clock(out, &end.time);
            assert(final(out)@ =~= old(out)@ + time_text(t@));
        },
        TaskTime::GeneralPeriod { start, end } => {
            push_period(out, start);
            push_dash(out);
            push_period(out, end);
            assert(final(out)@ =~= old(out)@ + time_text(t@));
        },
    }
}

fn push_task(out: &mut String, t: &Task)
    ensures
        final(out)@ == old(out)@ + task_text(t@),
{
    push_char(out, '*');
    push_char(out, ' ');
    push_char(out, '[');
    push_char(out, if t.finished { 'X' } else { ' ' });
    push_char(out, ']');
    push_char(out, ' ');
    push_time(out, &t.time);
    push_char(out, ' ');
    match t.pomodoro {
        Some((planned, done)) => {
            push_char(out, '(');
            push_dec(out, planned as u64);
            push_char(out, ',');
            push_char(out, ' ');
            push_dec(out, done as u64);
            push_char(out, ')');
            push_char(out, ' ');
        },
        None => {},
    }
    push_char(out, '=');
    push_char(out, '>');
    push_char(out, ' ');
    out.append(t.description.as_str());
    assert(final(out)@ =~= old(out)@ + task_text(t@));
}

impl TaskTime {
    /// The canonical text of this time.
    pub fn as_string(&self) -> (r: String)
        ensures
            r@ == time_text(self@),
    {
        let mut s = String::new();
        push_time(&mut s, self);
        assert(s@ =~= time_text(self@));
        s
    }
}

impl Task {
    /// The canonical line of the task, without a line feed.
    pub fn as_string(&self) -> (r: String)
        ensures
            r@ == task_text(self@),
    {
        let mut s = String::new();
        push_task(&mut s, self);
        assert(s@ =~= task_text(self@));
        s
    }
}

impl Schedule {
    /// The canonical text of this schedule: the header, then each task's line
    /// in order.
    pub fn as_string(&self) -> (r: String)
        ensures
            r@ == schedule_string(self@),
    {
        let mut s = String::new();
        push_char(&mut s, '#');
        push_char(&mut s, ' ');
        push_dec(&mut s, self.date.day as u64);
        push_char(&mut s, '-');
        push_dec(&mut s, self.date.month as u64);
        push_char(&mut s, '-');
        push_signed_dec(&mut s, self.date.year);
        push_char(&mut s, '\n');
        assert(s@ =~= header_text(self.date));
        let mut i: usize = 0;
        while i < self.tasks.len()
            invariant
                i <= self.tasks@.len(),
                s@ == header_text(self.date) + tasks_text(entries_view(self.tasks@).take(i as int)),
            decreases self.tasks@.len() - i,
        {
            let ghost before = s@;
            push_task(&mut s, &self.tasks[i].1);
            push_char(&mut s, '\n');
            proof {
                let ev = entries_view(self.tasks@);
                assert(ev.take(i + 1) =~= ev.take(i as int).push(ev[i as int]));
                lemma_tasks_text_push(ev.take(i as int), ev[i as int]);
                assert(s@ =~= header_text(self.date) + tasks_text(ev.take(i + 1)));
            }
            i = i + 1;
        }
        assert(entries_view(self.tasks@).take(i as int) =~= entries_view(self.tasks@));
        s
    }
}

impl Schedule {
    /// The header, then each task's line after its index: `(1) * [ ] ...`.
    pub fn as_indexed_string(&self) -> (r: String)
        ensures
            r@ == header_text(self.date) + indexed_tasks_text(self@.tasks),
    {
        let mut s = String::new();
        push_char(&mut s, '#');
        push_char(&mut s, ' ');
        push_dec(&mut s, self.date.day as u64);
        push_char(&mut s, '-');
        push_dec(&mut s, self.date.month as u64);
        push_char(&mut s, '-');
        push_signed_dec(&mut s, self.date.year);
        push_char(&mut s, '\n');
        assert(s@ =~= header_text(self.date));
        let mut i: usize = 0;
        while i < self.tasks.len()
            invariant
                i <= self.tasks@.len(),
                s@ == header_text(self.date) + indexed_tasks_text(
                    entries_view(self.tasks@).take(i as int),
                ),
            decreases self.tasks@.len() - i,
        {
            push_char(&mut s, '(');
            push_dec(&mut s, self.tasks[i].0 as u64);
            push_char(&mut s, ')');
            push_char(&mut s, ' ');
            push_task(&mut s, &self.tasks[i].1);
            push_char(&mut s, '\n');
            proof {
                let ev = entries_view(self.tasks@);
                assert(ev.take(i + 1).drop_last() =~= ev.take(i as int));
                assert(s@ =~= header_text(self.date) + indexed_tasks_text(ev.take(i + 1)));
            }
            i = i + 1;
        }
        assert(entries_view(self.tasks@).take(i as int) =~= entries_view(self.tasks@));
        s
    }
}

} // verus!
