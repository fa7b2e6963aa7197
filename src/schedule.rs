//! A day's schedule: its date, its numbered tasks, and the file it lives in.
use crate::calendar::{is_calendar_date, Date};
use crate::error::{ParseStage, TimaruError};
use crate::parser::{number, outcome, task_line};
use crate::task::{Task, TaskView};
use crate::text::{
    blank_char, chars_of, find_char, first_index, is_blank, push_char, push_dec, push_signed_dec, signed_dec, dec,
    skip_layout, skip_layout_at, skip_spaces, skip_spaces_at, trim, trim_at,
};
use vstd::prelude::*;

verus! {

/// The tasks of one day, each under an index, in the order they were added.
#[derive(Clone, Debug)]
pub struct Schedule {
    pub date: Date,
    /// Index and task, in insertion order; no index occurs twice.
    pub tasks: Vec<(u8, Task)>,
    /// Where the schedule is stored.
    pub file: String,
}

pub struct ScheduleView {
    pub date: Date,
    pub tasks: Seq<(u8, TaskView)>,
    pub file: Seq<char>,
}

pub open spec fn entries_view(ts: Seq<(u8, Task)>) -> Seq<(u8, TaskView)> {
    ts.map_values(|e: (u8, Task)| (e.0, e.1@))
}

impl View for Schedule {
    type V = ScheduleView;

    open spec fn view(&self) -> ScheduleView {
        ScheduleView { date: self.date, tasks: entries_view(self.tasks@), file: self.file@ }
    }
}

/// No index occurs twice.
pub open spec fn unique_indices(ts: Seq<(u8, TaskView)>) -> bool {
    forall|i: int, j: int| 0 <= i < j < ts.len() ==> ts[i].0 != ts[j].0
}

/// The largest index in use, or 0 where there is none.
pub open spec fn max_index(ts: Seq<(u8, TaskView)>) -> nat
    decreases ts.len(),
{
    if ts.len() == 0 {
        0
    } else {
        let m = max_index(ts.drop_last());
        if ts.last().0 as nat > m {
            ts.last().0 as nat
        } else {
            m
        }
    }
}

/// Some task has index `k`.
pub open spec fn index_used(ts: Seq<(u8, TaskView)>, k: int) -> bool {
    exists|i: int| 0 <= i < ts.len() && ts[i].0 == k
}

/// The lowest index from `k` to 255 that no task has, or 256 where all are taken.
pub open spec fn lowest_free(ts: Seq<(u8, TaskView)>, k: int) -> int
    decreases 256 - k,
{
    if k > 255 || k < 1 {
        256
    } else if index_used(ts, k) {
        lowest_free(ts, k + 1)
    } else {
        k
    }
}

/// The index a new task gets: one past the largest in use, or, where that is
/// 255, the lowest free one.
pub open spec fn fresh_index(ts: Seq<(u8, TaskView)>) -> int {
    if max_index(ts) < 255 {
        (max_index(ts) + 1) as int
    } else {
        lowest_free(ts, 1)
    }
}

/// Where the task with index `k` stands, or the length where none has it.
pub open spec fn position(ts: Seq<(u8, TaskView)>, k: u8) -> nat
    decreases ts.len(),
{
    if ts.len() == 0 {
        0
    } else if ts[0].0 == k {
        0
    } else {
        1 + position(ts.drop_first(), k)
    }
}

/// The `# day-month-year` header, after optional spaces, tabs and line feeds:
/// the day it names, and what follows it.
pub open spec fn header(s: Seq<char>) -> Result<(Date, Seq<char>), ParseStage> {
    let a = skip_layout(s);
    if !(a.len() > 0 && a[0] == '#') {
        Err(ParseStage::Date)
    } else {
        match number(skip_spaces(a.drop_first()), u32::MAX as nat) {
            None => Err(ParseStage::Date),
            Some((d, r1)) => if !(r1.len() > 0 && r1[0] == '-') {
                Err(ParseStage::Date)
            } else {
                match number(r1.drop_first(), u32::MAX as nat) {
                    None => Err(ParseStage::Date),
                    Some((m, r2)) => if !(r2.len() > 0 && r2[0] == '-') {
                        Err(ParseStage::Date)
                    } else {
                        match number(r2.drop_first(), i32::MAX as nat) {
                            None => Err(ParseStage::Date),
                            Some((y, r3)) => if is_calendar_date(y as int, m as int, d as int) {
                                Ok((Date { year: y as i32, month: m as u32, day: d as u32 }, r3))
                            } else {
                                Err(ParseStage::Date)
                            },
                        }
                    },
                }
            },
        }
    }
}

/// A line without the carriage return that may end it.
pub open spec fn strip_cr(l: Seq<char>) -> Seq<char> {
    if l.len() > 0 && l.last() == '\r' {
        l.drop_last()
    } else {
        l
    }
}

pub open spec fn is_blank_line(l: Seq<char>) -> bool {
    forall|i: int| 0 <= i < l.len() ==> is_blank(#[trigger] l[i])
}

/// `x` before the entries of `r`, or the error of `r`.
pub open spec fn prepend<T, E>(x: T, r: Result<Seq<T>, E>) -> Result<Seq<T>, E> {
    match r {
        Ok(ts) => Ok(seq![x] + ts),
        Err(e) => Err(e),
    }
}

/// The entries of `acc` before those of `r`, or the error of `r`.
pub open spec fn join<T, E>(acc: Seq<T>, r: Result<Seq<T>, E>) -> Result<Seq<T>, E> {
    match r {
        Ok(ts) => Ok(acc + ts),
        Err(e) => Err(e),
    }
}

/// The tasks of the lines of `s`, blank lines skipped, numbered from `idx`
/// in the order they come. The first malformed line fails the whole.
pub open spec fn task_lines(s: Seq<char>, idx: nat, date: Date) -> Result<
    Seq<(u8, TaskView)>,
    ParseStage,
>
    decreases s.len(),
{
    if s.len() == 0 {
        Ok(seq![])
    } else {
        let e = first_index(s, '\n');
        let line = strip_cr(s.take(e as int));
        let rest = if e < s.len() {
            s.skip((e + 1) as int)
        } else {
            seq![]
        };
        if is_blank_line(line) {
            task_lines(rest, idx, date)
        } else if idx > 255 {
            Err(ParseStage::TaskIndex)
        } else {
            match task_line(line, date) {
                Err(st) => Err(st),
                Ok(t) => prepend((idx as u8, t), task_lines(rest, idx + 1, date)),
            }
        }
    }
}

/// The schedule that the text `s` holds, stored at `file`.
pub open spec fn schedule_text(s: Seq<char>, file: Seq<char>) -> Result<ScheduleView, ParseStage> {
    match header(s) {
        Err(st) => Err(st),
        Ok((date, rest)) => match task_lines(skip_layout(rest), 1, date) {
            Err(st) => Err(st),
            Ok(tasks) => Ok(ScheduleView { date, tasks, file }),
        },
    }
}

/// The schedule that a stored file holds: an empty one for `date` where the
/// content is blank, else what the trimmed content reads as.
pub open spec fn stored_schedule(content: Seq<char>, date: Date, file: Seq<char>) -> Result<
    ScheduleView,
    ParseStage,
> {
    if trim(content).len() == 0 {
        Ok(ScheduleView { date, tasks: seq![], file })
    } else {
        schedule_text(trim(content), file)
    }
}

/// `{root}/{year}/{month}/{day}`, each number in plain decimal.
pub open spec fn day_path(root: Seq<char>, d: Date) -> Seq<char> {
    root + seq!['/'] + signed_dec(d.year as int) + seq!['/'] + dec(d.month as nat) + seq!['/']
        + dec(d.day as nat)
}

proof fn lemma_join_prepend<T, E>(acc: Seq<T>, x: T, r: Result<Seq<T>, E>)
    ensures
        join(acc, prepend(x, r)) == join(acc.push(x), r),
{
    if let Ok(ts) = r {
        assert(acc + (seq![x] + ts) =~= acc.push(x) + ts);
    }
}

proof fn lemma_max_index(ts: Seq<(u8, TaskView)>)
    ensures
        forall|i: int| 0 <= i < ts.len() ==> (#[trigger] ts[i]).0 as nat <= max_index(ts),
        max_index(ts) <= 255,
    decreases ts.len(),
{
    if ts.len() > 0 {
        lemma_max_index(ts.drop_last());
        assert forall|i: int| 0 <= i < ts.len() implies (#[trigger] ts[i]).0 as nat <= max_index(
            ts,
        ) by {
            if i < ts.len() - 1 {
                assert(ts.drop_last()[i] == ts[i]);
            }
        }
    }
}

/// The header of `l[pos..end]`: the day, and where the header ends.
fn header_in(l: &Vec<char>, pos: usize, end: usize) -> (r: Result<(Date, usize), TimaruError>)
    requires
        pos <= end <= l@.len(),
    ensures
        match r {
            Ok((d, e)) => e <= end && header(l@.subrange(pos as int, end as int)) == Ok::<
                (Date, Seq<char>),
                ParseStage,
            >((d, l@.subrange(e as int, end as int))),
            Err(err) => err == TimaruError::Parse(ParseStage::Date) && header(
                l@.subrange(pos as int, end as int),
            ) is Err,
        },
{
    let at0 = skip_layout_at(l, pos, end);
    if !(at0 < end && l[at0] == '#') {
        return Err(TimaruError::Parse(ParseStage::Date));
    }
    assert(l@.subrange(at0 as int, end as int).drop_first() =~= l@.subrange(at0 + 1, end as int));
    let at1 = skip_spaces_at(l, at0 + 1, end);
    let (d, at2) = match crate::parser::number_in(l, at1, end, 0xffff_ffff) {
        Some(x) => x,
        None => {
            return Err(TimaruError::Parse(ParseStage::Date));
        },
    };
    if !(at2 < end && l[at2] == '-') {
        return Err(TimaruError::Parse(ParseStage::Date));
    }
    assert(l@.subrange(at2 as int, end as int).drop_first() =~= l@.subrange(at2 + 1, end as int));
    let (m, at3) = match crate::parser::number_in(l, at2 + 1, end, 0xffff_ffff) {
        Some(x) => x,
        None => {
            return Err(TimaruError::Parse(ParseStage::Date));
        },
    };
    if !(at3 < end && l[at3] == '-') {
        return Err(TimaruError::Parse(ParseStage::Date));
    }
    assert(l@.subrange(at3 as int, end as int).drop_first() =~= l@.subrange(at3 + 1, end as int));
    let (y, at4) = match crate::parser::number_in(l, at3 + 1, end, 0x7fff_ffff) {
        Some(x) => x,
        None => {
            return Err(TimaruError::Parse(ParseStage::Date));
        },
    };
    match Date::from_ymd(y as i32, m as u32, d as u32) {
        Some(date) => Ok((date, at4)),
        None => Err(TimaruError::Parse(ParseStage::Date)),
    }
}

/// Whether `l[lo..hi]` holds only blank characters.
fn blank_in(l: &Vec<char>, lo: usize, hi: usize) -> (r: bool)
    requires
        lo <= hi <= l@.len(),
    ensures
        r == is_blank_line(l@.subrange(lo as int, hi as int)),
{
    let mut i = lo;
    while i < hi
        invariant
            lo <= i <= hi <= l@.len(),
            forall|j: int| lo <= j < i ==> is_blank(#[trigger] l@[j]),
        decreases hi - i,
    {
        let c = l[i];
        if !blank_char(c) {
            assert(!is_blank(l@.subrange(lo as int, hi as int)[i - lo]));
            return false;
        }
        i = i + 1;
    }
    assert forall|j: int| 0 <= j < hi - lo implies is_blank(
        #[trigger] l@.subrange(lo as int, hi as int)[j],
    ) by {
        assert(l@.subrange(lo as int, hi as int)[j] == l@[lo + j]);
    }
    true
}

/// The tasks on the lines of `l[start..end]`.
fn tasks_in(l: &Vec<char>, start: usize, end: usize, date: &Date) -> (r: Result<
    Vec<(u8, Task)>,
    TimaruError,
>)
    requires
        start <= end <= l@.len(),
    ensures
        match r {
            Ok(ts) => task_lines(l@.subrange(start as int, end as int), 1, *date) == Ok::<
                Seq<(u8, TaskView)>,
                ParseStage,
            >(entries_view(ts@)),
            Err(TimaruError::Parse(st)) => task_lines(
                l@.subrange(start as int, end as int),
                1,
                *date,
            ) == Err::<Seq<(u8, TaskView)>, ParseStage>(st),
            Err(_) => false,
        },
{
    let mut acc: Vec<(u8, Task)> = Vec::new();
    let mut pos = start;
    let mut idx: u64 = 1;
    while pos < end
        invariant
            start <= pos <= end <= l@.len(),
            1 <= idx <= 256,
            task_lines(l@.subrange(start as int, end as int), 1, *date) == join(
                entries_view(acc@),
                task_lines(l@.subrange(pos as int, end as int), idx as nat, *date),
            ),
        decreases end - pos,
    {
        let ghost s = l@.subrange(pos as int, end as int);
        let e = find_char(l, pos, end, '\n');
        assert(s.take(e - pos) =~= l@.subrange(pos as int, e as int));
        let hi = if e > pos && l[e - 1] == '\r' {
            assert(l@.subrange(pos as int, e as int).drop_last() =~= l@.subrange(
                pos as int,
                e - 1,
            ));
            e - 1
        } else {
            e
        };
        let next = if e < end {
            assert(s.skip(e - pos + 1) =~= l@.subrange(e + 1, end as int));
            e + 1
        } else {
            assert(l@.subrange(end as int, end as int) =~= Seq::<char>::empty());
            end
        };
        if !blank_in(l, pos, hi) {
            if idx > 255 {
                return Err(TimaruError::Parse(ParseStage::TaskIndex));
            }
            match crate::parser::task_in(l, pos, hi, date) {
                Err(err) => {
                    return Err(err);
                },
                Ok(t) => {
                    proof {
                        lemma_join_prepend(
                            entries_view(acc@),
                            (idx as u8, t@),
                            task_lines(l@.subrange(next as int, end as int), (idx + 1) as nat, *date),
                        );
                    }
                    let ghost prev = acc@;
                    let ghost tv = t@;
                    acc.push((idx as u8, t));
                    assert(entries_view(acc@) =~= entries_view(prev).push((idx as u8, tv)));
                    idx = idx + 1;
                },
            }
        }
        pos = next;
    }
    assert(entries_view(acc@) + seq![] =~= entries_view(acc@));
    Ok(acc)
}

proof fn lemma_task_lines_indices(s: Seq<char>, idx: nat, date: Date)
    ensures
        task_lines(s, idx, date) matches Ok(ts) ==> forall|i: int|
            0 <= i < ts.len() ==> (#[trigger] ts[i]).0 as nat == idx + i,
    decreases s.len(),
{
    if s.len() > 0 {
        let e = first_index(s, '\n');
        let rest = if e < s.len() {
            s.skip((e + 1) as int)
        } else {
            seq![]
        };
        crate::text::lemma_first_index_bound(s, '\n');
        lemma_task_lines_indices(rest, idx, date);
        lemma_task_lines_indices(rest, idx + 1, date);
    }
}

proof fn lemma_consecutive_unique(ts: Seq<(u8, TaskView)>, idx: nat)
    requires
        forall|i: int| 0 <= i < ts.len() ==> (#[trigger] ts[i]).0 as nat == idx + i,
    ensures
        unique_indices(ts),
{
    assert forall|i: int, j: int| 0 <= i < j < ts.len() implies ts[i].0 != ts[j].0 by {
        assert(ts[i].0 as nat == idx + i);
        assert(ts[j].0 as nat == idx + j);
    }
}

/// The schedule written in `l[lo..hi]`.
fn schedule_in(l: &Vec<char>, lo: usize, hi: usize, file: String) -> (r: Result<Schedule, TimaruError>)
    requires
        lo <= hi <= l@.len(),
    ensures
        outcome(r, schedule_text(l@.subrange(lo as int, hi as int), file@)),
        r matches Ok(sc) ==> unique_indices(sc@.tasks),
{
    let (date, p) = match header_in(l, lo, hi) {
        Ok(x) => x,
        Err(e) => {
            return Err(e);
        },
    };
    let q = skip_layout_at(l, p, hi);
    match tasks_in(l, q, hi, &date) {
        Ok(tasks) => {
            proof {
                lemma_task_lines_indices(l@.subrange(q as int, hi as int), 1, date);
                lemma_consecutive_unique(entries_view(tasks@), 1);
            }
            Ok(Schedule { date, tasks, file })
        },
        Err(e) => Err(e),
    }
}

impl Schedule {
    pub open spec fn wf(&self) -> bool {
        unique_indices(self@.tasks)
    }

    /// Reads a schedule from its text: the date header, then one task per
    /// non-blank line, numbered from 1 in the order of the lines.
    pub fn from_str(file: String, input: &str) -> (r: Result<Schedule, TimaruError>)
        ensures
            outcome(r, schedule_text(input@, file@)),
            r matches Ok(sc) ==> sc.wf(),
    {
        let l = chars_of(input);
        assert(l@.subrange(0, l@.len() as int) =~= l@);
        schedule_in(&l, 0, l.len(), file)
    }

    /// The schedule that a stored file's content holds; blank content is an
    /// empty schedule for `date`.
    pub fn from_content(file: String, date: Date, content: &str) -> (r: Result<
        Schedule,
        TimaruError,
    >)
        ensures
            outcome(r, stored_schedule(content@, date, file@)),
            r matches Ok(sc) ==> sc.wf(),
    {
        let l = chars_of(content);
        assert(l@.subrange(0, l@.len() as int) =~= l@);
        let (a, b) = trim_at(&l, 0, l.len());
        if a == b {
            let r = Schedule { date, tasks: Vec::new(), file };
            assert(r@.tasks =~= Seq::<(u8, TaskView)>::empty());
            Ok(r)
        } else {
            schedule_in(&l, a, b, file)
        }
    }

    /// The next free index: one past the largest in use.
    pub fn next_index(&self) -> (r: u16)
        ensures
            r == max_index(self@.tasks) + 1,
    {
        let mut m: u8 = 0;
        let mut i: usize = 0;
        while i < self.tasks.len()
            invariant
                i <= self.tasks@.len(),
                m == max_index(entries_view(self.tasks@).take(i as int)),
            decreases self.tasks@.len() - i,
        {
            assert(entries_view(self.tasks@).take(i + 1).drop_last() =~= entries_view(
                self.tasks@,
            ).take(i as int));
            if self.tasks[i].0 > m {
                m = self.tasks[i].0;
            }
            i = i + 1;
        }
        assert(entries_view(self.tasks@).take(i as int) =~= entries_view(self.tasks@));
        m as u16 + 1
    }

    /// The index that `add_task` gives a new task (see `fresh_index`).
    pub fn fresh_index(&self) -> (r: u8)
        requires
            self.wf(),
            self@.tasks.len() < 255,
        ensures
            r == fresh_index(self@.tasks),
            1 <= r,
            !index_used(self@.tasks, r as int),
    {
        proof {
            lemma_fresh_index(self@.tasks);
            lemma_max_index(self@.tasks);
        }
        let m = self.next_index();
        if m <= 255 {
            return m as u8;
        }
        let mut k: u16 = 1;
        while k <= 255
            invariant
                1 <= k <= 256,
                self.wf(),
                self@.tasks.len() < 255,
                max_index(self@.tasks) == 255,
                lowest_free(self@.tasks, 1) == lowest_free(self@.tasks, k as int),
            decreases 256 - k,
        {
            let p = self.find(k as u8);
            proof {
                lemma_position_found(self@.tasks, k as u8);
            }
            if p == self.tasks.len() {
                return k as u8;
            }
            k = k + 1;
        }
        proof {
            lemma_fresh_index(self@.tasks);
        }
        0
    }

    /// Adds a task under a fresh index (see `fresh_index`).
    pub fn add_task(&mut self, task: Task)
        requires
            old(self).wf(),
            old(self)@.tasks.len() < 255,
        ensures
            final(self).wf(),
            final(self)@.date == old(self)@.date,
            final(self)@.file == old(self)@.file,
            final(self)@.tasks == old(self)@.tasks.push(
                (fresh_index(old(self)@.tasks) as u8, task@),
            ),
            1 <= fresh_index(old(self)@.tasks) <= 255,
            !index_used(old(self)@.tasks, fresh_index(old(self)@.tasks)),
    {
        let k = self.fresh_index();
        let ghost before = self.tasks@;
        let ghost tv = task@;
        self.tasks.push((k, task));
        proof {
            lemma_fresh_index(entries_view(before));
            let nv = entries_view(self.tasks@);
            let ov = entries_view(before);
            assert(nv =~= ov.push((k, tv)));
            assert forall|i: int, j: int| 0 <= i < j < nv.len() implies nv[i].0 != nv[j].0 by {
                if j == ov.len() {
                    assert(nv[i] == ov[i]);
                }
            }
        }
    }

    /// Takes out the task with index `idx`; `None`, with the schedule
    /// unchanged, where no task has it.
    pub fn remove_task(&mut self, idx: u8) -> (r: Option<Task>)
        requires
            old(self).wf(),
        ensures
            final(self).wf(),
            final(self)@.date == old(self)@.date,
            final(self)@.file == old(self)@.file,
            position(old(self)@.tasks, idx) == old(self)@.tasks.len() ==> r is None && final(self)@.tasks
                == old(self)@.tasks,
            position(old(self)@.tasks, idx) < old(self)@.tasks.len() ==> (r matches Some(t) && t@
                == old(self)@.tasks[position(old(self)@.tasks, idx) as int].1) && final(self)@.tasks
                == old(self)@.tasks.remove(position(old(self)@.tasks, idx) as int),
    {
        let p = self.find(idx);
        if p == self.tasks.len() {
            None
        } else {
            let ghost before = self.tasks@;
            let (_, t) = self.tasks.remove(p);
            proof {
                let old_v = entries_view(before);
                let new_v = entries_view(self.tasks@);
                assert(new_v =~= old_v.remove(p as int));
                assert forall|i: int, j: int| 0 <= i < j < new_v.len() implies new_v[i].0 != new_v[j].0 by {
                    let oi = if i < p { i } else { i + 1 };
                    let oj = if j < p { j } else { j + 1 };
                    assert(new_v[i] == old_v[oi]);
                    assert(new_v[j] == old_v[oj]);
                }
            }
            Some(t)
        }
    }

    /// Where the task with index `idx` stands, or the number of tasks.
    pub fn find(&self, idx: u8) -> (r: usize)
        ensures
            r == position(self@.tasks, idx),
            r <= self@.tasks.len(),
    {
        let mut i: usize = 0;
        assert(self@.tasks.skip(0) =~= self@.tasks);
        while i < self.tasks.len() && self.tasks[i].0 != idx
            invariant
                i <= self.tasks@.len(),
                position(self@.tasks, idx) == i + position(self@.tasks.skip(i as int), idx),
            decreases self.tasks@.len() - i,
        {
            assert(self@.tasks.skip(i as int).drop_first() =~= self@.tasks.skip(i + 1));
            i = i + 1;
        }
        i
    }
}

/// Where the schedule of `date` is stored under `root`:
/// `{root}/{year}/{month}/{day}`, in plain decimal.
pub fn path_for(root: &str, date: &Date) -> (r: String)
    ensures
        r@ == day_path(root@, *date),
{
    let mut r = root.to_owned();
    push_char(&mut r, '/');
    push_signed_dec(&mut r, date.year);
    push_char(&mut r, '/');
    push_dec(&mut r, date.month as u64);
    push_char(&mut r, '/');
    push_dec(&mut r, date.day as u64);
    assert(r@ =~= day_path(root@, *date));
    r
}

pub proof fn lemma_position_found(ts: Seq<(u8, TaskView)>, k: u8)
    ensures
        position(ts, k) <= ts.len(),
        position(ts, k) < ts.len() ==> ts[position(ts, k) as int].0 == k,
        forall|i: int| 0 <= i < position(ts, k) ==> ts[i].0 != k,
        position(ts, k) == ts.len() <==> !index_used(ts, k as int),
    decreases ts.len(),
{
    if ts.len() > 0 && ts[0].0 != k {
        lemma_position_found(ts.drop_first(), k);
        assert forall|i: int| 0 <= i < position(ts, k) implies ts[i].0 != k by {
            if i > 0 {
                assert(ts[i] == ts.drop_first()[i - 1]);
            }
        }
    }
    if position(ts, k) == ts.len() {
        assert forall|i: int| 0 <= i < ts.len() implies ts[i].0 != k by {}
    }
}

proof fn lemma_lowest_free(ts: Seq<(u8, TaskView)>, k: int)
    requires
        1 <= k <= 256,
    ensures
        k <= lowest_free(ts, k) <= 256,
        lowest_free(ts, k) <= 255 ==> !index_used(ts, lowest_free(ts, k)),
        forall|j: int| k <= j < lowest_free(ts, k) ==> index_used(ts, j),
    decreases 256 - k,
{
    if k <= 255 && index_used(ts, k) {
        lemma_lowest_free(ts, k + 1);
    }
}

/// With fewer than 255 tasks under distinct indices, the fresh index is one
/// from 1 to 255 that no task has.
pub proof fn lemma_fresh_index(ts: Seq<(u8, TaskView)>)
    requires
        unique_indices(ts),
        ts.len() < 255,
    ensures
        1 <= fresh_index(ts) <= 255,
        !index_used(ts, fresh_index(ts)),
{
    lemma_max_index(ts);
    if max_index(ts) < 255 {
        assert forall|i: int| 0 <= i < ts.len() implies ts[i].0 != max_index(ts) + 1 by {
            assert(ts[i].0 as nat <= max_index(ts));
        }
    } else {
        lemma_lowest_free(ts, 1);
        if lowest_free(ts, 1) == 256 {
            let keys = ts.map_values(|e: (u8, TaskView)| e.0 as int);
            let used = keys.to_set();
            let range = vstd::set_lib::set_int_range(1, 256);
            assert forall|j: int| range.contains(j) implies used.contains(j) by {
                assert(index_used(ts, j));
                let i = choose|i: int| 0 <= i < ts.len() && ts[i].0 == j;
                assert(keys[i] == j);
            }
            keys.lemma_cardinality_of_set();
            vstd::set_lib::lemma_int_range(1, 256);
            vstd::set_lib::lemma_len_subset(range, used);
            assert(false);
        }
    }
}

} // verus!
