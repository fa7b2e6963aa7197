//! The planner's commands, and what they do to a schedule.
use crate::calendar::Date;
use crate::error::{ParseStage, TimaruError};
use crate::parser::task_time;
use crate::schedule::{entries_view, fresh_index, position, Schedule};
use crate::task::{moved_to, Task, TaskTime, TaskView};
use vstd::prelude::*;

verus! {

/// The command line: a subcommand, or none for the interactive view.
#[derive(Clone, Debug)]
pub struct Opts {
    pub subcmd: Option<SubCommand>,
}

#[derive(Clone, Debug)]
pub enum SubCommand {
    /// Print the next seven days' schedules.
    Week,
    /// Print the schedules from today to the same day next month.
    Month,
    /// Add a task.
    Add {
        date: Option<String>,
        time: Option<String>,
        pomodoro: Option<u8>,
        description: String,
    },
    /// Remove a task.
    Remove { date: String, idx: u8 },
    /// Change a task.
    Update { old_date: String, idx: u8, subcmd: UpdateSubCmd },
    /// Print one day's schedule, today's by default.
    List { date: Option<String> },
}

/// What to change in a task.
#[derive(Clone, Debug)]
pub enum UpdateSubCmd {
    /// Move it to another day.
    Date { date: String },
    /// Give it another time.
    Time { time: String },
    /// Change its pomodoro counters.
    Pomodoro(PomodoroUpdate),
    /// Give it another description.
    Description { desc: String },
    /// Mark it finished.
    Done,
    /// Mark it unfinished.
    NotDone,
}

#[derive(Clone, Copy, Debug, PartialEq, Eq, Structural)]
pub enum PomodoroUpdate {
    /// Set the planned count, keeping the completed one (zero where there was none).
    New { total: u8 },
    /// Drop the counters.
    Remove,
    /// Set the completed count.
    Done { done: u8 },
}

/// Whether an update can be applied to a task without moving it: a completed
/// count needs counters to set it in.
pub open spec fn applicable(t: TaskView, u: UpdateSubCmd) -> bool {
    match u {
        UpdateSubCmd::Date { .. } => false,
        UpdateSubCmd::Pomodoro(PomodoroUpdate::Done { .. }) => t.pomodoro is Some,
        _ => true,
    }
}

/// The task after an update; a new time is read on `date`.
pub open spec fn updated(t: TaskView, u: UpdateSubCmd, date: Date) -> Result<TaskView, ParseStage> {
    match u {
        UpdateSubCmd::Time { time } => match task_time(time@, date) {
            Ok(tt) => Ok(TaskView { time: tt, ..t }),
            Err(e) => Err(e),
        },
        UpdateSubCmd::Description { desc } => Ok(TaskView { description: desc@, ..t }),
        UpdateSubCmd::Pomodoro(PomodoroUpdate::New { total }) => Ok(
            TaskView {
                pomodoro: Some(
                    (
                        total,
                        match t.pomodoro {
                            Some((_, d)) => d,
                            None => 0u8,
                        },
                    ),
                ),
                ..t
            },
        ),
        UpdateSubCmd::Pomodoro(PomodoroUpdate::Done { done }) => Ok(
            TaskView {
                pomodoro: match t.pomodoro {
                    Some((p, _)) => Some((p, done)),
                    None => None,
                },
                ..t
            },
        ),
        UpdateSubCmd::Pomodoro(PomodoroUpdate::Remove) => Ok(TaskView { pomodoro: None, ..t }),
        UpdateSubCmd::Done => Ok(TaskView { finished: true, ..t }),
        UpdateSubCmd::NotDone => Ok(TaskView { finished: false, ..t }),
        UpdateSubCmd::Date { .. } => Ok(t),
    }
}

impl Task {
    /// A new unfinished task; a planned pomodoro count starts with none done.
    pub fn added(time: TaskTime, description: String, pomodoro: Option<u8>) -> (r: Task)
        ensures
            r@.time == time@,
            r@.description == description@,
            r@.pomodoro == (match pomodoro {
                Some(total) => Some((total, 0u8)),
                None => None,
            }),
            !r@.finished,
    {
        Task {
            time,
            description,
            pomodoro: match pomodoro {
                Some(total) => Some((total, 0)),
                None => None,
            },
            finished: false,
        }
    }
}

fn apply_update(t: &mut Task, u: &UpdateSubCmd, date: &Date) -> (r: Result<(), TimaruError>)
    requires
        applicable(old(t)@, *u),
    ensures
        match updated(old(t)@, *u, *date) {
            Ok(v) => r is Ok && final(t)@ == v,
            Err(e) => r == Err::<(), TimaruError>(TimaruError::Parse(e)) && final(t)@ == old(t)@,
        },
{
    match u {
        UpdateSubCmd::Time { time } => {
            match TaskTime::from_str(time.as_str(), date) {
                Ok(tt) => {
                    t.time = tt;
                    Ok(())
                },
                Err(e) => Err(e),
            }
        },
        UpdateSubCmd::Description { desc } => {
            t.description = desc.clone();
            Ok(())
        },
        UpdateSubCmd::Pomodoro(PomodoroUpdate::New { total }) => {
            t.pomodoro = match t.pomodoro {
                Some((_, d)) => Some((*total, d)),
                None => Some((*total, 0)),
            };
            Ok(())
        },
        UpdateSubCmd::Pomodoro(PomodoroUpdate::Done { done }) => {
            t.pomodoro = match t.pomodoro {
                Some((p, _)) => Some((p, *done)),
                None => None,
            };
            Ok(())
        },
        UpdateSubCmd::Pomodoro(PomodoroUpdate::Remove) => {
            t.pomodoro = None;
            Ok(())
        },
        UpdateSubCmd::Done => {
            t.finished = true;
            Ok(())
        },
        UpdateSubCmd::NotDone => {
            t.finished = false;
            Ok(())
        },
        UpdateSubCmd::Date { .. } => Ok(()),
    }
}

impl Schedule {
    /// Applies an update to the task with index `idx`; `Idx` where no task has
    /// it. A time that does not read leaves the schedule unchanged.
    pub fn update_task(&mut self, idx: u8, update: &UpdateSubCmd) -> (r: Result<(), TimaruError>)
        requires
            old(self).wf(),
            position(old(self)@.tasks, idx) < old(self)@.tasks.len() ==> applicable(
                old(self)@.tasks[position(old(self)@.tasks, idx) as int].1,
                *update,
            ),
            !(update is Date),
        ensures
            final(self).wf(),
            final(self)@.date == old(self)@.date,
            final(self)@.file == old(self)@.file,
            ({
                let p = position(old(self)@.tasks, idx);
                if p == old(self)@.tasks.len() {
                    r matches Err(TimaruError::Idx) && final(self)@.tasks == old(self)@.tasks
                } else {
                    match updated(old(self)@.tasks[p as int].1, *update, old(self)@.date) {
                        Ok(v) => r is Ok && final(self)@.tasks == old(self)@.tasks.update(
                            p as int,
                            (idx, v),
                        ),
                        Err(e) => r == Err::<(), TimaruError>(TimaruError::Parse(e))
                            && final(self)@.tasks == old(self)@.tasks,
                    }
                }
            }),
    {
        let p = self.find(idx);
        if p == self.tasks.len() {
            return Err(TimaruError::Idx);
        }
        let ghost before = self.tasks@;
        let (k, mut t) = self.tasks.remove(p);
        proof {
            crate::schedule::lemma_position_found(entries_view(before), idx);
        }
        let r = apply_update(&mut t, update, &self.date);
        let ghost tv = t@;
        self.tasks.insert(p, (k, t));
        proof {
            assert(entries_view(self.tasks@) =~= entries_view(before).update(p as int, (idx, tv)));
            let nv = entries_view(self.tasks@);
            let ov = entries_view(before);
            assert forall|i: int, j: int| 0 <= i < j < nv.len() implies nv[i].0 != nv[j].0 by {
                assert(nv[i].0 == ov[i].0);
                assert(nv[j].0 == ov[j].0);
            }
            if r is Err {
                assert(entries_view(self.tasks@) =~= entries_view(before));
            }
        }
        r
    }

    /// Moves the task with index `idx` to the schedule `to`, its clock times to
    /// that schedule's day; `Idx`, with both unchanged, where no task has it.
    pub fn move_task(&mut self, idx: u8, to: &mut Schedule) -> (r: Result<(), TimaruError>)
        requires
            old(self).wf(),
            old(to).wf(),
            old(to)@.tasks.len() < 255,
        ensures
            final(self).wf(),
            final(to).wf(),
            final(self)@.date == old(self)@.date,
            final(self)@.file == old(self)@.file,
            final(to)@.date == old(to)@.date,
            final(to)@.file == old(to)@.file,
            ({
                let p = position(old(self)@.tasks, idx);
                if p == old(self)@.tasks.len() {
                    r matches Err(TimaruError::Idx) && final(self)@ == old(self)@ && final(to)@
                        == old(to)@
                } else {
                    let t = old(self)@.tasks[p as int].1;
                    &&& r is Ok
                    &&& final(self)@.tasks == old(self)@.tasks.remove(p as int)
                    &&& final(to)@.tasks == old(to)@.tasks.push(
                        (
                            fresh_index(old(to)@.tasks) as u8,
                            TaskView { time: moved_to(t.time, old(to)@.date), ..t },
                        ),
                    )
                }
            }),
    {
        proof {
            crate::schedule::lemma_position_found(old(self)@.tasks, idx);
        }
        match self.remove_task(idx) {
            None => Err(TimaruError::Idx),
            Some(mut t) => {
                let d = to.date;
                t.time.change_date(&d);
                to.add_task(t);
                Ok(())
            },
        }
    }
}

} // verus!
