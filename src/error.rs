//! The errors of the library.
use vstd::prelude::*;

verus! {

/// The grammar element at which parsing failed.
#[derive(Clone, Copy, Debug, PartialEq, Eq, Structural)]
pub enum ParseStage {
    /// The `# day-month-year` header, or a day that does not exist.
    Date,
    /// The `-` or `*` marker and the opening `[` of a task.
    StartOfTask,
    /// The completion flag and the closing `]`.
    Finished,
    /// The time field of a task.
    TaskTime,
    /// A clock time outside the day: an hour, minute or second out of range.
    Time,
    /// The pomodoro counters and the `=>` after them.
    Pomodoro,
    /// The `=>` before the description.
    Description,
    /// More tasks than an index can number.
    TaskIndex,
}

/// What can go wrong in the planner.
#[derive(Clone, Debug)]
pub enum TimaruError {
    /// A directory could not be opened or created.
    Dir(String),
    /// A file could not be opened, read or written.
    File(String),
    /// Neither `$XDG_CONFIG_HOME` nor `$HOME` is set.
    EnvVar,
    /// The text of a schedule, a task or a time is malformed.
    Parse(ParseStage),
    /// No task has the given index.
    Idx,
}

} // verus!
