//! The interactive view's modes and how keys move between them.
use vstd::prelude::*;

verus! {

/// What the interactive view shows.
#[derive(Clone, Copy, Debug, PartialEq, Eq, Structural)]
pub enum TuiMode {
    Day,
    Week,
    Month,
    Edit,
    Empty,
}

/// What the view does next.
#[derive(Clone, Copy, Debug, PartialEq, Eq, Structural)]
pub enum TuiStep {
    /// Enter this mode and draw it.
    Draw(TuiMode),
    /// Leave the screen as it is.
    Stay,
    /// Close the view.
    Quit,
}

/// `d` shows the coming days, `h` the key bindings, `q` quits; another key
/// changes nothing. With no key pressed the current mode is drawn again,
/// where it is one that can be drawn.
pub open spec fn next_step(mode: TuiMode, key: Option<char>) -> TuiStep {
    match key {
        Some('d') => TuiStep::Draw(TuiMode::Day),
        Some('h') => TuiStep::Draw(TuiMode::Empty),
        Some('q') => TuiStep::Quit,
        Some(_) => TuiStep::Stay,
        None => if mode == TuiMode::Day || mode == TuiMode::Empty {
            TuiStep::Draw(mode)
        } else {
            TuiStep::Stay
        },
    }
}

impl TuiMode {
    /// What to do in this mode on a key press, or on a tick without one.
    pub fn step(self, key: Option<char>) -> (r: TuiStep)
        ensures
            r == next_step(self, key),
    {
        match key {
            Some('d') => TuiStep::Draw(TuiMode::Day),
            Some('h') => TuiStep::Draw(TuiMode::Empty),
            Some('q') => TuiStep::Quit,
            Some(_) => TuiStep::Stay,
            None => if self == TuiMode::Day || self == TuiMode::Empty {
                TuiStep::Draw(self)
            } else {
                TuiStep::Stay
            },
        }
    }
}

} // verus!
