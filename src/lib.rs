//! A day planner's core: the schedule text format, its serializer, and the
//! task-time model with its ordering.
pub mod calendar;
pub mod cli;
pub mod error;
pub mod format;
pub mod laws;
pub mod parser;
pub mod schedule;
pub mod setup;
pub mod task;
pub mod text;
pub mod tui;
