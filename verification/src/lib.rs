//! Commit statistics over one or more repositories: the parser of the log
//! text, the per-repository and overall totals, and the calendar grid of the
//! current year's activity.

pub mod model;
pub mod text;
pub mod count;
pub mod log;
pub mod cli;
pub mod git;
pub mod calendar;
pub mod table;
