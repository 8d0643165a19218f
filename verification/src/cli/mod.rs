//! The command line: its arguments, its jobs and its reports.

pub mod args;
pub mod report;
pub mod run;
