//! rgrep: a line-oriented text search library.
//!
//! Patterns are plain regular expressions, `&`-separated conjunctions, or full
//! Boolean expressions over literal sub-patterns. Each input is split into lines,
//! every line is tested, and the selected lines are emitted together with their
//! leading and trailing context, or counted. Results of several sources are
//! combined in input order, or merged by the timestamps their lines carry.

pub mod boolean_parser;
pub mod config;
pub mod follow;
pub mod fs_utils;
pub mod matcher;
pub mod merge;
pub mod output;
pub mod regex_utils;
pub mod search;
pub mod text;
pub mod window;

pub use config::{Config, Context, ExitStatus, RunResult};
pub use merge::aggregate;
pub use search::{run_on_reader, search_single_file};
