//! Search configuration and results.

use vstd::prelude::*;

verus! {

/// Controls how many lines of context are shown before and after a match.
#[derive(Debug, Clone, Copy)]
pub struct Context {
    /// Number of leading lines to include before each matching line.
    pub before: usize,
    /// Number of trailing lines to include after each matching line.
    pub after: usize,
}

impl Default for Context {
    fn default() -> (r: Context)
        ensures
            r.before == 0,
            r.after == 0,
    {
        Context { before: 0, after: 0 }
    }
}

impl Context {
    /// Context from the `-B`, `-A` and `-C` counts: a positive `-C` count sets
    /// both sides.
    pub fn from_counts(before: usize, after: usize, both: usize) -> (r: Context)
        ensures
            both > 0 ==> r.before == both && r.after == both,
            both == 0 ==> r.before == before && r.after == after,
    {
        if both > 0 {
            Context { before: both, after: both }
        } else {
            Context { before, after }
        }
    }
}

/// Configuration for a search run.
#[derive(Debug, Clone)]
pub struct Config {
    /// One or more pattern expressions; they are joined before use.
    pub patterns: Vec<String>,
    /// Select the lines that do not match.
    pub invert: bool,
    /// Print only the number of selected lines.
    pub count: bool,
    /// Suppress all output; only the status matters.
    pub quiet: bool,
    /// Match whole words only.
    pub word: bool,
    /// Match the entire line.
    pub line: bool,
    /// Lines of context before and after matches.
    pub context: Context,
    /// Highlight match spans in selected lines.
    pub color: bool,
    /// Recurse into directories.
    pub recursive: bool,
    /// Case-insensitive matching.
    pub case_insensitive: bool,
    /// Make `.` match newlines.
    pub dotall: bool,
    /// Follow a growing single file for new lines.
    pub follow: bool,
}

impl Default for Config {
    fn default() -> (r: Config)
        ensures
            r.patterns@.len() == 0,
            !r.invert && !r.count && !r.quiet && !r.word && !r.line,
            r.context.before == 0 && r.context.after == 0,
            r.color,
            !r.recursive && !r.case_insensitive && !r.dotall && !r.follow,
    {
        Config {
            patterns: Vec::new(),
            invert: false,
            count: false,
            quiet: false,
            word: false,
            line: false,
            context: Context::default(),
            color: true,
            recursive: false,
            case_insensitive: false,
            dotall: false,
            follow: false,
        }
    }
}

/// Whether any line was selected, following grep's exit-status convention.
#[derive(Debug, Clone, Copy, PartialEq, Eq, Structural)]
pub enum ExitStatus {
    /// At least one line was selected.
    MatchFound,
    /// No line was selected.
    NoMatch,
}

/// Result of a search run.
#[derive(Debug)]
pub struct RunResult {
    /// Formatted output (empty when `quiet` is set).
    pub output: String,
    /// Whether any line was selected.
    pub status: ExitStatus,
}

/// The status that reports whether anything was selected.
pub open spec fn status_of(matched: bool) -> ExitStatus {
    if matched {
        ExitStatus::MatchFound
    } else {
        ExitStatus::NoMatch
    }
}

pub fn status_from(matched: bool) -> (r: ExitStatus)
    ensures
        r == status_of(matched),
{
    if matched {
        ExitStatus::MatchFound
    } else {
        ExitStatus::NoMatch
    }
}

} // verus!
