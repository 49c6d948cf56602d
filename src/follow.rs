//! The decisions of follow mode. The polling loop itself, which reads the file
//! and sleeps, runs outside the library; it asks here what to do with each new
//! file size and which lines of each appended batch to print.

use vstd::prelude::*;
use crate::config::Config;
use crate::matcher::{hits, match_spans, Matcher};
use crate::regex_utils::{display_source, highlight_segments, is_highlight, joined, options_of};
use crate::text::str_eq;
use crate::window::{is_window_output, select_lines};

verus! {

/// Check that follow mode can run on the expanded inputs `files`;
/// `first_is_binary` tells whether the first of them is a binary file.
pub fn validate_follow_inputs(cfg: &Config, files: &Vec<String>, first_is_binary: bool) -> (r: Result<(), String>)
    ensures
        !cfg.follow ==> (r matches Err(e) && e@ == "follow mode not enabled"@),
        cfg.follow && (files@.len() != 1 || files@[0]@ == "-"@) ==> (r matches Err(e) && e@
            == "follow mode supports exactly one regular file"@),
        cfg.follow && files@.len() == 1 && files@[0]@ != "-"@ && first_is_binary ==> (r matches Err(
            e,
        ) && e@ == "cannot follow binary file"@),
        cfg.follow && files@.len() == 1 && files@[0]@ != "-"@ && !first_is_binary ==> r is Ok,
{
    if !cfg.follow {
        return Err("follow mode not enabled".to_string());
    }
    if files.len() != 1 || str_eq(files[0].as_str(), "-") {
        return Err("follow mode supports exactly one regular file".to_string());
    }
    if first_is_binary {
        return Err("cannot follow binary file".to_string());
    }
    Ok(())
}

/// What to do after reading the followed file's size.
#[derive(Debug, Clone, Copy, PartialEq, Eq, Structural)]
pub enum FollowAction {
    /// Nothing was appended: wait for the next poll.
    Wait,
    /// The file shrank (truncated or rotated): continue from its new end
    /// without reading.
    Truncated(u64),
    /// Bytes were appended: read whole lines from this offset.
    Read(u64),
}

/// Decide the next step from the read offset `pos` and the file's `size`.
pub fn next_follow_action(pos: u64, size: u64) -> (r: FollowAction)
    ensures
        size < pos ==> r == FollowAction::Truncated(size),
        size > pos ==> r == FollowAction::Read(pos),
        size == pos ==> r == FollowAction::Wait,
{
    if size < pos {
        FollowAction::Truncated(size)
    } else if size > pos {
        FollowAction::Read(pos)
    } else {
        FollowAction::Wait
    }
}

/// How a line printed in follow mode is shown: a selected line has its match
/// spans highlighted when colour is on and whole-line matching is off.
pub open spec fn follow_shown(cfg: Config, line: Seq<char>, selected: bool, d: Seq<char>) -> bool {
    if selected && cfg.color && !cfg.line {
        is_highlight(
            line,
            match_spans(
                display_source(joined(cfg.patterns@), cfg.word, cfg.line),
                options_of(cfg),
                line,
            ),
            d,
        )
    } else {
        d == line
    }
}

/// A line is selected in follow mode when the display matcher's verdict,
/// inverted under `invert`, is true.
pub open spec fn follow_selected(cfg: Config, line: Seq<char>) -> bool {
    hits(display_source(joined(cfg.patterns@), cfg.word, cfg.line), options_of(cfg), line)
        != cfg.invert
}

/// The per-line decisions of a batch.
pub open spec fn follow_selections(cfg: Config, lines: Seq<String>) -> Seq<bool> {
    Seq::new(lines.len(), |i: int| follow_selected(cfg, lines[i]@))
}

/// The lines to print for one appended batch, through a fresh context window:
/// context never spans two batches.
pub fn process_batch(cfg: &Config, re: &Matcher, lines: &Vec<String>) -> (r: Vec<String>)
    requires
        re.pattern() == display_source(joined(cfg.patterns@), cfg.word, cfg.line),
        re.options() == options_of(*cfg),
    ensures
        exists|w: Seq<usize>|
            {
                &&& #[trigger] is_window_output(
                    follow_selections(*cfg, lines@),
                    cfg.context.before as int,
                    cfg.context.after as int,
                    w,
                )
                &&& r@.len() == w.len()
                &&& forall|k: int|
                    0 <= k < w.len() ==> follow_shown(
                        *cfg,
                        lines@[w[k] as int]@,
                        follow_selected(*cfg, lines@[w[k] as int]@),
                        #[trigger] r@[k]@,
                    )
            },
{
    let ghost sel = follow_selections(*cfg, lines@);
    let mut decisions: Vec<bool> = Vec::new();
    let mut i: usize = 0;
    while i < lines.len()
        invariant
            i <= lines@.len(),
            sel == follow_selections(*cfg, lines@),
            re.pattern() == display_source(joined(cfg.patterns@), cfg.word, cfg.line),
            re.options() == options_of(*cfg),
            decisions@ == sel.subrange(0, i as int),
        decreases lines@.len() - i,
    {
        let m = re.is_match(lines[i].as_str());
        decisions.push(m != cfg.invert);
        i = i + 1;
    }
    assert(decisions@ == sel);
    let w = select_lines(cfg.context.before, cfg.context.after, &decisions);
    let mut out: Vec<String> = Vec::new();
    let mut k: usize = 0;
    while k < w.len()
        invariant
            sel == follow_selections(*cfg, lines@),
            re.pattern() == display_source(joined(cfg.patterns@), cfg.word, cfg.line),
            re.options() == options_of(*cfg),
            decisions@ == sel,
            is_window_output(sel, cfg.context.before as int, cfg.context.after as int, w@),
            k <= w@.len(),
            out@.len() == k,
            forall|j: int|
                0 <= j < k ==> follow_shown(
                    *cfg,
                    lines@[w@[j] as int]@,
                    sel[w@[j] as int],
                    #[trigger] out@[j]@,
                ),
        decreases w@.len() - k,
    {
        let idx = w[k];
        if decisions[idx] && cfg.color && !cfg.line {
            out.push(highlight_segments(lines[idx].as_str(), re));
        } else {
            out.push(lines[idx].clone());
        }
        k = k + 1;
    }
    out
}

} // verus!
