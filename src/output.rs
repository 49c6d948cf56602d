//! Output formatting: every emitted line is prefixed with its 1-based number.

use vstd::prelude::*;
use crate::text::{decimal, push_char, push_decimal, push_str};

verus! {

/// The output line for line `idx` (0-based) holding `text`.
pub open spec fn formatted_line(idx: int, text: Seq<char>) -> Seq<char> {
    decimal((idx + 1) as nat).push(':') + text.push('\n')
}

/// Append one formatted line to `out`. The file name and the two flags do not
/// change the format.
pub fn append_formatted_line(
    out: &mut String,
    _filename: Option<&str>,
    idx: usize,
    line: &str,
    _is_match: bool,
    _line_mode: bool,
)
    requires
        idx < usize::MAX,
    ensures
        final(out)@ == old(out)@ + formatted_line(idx as int, line@),
{
    push_decimal(out, idx + 1);
    push_char(out, ':');
    push_str(out, line);
    push_char(out, '\n');
}

} // verus!
