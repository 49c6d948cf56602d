//! Compiled matchers: a regular expression of the `regex` crate together with
//! the pattern and options it was built from.

use regex::{Regex, RegexBuilder};
use vstd::prelude::*;
use vstd::string::StringSliceAdditionalSpecFns;

verus! {

#[verifier::external_type_specification]
#[verifier::external_body]
pub struct ExRegex(Regex);

/// Options handed to the regular-expression engine.
#[derive(Debug, Clone, Copy, PartialEq, Eq, Structural)]
pub struct MatchOptions {
    /// `^` and `$` match at line boundaries.
    pub multi_line: bool,
    /// Letters match regardless of case.
    pub case_insensitive: bool,
    /// `.` also matches a newline.
    pub dotall: bool,
}

/// Whether `pattern` is a valid regular expression under these options.
pub uninterp spec fn regex_compiles(
    pattern: Seq<char>,
    multi_line: bool,
    case_insensitive: bool,
    dotall: bool,
) -> bool;

/// The engine's message when `pattern` does not compile under these options.
pub uninterp spec fn regex_error_text(
    pattern: Seq<char>,
    multi_line: bool,
    case_insensitive: bool,
    dotall: bool,
) -> Seq<char>;

/// Whether the regular expression matches somewhere in `text`.
pub uninterp spec fn regex_matches(
    pattern: Seq<char>,
    multi_line: bool,
    case_insensitive: bool,
    dotall: bool,
    text: Seq<char>,
) -> bool;

/// The successive non-overlapping matches in `text`, as byte ranges.
pub uninterp spec fn regex_spans(
    pattern: Seq<char>,
    multi_line: bool,
    case_insensitive: bool,
    dotall: bool,
    text: Seq<char>,
) -> Seq<(usize, usize)>;

pub open spec fn builds(pattern: Seq<char>, o: MatchOptions) -> bool {
    regex_compiles(pattern, o.multi_line, o.case_insensitive, o.dotall)
}

pub open spec fn build_error(pattern: Seq<char>, o: MatchOptions) -> Seq<char> {
    regex_error_text(pattern, o.multi_line, o.case_insensitive, o.dotall)
}

pub open spec fn hits(pattern: Seq<char>, o: MatchOptions, text: Seq<char>) -> bool {
    regex_matches(pattern, o.multi_line, o.case_insensitive, o.dotall, text)
}

pub open spec fn match_spans(pattern: Seq<char>, o: MatchOptions, text: Seq<char>) -> Seq<(usize, usize)> {
    regex_spans(pattern, o.multi_line, o.case_insensitive, o.dotall, text)
}

/// A compiled regular expression. It is only made by `compile`, so the
/// pattern and options it records are those it was built from.
#[derive(Debug)]
pub struct Matcher {
    re: Regex,
    pattern: String,
    options: MatchOptions,
}

impl Matcher {
    /// The pattern this matcher was compiled from.
    pub closed spec fn pattern(&self) -> Seq<char> {
        self.pattern@
    }

    /// The options this matcher was compiled with.
    pub closed spec fn options(&self) -> MatchOptions {
        self.options
    }

    /// Relies on `regex::Regex::is_match`: whether the compiled expression
    /// matches somewhere in `text`, a function of pattern, options and text.
    #[verifier::external_body]
    pub(crate) fn is_match(&self, text: &str) -> (r: bool)
        ensures
            r == regex_matches(
                self.pattern(),
                self.options().multi_line,
                self.options().case_insensitive,
                self.options().dotall,
                text@,
            ),
    {
        self.re.is_match(text)
    }

    /// Relies on `regex::Regex::find_iter` with `Match::start` / `Match::end`:
    /// successive non-overlapping matches, each a byte range whose ends fall on
    /// character boundaries.
    #[verifier::external_body]
    pub(crate) fn find_spans(&self, text: &str) -> (r: Vec<(usize, usize)>)
        ensures
            r@ == regex_spans(
                self.pattern(),
                self.options().multi_line,
                self.options().case_insensitive,
                self.options().dotall,
                text@,
            ),
            forall|i: int|
                0 <= i < r@.len() ==> r@[i].0 <= r@[i].1 <= text.spec_bytes().len()
                    && vstd::utf8::is_char_boundary(text.spec_bytes(), r@[i].0 as int)
                    && vstd::utf8::is_char_boundary(text.spec_bytes(), r@[i].1 as int),
            forall|i: int| 0 <= i < r@.len() - 1 ==> r@[i].1 <= r@[i + 1].0,
    {
        self.re.find_iter(text).map(|m| (m.start(), m.end())).collect()
    }
}

/// Relies on `regex::RegexBuilder::build` and the `Display` impl of
/// `regex::Error`: compiles `pattern` under the given options; whether it
/// succeeds, and the engine's message when it does not, depend on the pattern
/// and options alone.
#[verifier::external_body]
pub(crate) fn compile(pattern: &str, options: MatchOptions) -> (r: Result<Matcher, String>)
    ensures
        r is Ok <==> regex_compiles(
            pattern@,
            options.multi_line,
            options.case_insensitive,
            options.dotall,
        ),
        r matches Ok(m) ==> m.pattern() == pattern@ && m.options() == options,
        r matches Err(msg) ==> msg@ == regex_error_text(
            pattern@,
            options.multi_line,
            options.case_insensitive,
            options.dotall,
        ),
{
    let built = RegexBuilder::new(pattern)
        .multi_line(options.multi_line)
        .case_insensitive(options.case_insensitive)
        .dot_matches_new_line(options.dotall)
        .build();
    match built {
        Ok(re) => Ok(Matcher { re, pattern: pattern.to_string(), options }),
        Err(e) => Err(e.to_string()),
    }
}

} // verus!
