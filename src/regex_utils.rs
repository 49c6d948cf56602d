//! Building matchers from the configured patterns.
//!
//! A pattern that holds `&` but no parenthesis and no `|` is a conjunction: each
//! `&`-separated segment must match. A pattern with parentheses, or with both
//! `&` and `|`, is a Boolean expression over literal sub-patterns. Anything else
//! is one regular expression.

use vstd::prelude::*;
use vstd::string::StringSliceAdditionalSpecFns;
use crate::boolean_parser::{
    leaf_set, parse_boolean_expression, parse_spec, error_text, BooleanExpr, ExprModel,
    ParseError,
};
use crate::config::Config;
use crate::matcher::{build_error, builds, compile, MatchOptions, Matcher};
use crate::text::{chars_of, push_char, push_str};
use vstd::hash_map::StringHashMap;

verus! {

/// The configured patterns, joined without separator.
pub open spec fn joined(ps: Seq<String>) -> Seq<char>
    decreases ps.len(),
{
    if ps.len() == 0 {
        Seq::empty()
    } else {
        joined(ps.drop_last()) + ps.last()@
    }
}

pub fn join_patterns(ps: &Vec<String>) -> (r: String)
    ensures
        r@ == joined(ps@),
{
    let mut out = String::new();
    let mut i: usize = 0;
    while i < ps.len()
        invariant
            i <= ps@.len(),
            out@ == joined(ps@.subrange(0, i as int)),
        decreases ps@.len() - i,
    {
        push_str(&mut out, ps[i].as_str());
        assert(ps@.subrange(0, i + 1).drop_last() == ps@.subrange(0, i as int));
        i = i + 1;
    }
    assert(ps@.subrange(0, i as int) == ps@);
    out
}

pub fn has_char(s: &str, c: char) -> (r: bool)
    ensures
        r == s@.contains(c),
{
    let cs = chars_of(s);
    let mut i: usize = 0;
    while i < cs.len()
        invariant
            cs@ == s@,
            i <= cs@.len(),
            forall|j: int| 0 <= j < i ==> cs@[j] != c,
        decreases cs@.len() - i,
    {
        if cs[i] == c {
            assert(s@[i as int] == c);
            return true;
        }
        i = i + 1;
    }
    false
}

/// Position `i` is escaped: the character before it is a backslash that is not
/// itself escaped.
pub open spec fn escaped_at(s: Seq<char>, i: int) -> bool
    decreases i,
{
    if i <= 0 || i > s.len() {
        false
    } else {
        s[i - 1] == '\\' && !escaped_at(s, i - 1)
    }
}

/// Position `i` holds a separator that splits the text.
pub open spec fn is_cut(s: Seq<char>, sep: char, i: int) -> bool {
    0 <= i < s.len() && s[i] == sep && s[i] != '\\' && !escaped_at(s, i)
}

/// The pieces of the first `n` characters of `s`, cut at unescaped separators;
/// backslashes stay in the pieces.
pub open spec fn split_prefix(s: Seq<char>, sep: char, n: int) -> Seq<Seq<char>>
    decreases n,
{
    if n <= 0 {
        seq![Seq::empty()]
    } else {
        let ps = split_prefix(s, sep, n - 1);
        if is_cut(s, sep, n - 1) {
            ps.push(Seq::empty())
        } else {
            ps.update(ps.len() - 1, ps.last().push(s[n - 1]))
        }
    }
}

pub open spec fn split_spec(s: Seq<char>, sep: char) -> Seq<Seq<char>> {
    split_prefix(s, sep, s.len() as int)
}

proof fn lemma_split_prefix_nonempty(s: Seq<char>, sep: char, n: int)
    ensures
        split_prefix(s, sep, n).len() >= 1,
    decreases n,
{
    if n > 0 {
        lemma_split_prefix_nonempty(s, sep, n - 1);
    }
}

pub open spec fn string_views(v: Seq<String>) -> Seq<Seq<char>> {
    v.map_values(|p: String| p@)
}

/// Split `input` at every `sep` that is not escaped by a backslash.
pub fn split_unescaped(input: &str, sep: char) -> (r: Vec<String>)
    ensures
        string_views(r@) == split_spec(input@, sep),
{
    let cs = chars_of(input);
    let ghost s = input@;
    let mut parts: Vec<String> = Vec::new();
    let mut cur = String::new();
    let mut escaped = false;
    let mut i: usize = 0;
    while i < cs.len()
        invariant
            cs@ == s,
            i <= s.len(),
            escaped == escaped_at(s, i as int),
            string_views(parts@).push(cur@) == split_prefix(s, sep, i as int),
        decreases s.len() - i,
    {
        let ch = cs[i];
        let ghost ps = split_prefix(s, sep, i as int);
        proof {
            lemma_split_prefix_nonempty(s, sep, i as int);
        }
        if escaped {
            push_char(&mut cur, ch);
            escaped = false;
        } else if ch == '\\' {
            push_char(&mut cur, ch);
            escaped = true;
        } else if ch == sep {
            let ghost p0 = parts@;
            parts.push(cur);
            cur = String::new();
            assert(string_views(parts@) == string_views(p0).push(ps.last()));
        } else {
            push_char(&mut cur, ch);
        }
        assert(string_views(parts@).push(cur@) =~= split_prefix(s, sep, i + 1));
        i = i + 1;
    }
    parts.push(cur);
    assert(string_views(parts@) =~= split_prefix(s, sep, s.len() as int));
    parts
}

/// The pieces joined with `sep` between neighbours.
pub open spec fn join_with(parts: Seq<Seq<char>>, sep: char) -> Seq<char>
    decreases parts.len(),
{
    if parts.len() == 0 {
        Seq::empty()
    } else if parts.len() == 1 {
        parts[0]
    } else {
        join_with(parts.drop_last(), sep).push(sep) + parts.last()
    }
}

pub(crate) fn join_strings(parts: &Vec<String>, sep: char) -> (r: String)
    ensures
        r@ == join_with(string_views(parts@), sep),
{
    let mut out = String::new();
    let mut i: usize = 0;
    while i < parts.len()
        invariant
            i <= parts@.len(),
            out@ == join_with(string_views(parts@.subrange(0, i as int)), sep),
        decreases parts@.len() - i,
    {
        if i > 0 {
            push_char(&mut out, sep);
        }
        push_str(&mut out, parts[i].as_str());
        assert(string_views(parts@.subrange(0, i + 1)).drop_last() =~= string_views(
            parts@.subrange(0, i as int),
        ));
        i = i + 1;
    }
    assert(parts@.subrange(0, i as int) == parts@);
    out
}

pub open spec fn wrap_word(p: Seq<char>) -> Seq<char> {
    "\\b(?:"@ + p + ")\\b"@
}

pub open spec fn wrap_line(p: Seq<char>) -> Seq<char> {
    "^(?:"@ + p + ")$"@
}

fn wrap(open: &str, p: String, close: &str) -> (r: String)
    ensures
        r@ == open@ + p@ + close@,
{
    let mut out = String::new();
    push_str(&mut out, open);
    push_str(&mut out, p.as_str());
    push_str(&mut out, close);
    out
}

/// Options every matcher is built with: line-anchored, and the configured
/// case and dot handling.
pub open spec fn options_of(cfg: Config) -> MatchOptions {
    MatchOptions { multi_line: true, case_insensitive: cfg.case_insensitive, dotall: cfg.dotall }
}

pub fn options_for(cfg: &Config) -> (r: MatchOptions)
    ensures
        r == options_of(*cfg),
{
    MatchOptions { multi_line: true, case_insensitive: cfg.case_insensitive, dotall: cfg.dotall }
}

/// Source of the matcher that finds and highlights spans: the joined pattern,
/// with `&`-separated terms turned into alternatives, then wrapped for word and
/// whole-line matching.
pub open spec fn display_source(raw: Seq<char>, word: bool, line: bool) -> Seq<char> {
    let base = if raw.contains('&') {
        join_with(split_spec(raw, '&'), '|')
    } else {
        raw
    };
    let w = if word {
        wrap_word(base)
    } else {
        base
    };
    if line {
        wrap_line(w)
    } else {
        w
    }
}

/// Source of the matcher for one `&`-separated term: word wrapping only.
pub open spec fn term_source(part: Seq<char>, word: bool) -> Seq<char> {
    if word {
        wrap_word(part)
    } else {
        part
    }
}

/// Source of the matcher for one literal of a Boolean expression.
pub open spec fn literal_source(p: Seq<char>, word: bool, line: bool) -> Seq<char> {
    let w = if word {
        wrap_word(p)
    } else {
        p
    };
    if line {
        wrap_line(w)
    } else {
        w
    }
}

pub(crate) fn literal_pattern(p: &str, word: bool, line: bool) -> (r: String)
    ensures
        r@ == literal_source(p@, word, line),
{
    let mut pat = p.to_owned();
    if word {
        pat = wrap("\\b(?:", pat, ")\\b");
    }
    if line {
        pat = wrap("^(?:", pat, ")$");
    }
    pat
}

/// Build the display matcher from `cfg.patterns`.
pub fn build_regex(cfg: &Config) -> (r: Result<Matcher, String>)
    ensures
        r is Ok <==> builds(
            display_source(joined(cfg.patterns@), cfg.word, cfg.line),
            options_of(*cfg),
        ),
        r matches Ok(m) ==> m.pattern() == display_source(joined(cfg.patterns@), cfg.word, cfg.line)
            && m.options() == options_of(*cfg),
        r matches Err(e) ==> e@ == build_error(
            display_source(joined(cfg.patterns@), cfg.word, cfg.line),
            options_of(*cfg),
        ),
{
    let raw = join_patterns(&cfg.patterns);
    let mut pat = if has_char(raw.as_str(), '&') {
        let parts = split_unescaped(raw.as_str(), '&');
        join_strings(&parts, '|')
    } else {
        raw
    };
    if cfg.word {
        pat = wrap("\\b(?:", pat, ")\\b");
    }
    if cfg.line {
        pat = wrap("^(?:", pat, ")$");
    }
    compile(pat.as_str(), options_for(cfg))
}

/// `m` is the message of the first `&`-separated term that does not compile.
pub open spec fn term_error(cfg: Config, m: Seq<char>) -> bool {
    let parts = split_spec(joined(cfg.patterns@), '&');
    exists|i: int|
        0 <= i < parts.len() && (forall|j: int|
            0 <= j < i ==> builds(#[trigger] term_source(parts[j], cfg.word), options_of(cfg)))
            && !builds(term_source(parts[i], cfg.word), options_of(cfg)) && m == build_error(
            #[trigger] term_source(parts[i], cfg.word),
            options_of(cfg),
        )
}

/// `m` is the message of some literal of `tree` that does not compile.
pub open spec fn leaf_error(cfg: Config, tree: ExprModel, m: Seq<char>) -> bool {
    exists|p: Seq<char>|
        #[trigger] leaf_set(tree).contains(p) && !builds(
            literal_source(p, cfg.word, cfg.line),
            options_of(cfg),
        ) && m == build_error(literal_source(p, cfg.word, cfg.line), options_of(cfg))
}

/// Build one matcher per `&`-separated term when the joined pattern holds `&`;
/// `None` otherwise. Whole-line wrapping is not applied to the terms.
pub fn build_and_matchers(cfg: &Config) -> (r: Result<Option<Vec<Matcher>>, String>)
    ensures
        !joined(cfg.patterns@).contains('&') ==> r matches Ok(None),
        joined(cfg.patterns@).contains('&') ==> {
            let parts = split_spec(joined(cfg.patterns@), '&');
            &&& (r is Ok <==> forall|i: int|
                0 <= i < parts.len() ==> builds(
                    #[trigger] term_source(parts[i], cfg.word),
                    options_of(*cfg),
                ))
            &&& r matches Ok(v) ==> v is Some && v->Some_0@.len() == parts.len() && forall|i: int|
                0 <= i < parts.len() ==> (#[trigger] v->Some_0@[i]).pattern() == term_source(
                    parts[i],
                    cfg.word,
                ) && v->Some_0@[i].options() == options_of(*cfg)
        },
        r matches Err(e) ==> term_error(*cfg, e@),
{
    let raw = join_patterns(&cfg.patterns);
    if !has_char(raw.as_str(), '&') {
        return Ok(None);
    }
    let parts = split_unescaped(raw.as_str(), '&');
    let ghost ps = split_spec(raw@, '&');
    let opts = options_for(cfg);
    let mut regs: Vec<Matcher> = Vec::new();
    let mut i: usize = 0;
    while i < parts.len()
        invariant
            string_views(parts@) == ps,
            ps == split_spec(joined(cfg.patterns@), '&'),
            joined(cfg.patterns@).contains('&'),
            opts == options_of(*cfg),
            i <= parts@.len(),
            regs@.len() == i,
            forall|j: int| 0 <= j < i ==> builds(#[trigger] term_source(ps[j], cfg.word), opts),
            forall|j: int|
                0 <= j < i ==> (#[trigger] regs@[j]).pattern() == term_source(ps[j], cfg.word)
                    && regs@[j].options() == opts,
        decreases parts@.len() - i,
    {
        let p = if cfg.word {
            wrap("\\b(?:", parts[i].clone(), ")\\b")
        } else {
            parts[i].clone()
        };
        assert(parts@[i as int]@ == ps[i as int]);
        match compile(p.as_str(), opts) {
            Ok(m) => regs.push(m),
            Err(e) => {
                assert(!builds(term_source(ps[i as int], cfg.word), opts));
                assert(term_error(*cfg, e@));
                return Err(e);
            },
        }
        i = i + 1;
    }
    Ok(Some(regs))
}

/// The joined pattern is routed to the Boolean parser: it holds a parenthesis,
/// or both `&` and `|`.
pub open spec fn is_complex(p: Seq<char>) -> bool {
    p.contains('(') || p.contains(')') || (p.contains('&') && p.contains('|'))
}

pub fn has_complex_boolean_ops(pattern: &str) -> (r: bool)
    ensures
        r == is_complex(pattern@),
{
    has_char(pattern, '(') || has_char(pattern, ')') || (has_char(pattern, '&') && has_char(
        pattern,
        '|',
    ))
}

} // verus!

verus! {

/// Escape sequence that starts a bold red span, and the one that resets it.
pub open spec fn bold_red() -> Seq<char> {
    "\x1b[1;31m"@
}

pub open spec fn reset() -> Seq<char> {
    "\x1b[0m"@
}

/// `out` is `seg` as the terminal painter renders it: unchanged when colouring
/// is off for the process, else wrapped in bold red. A segment that itself holds
/// an escape character may be rewritten further.
pub open spec fn painted(seg: Seq<char>, out: Seq<char>) -> bool {
    ||| out == seg
    ||| out == bold_red() + seg + reset()
    ||| seg.contains('\x1b')
}

/// Relies on `colored`'s `Colorize::red`, `Colorize::bold` and the `Display`
/// impl of `ColoredString`: the text alone when colouring is off for this
/// process, else wrapped in the bold-red and reset sequences.
#[verifier::external_body]
fn paint(seg: &str) -> (r: String)
    ensures
        painted(seg@, r@),
{
    colored::Colorize::bold(colored::Colorize::red(seg)).to_string()
}

/// A character boundary at or after another one is a boundary of the bytes
/// that follow the first.
proof fn lemma_boundary_in_suffix(b: Seq<u8>, j: int, i: int)
    requires
        vstd::utf8::valid_utf8(b),
        vstd::utf8::is_char_boundary(b, j),
        vstd::utf8::is_char_boundary(b, i),
        0 <= j <= i,
    ensures
        vstd::utf8::valid_utf8(b.subrange(j, b.len() as int)),
        vstd::utf8::is_char_boundary(b.subrange(j, b.len() as int), i - j),
    decreases b.len(),
{
    if j == 0 {
        assert(b.subrange(0, b.len() as int) == b);
    } else {
        let l = vstd::utf8::length_of_first_scalar(b);
        let rest = vstd::utf8::pop_first_scalar(b);
        assert(1 <= l <= 4);
        assert(vstd::utf8::is_char_boundary(rest, j - l));
        assert(vstd::utf8::is_char_boundary(rest, i - l));
        lemma_boundary_in_suffix(rest, j - l, i - l);
        assert(rest.subrange(j - l, rest.len() as int) == b.subrange(j, b.len() as int));
    }
}

/// The bytes `from..to` of `s`, both ends on character boundaries.
fn slice_bytes(s: &str, from: usize, to: usize) -> (r: &str)
    requires
        from <= to <= s.spec_bytes().len(),
        vstd::utf8::is_char_boundary(s.spec_bytes(), from as int),
        vstd::utf8::is_char_boundary(s.spec_bytes(), to as int),
    ensures
        r.spec_bytes() == s.spec_bytes().subrange(from as int, to as int),
{
    proof {
        vstd::utf8::encode_utf8_valid_utf8(s@);
        lemma_boundary_in_suffix(s.spec_bytes(), from as int, to as int);
    }
    let (_, rest) = s.split_at(from);
    let (piece, _) = rest.split_at(to - from);
    assert(piece.spec_bytes() =~= s.spec_bytes().subrange(from as int, to as int));
    piece
}

/// The bytes of `s` from `from` on, `from` on a character boundary.
fn slice_from(s: &str, from: usize) -> (r: &str)
    requires
        from <= s.spec_bytes().len(),
        vstd::utf8::is_char_boundary(s.spec_bytes(), from as int),
    ensures
        r.spec_bytes() == s.spec_bytes().subrange(from as int, s.spec_bytes().len() as int),
{
    proof {
        vstd::utf8::encode_utf8_valid_utf8(s@);
    }
    let (_, rest) = s.split_at(from);
    rest
}

/// The text of the bytes `from..to`.
pub open spec fn piece(b: Seq<u8>, from: int, to: int) -> Seq<char> {
    vstd::utf8::decode_utf8(b.subrange(from, to))
}

/// Where the `k`-th span ends (0 before the first).
pub open spec fn span_end(spans: Seq<(usize, usize)>, k: int) -> int {
    if k <= 0 {
        0
    } else {
        spans[k - 1].1 as int
    }
}

/// The bytes `b` up to the end of span `k`, gaps kept as they are and span `i`
/// rendered as `ps[i]`.
pub open spec fn hl_prefix(
    b: Seq<u8>,
    spans: Seq<(usize, usize)>,
    ps: Seq<Seq<char>>,
    k: int,
) -> Seq<char>
    decreases k,
{
    if k <= 0 {
        Seq::<char>::empty()
    } else {
        hl_prefix(b, spans, ps, k - 1) + piece(b, span_end(spans, k - 1), spans[k - 1].0 as int)
            + ps[k - 1]
    }
}

/// `out` is `line` with every span painted and the text between spans kept.
pub open spec fn is_highlight(line: Seq<char>, spans: Seq<(usize, usize)>, out: Seq<char>) -> bool {
    let b = vstd::utf8::encode_utf8(line);
    exists|ps: Seq<Seq<char>>|
        {
            &&& ps.len() == spans.len()
            &&& forall|i: int|
                0 <= i < spans.len() ==> painted(
                    piece(b, spans[i].0 as int, spans[i].1 as int),
                    #[trigger] ps[i],
                )
            &&& out == #[trigger] hl_prefix(b, spans, ps, spans.len() as int) + piece(
                b,
                span_end(spans, spans.len() as int),
                b.len() as int,
            )
        }
}

/// Spans of `b` that a splice accepts: in order, not overlapping, each within
/// `b` and ending on character boundaries.
pub open spec fn spans_fit(b: Seq<u8>, spans: Seq<(usize, usize)>) -> bool {
    &&& forall|i: int|
        0 <= i < spans.len() ==> spans[i].0 <= spans[i].1 <= b.len()
            && vstd::utf8::is_char_boundary(b, spans[i].0 as int)
            && vstd::utf8::is_char_boundary(b, spans[i].1 as int)
    &&& forall|i: int| 0 <= i < spans.len() - 1 ==> spans[i].1 <= spans[i + 1].0
}

/// Replace span `i` of `line` by `segs[i]` and keep the text between spans.
pub fn splice_spans(line: &str, spans: &Vec<(usize, usize)>, segs: &Vec<String>) -> (r: String)
    requires
        spans_fit(line.spec_bytes(), spans@),
        segs@.len() == spans@.len(),
    ensures
        r@ == hl_prefix(
            line.spec_bytes(),
            spans@,
            string_views(segs@),
            spans@.len() as int,
        ) + piece(
            line.spec_bytes(),
            span_end(spans@, spans@.len() as int),
            line.spec_bytes().len() as int,
        ),
{
    broadcast use vstd::utf8::encode_utf8_decode_utf8, vstd::utf8::encode_utf8_valid_utf8;

    let ghost b = line.spec_bytes();
    let ghost ps = string_views(segs@);
    let mut result = String::new();
    let mut last: usize = 0;
    let mut k: usize = 0;
    assert(vstd::utf8::is_char_boundary(b, 0));
    while k < spans.len()
        invariant
            b == line.spec_bytes(),
            ps == string_views(segs@),
            segs@.len() == spans@.len(),
            spans_fit(b, spans@),
            k <= spans@.len(),
            last as int == span_end(spans@, k as int),
            last <= b.len(),
            vstd::utf8::is_char_boundary(b, last as int),
            result@ == hl_prefix(b, spans@, ps, k as int),
        decreases spans@.len() - k,
    {
        let (s, e) = spans[k];
        assert(last <= s) by {
            if k > 0 {
                assert(spans@[k - 1].1 <= spans@[k as int].0);
            }
        }
        let gap = slice_bytes(line, last, s);
        push_str(&mut result, gap);
        push_str(&mut result, segs[k].as_str());
        proof {
            vstd::utf8::encode_utf8_decode_utf8(gap@);
            assert(gap@ == piece(b, last as int, s as int));
            assert(ps[k as int] == segs@[k as int]@);
        }
        last = e;
        k = k + 1;
    }
    let tail = slice_from(line, last);
    push_str(&mut result, tail);
    proof {
        vstd::utf8::encode_utf8_decode_utf8(tail@);
    }
    result
}

/// Highlight every match of `re` in `line`: each match span is painted and
/// spliced back in place.
pub fn highlight_segments(line: &str, re: &Matcher) -> (r: String)
    ensures
        is_highlight(
            line@,
            crate::matcher::match_spans(re.pattern(), re.options(), line@),
            r@,
        ),
{
    broadcast use vstd::utf8::encode_utf8_decode_utf8, vstd::utf8::encode_utf8_valid_utf8;

    let spans = re.find_spans(line);
    let ghost b = line.spec_bytes();
    let mut segs: Vec<String> = Vec::new();
    let mut k: usize = 0;
    while k < spans.len()
        invariant
            b == line.spec_bytes(),
            spans_fit(b, spans@),
            k <= spans@.len(),
            segs@.len() == k,
            forall|i: int|
                0 <= i < k ==> painted(
                    piece(b, spans@[i].0 as int, spans@[i].1 as int),
                    #[trigger] segs@[i]@,
                ),
        decreases spans@.len() - k,
    {
        let (s, e) = spans[k];
        let seg = slice_bytes(line, s, e);
        proof {
            vstd::utf8::encode_utf8_decode_utf8(seg@);
        }
        segs.push(paint(seg));
        k = k + 1;
    }
    let r = splice_spans(line, &spans, &segs);
    proof {
        let ps = string_views(segs@);
        assert(b == vstd::utf8::encode_utf8(line@));
        assert(forall|i: int|
            0 <= i < spans@.len() ==> painted(
                piece(b, spans@[i].0 as int, spans@[i].1 as int),
                #[trigger] ps[i],
            ));
    }
    r
}

} // verus!

verus! {

/// Every literal of `tree` compiles under the configuration.
pub open spec fn leaves_build(cfg: Config, tree: ExprModel) -> bool {
    forall|p: Seq<char>|
        #[trigger] leaf_set(tree).contains(p) ==> builds(
            literal_source(p, cfg.word, cfg.line),
            options_of(cfg),
        )
}

/// `m` holds, for each literal of `tree`, its matcher under the configuration.
pub open spec fn map_fits(cfg: Config, tree: ExprModel, m: Map<Seq<char>, Matcher>) -> bool {
    &&& m.dom() == leaf_set(tree)
    &&& forall|p: Seq<char>|
        #[trigger] m.contains_key(p) ==> m[p].pattern() == literal_source(p, cfg.word, cfg.line)
            && m[p].options() == options_of(cfg)
}

/// Parse the joined pattern as a Boolean expression when it is routed there,
/// and build the matchers of its literals.
pub fn parse_boolean_if_complex(cfg: &Config) -> (r: Result<
    Option<(BooleanExpr, StringHashMap<Matcher>)>,
    String,
>)
    ensures
        cfg.patterns@.len() == 0 || !is_complex(joined(cfg.patterns@)) ==> (r matches Ok(None)),
        r matches Ok(None) ==> cfg.patterns@.len() == 0 || !is_complex(joined(cfg.patterns@)),
        cfg.patterns@.len() > 0 && is_complex(joined(cfg.patterns@)) && parse_spec(
            joined(cfg.patterns@),
        ) is Err ==> (r matches Err(e) && e@ == "Boolean expression parse error: "@ + error_text(
            parse_spec(joined(cfg.patterns@))->Err_0,
        )),
        cfg.patterns@.len() > 0 && is_complex(joined(cfg.patterns@)) && parse_spec(
            joined(cfg.patterns@),
        ) is Ok ==> (r is Ok <==> leaves_build(*cfg, parse_spec(joined(cfg.patterns@))->Ok_0)),
        r matches Err(e) ==> cfg.patterns@.len() > 0 && is_complex(joined(cfg.patterns@)) && match parse_spec(
            joined(cfg.patterns@),
        ) {
            Err(pe) => e@ == "Boolean expression parse error: "@ + error_text(pe),
            Ok(tree) => leaf_error(*cfg, tree, e@),
        },
        r matches Ok(Some(pair)) ==> (cfg.patterns@.len() > 0 && is_complex(joined(cfg.patterns@))
            && parse_spec(joined(cfg.patterns@)) == Ok::<ExprModel, ParseError>(pair.0@) && map_fits(
            *cfg,
            pair.0@,
            pair.1@,
        )),
{
    if cfg.patterns.len() == 0 {
        return Ok(None);
    }
    let raw = join_patterns(&cfg.patterns);
    if has_complex_boolean_ops(raw.as_str()) {
        let expr = match parse_boolean_expression(raw.as_str()) {
            Ok(e) => e,
            Err(msg) => {
                let mut e = "Boolean expression parse error: ".to_string();
                push_str(&mut e, msg.as_str());
                return Err(e);
            },
        };
        let regexes = match crate::boolean_parser::build_pattern_regexes(&expr, cfg) {
            Ok(m) => m,
            Err(e) => return Err(e),
        };
        Ok(Some((expr, regexes)))
    } else {
        Ok(None)
    }
}

} // verus!
