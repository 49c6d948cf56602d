//! Boolean pattern expressions: `&` (AND), `|` (OR) and parentheses over
//! literal sub-patterns. `&` binds tighter than `|`; both associate to the left.

use vstd::prelude::*;
use crate::config::Config;
use crate::matcher::{builds, compile, hits, Matcher};
use crate::regex_utils::{literal_pattern, literal_source, options_for, options_of};
use crate::text::{chars_of, is_whitespace, is_ws, str_eq, string_of};
use vstd::hash_map::StringHashMap;

verus! {

/// A parsed Boolean expression; each `Pattern` holds one non-empty sub-pattern.
#[derive(Debug)]
pub enum BooleanExpr {
    Pattern(String),
    And(Box<BooleanExpr>, Box<BooleanExpr>),
    Or(Box<BooleanExpr>, Box<BooleanExpr>),
}

impl Clone for BooleanExpr {
    fn clone(&self) -> (r: Self)
        ensures
            r@ == self@,
        decreases self,
    {
        match self {
            BooleanExpr::Pattern(p) => BooleanExpr::Pattern(p.clone()),
            BooleanExpr::And(l, r) => BooleanExpr::And(Box::new((**l).clone()), Box::new((**r).clone())),
            BooleanExpr::Or(l, r) => BooleanExpr::Or(Box::new((**l).clone()), Box::new((**r).clone())),
        }
    }
}

/// The mathematical value of a `BooleanExpr`.
pub enum ExprModel {
    Literal(Seq<char>),
    And(Box<ExprModel>, Box<ExprModel>),
    Or(Box<ExprModel>, Box<ExprModel>),
}

impl View for BooleanExpr {
    type V = ExprModel;

    open spec fn view(&self) -> ExprModel
        decreases self,
    {
        match self {
            BooleanExpr::Pattern(p) => ExprModel::Literal(p@),
            BooleanExpr::And(l, r) => ExprModel::And(Box::new((**l)@), Box::new((**r)@)),
            BooleanExpr::Or(l, r) => ExprModel::Or(Box::new((**l)@), Box::new((**r)@)),
        }
    }
}

/// The distinct sub-patterns that occur in an expression.
pub open spec fn leaf_set(e: ExprModel) -> Set<Seq<char>>
    decreases e,
{
    match e {
        ExprModel::Literal(p) => set![p],
        ExprModel::And(l, r) => leaf_set(*l).union(leaf_set(*r)),
        ExprModel::Or(l, r) => leaf_set(*l).union(leaf_set(*r)),
    }
}

/// Whether an expression holds of `line`, each literal tested by its matcher
/// in `m`; a literal without a matcher does not hold.
pub open spec fn eval(e: ExprModel, m: Map<Seq<char>, Matcher>, line: Seq<char>) -> bool
    decreases e,
{
    match e {
        ExprModel::Literal(p) => m.contains_key(p) && hits(m[p].pattern(), m[p].options(), line),
        ExprModel::And(l, r) => eval(*l, m, line) && eval(*r, m, line),
        ExprModel::Or(l, r) => eval(*l, m, line) || eval(*r, m, line),
    }
}

/// The set of string values held in `v`.
pub open spec fn views(v: Seq<String>) -> Set<Seq<char>> {
    Set::new(|s: Seq<char>| exists|i: int| 0 <= i < v.len() && v[i]@ == s)
}

pub open spec fn distinct_views(v: Seq<String>) -> bool {
    forall|i: int, j: int| 0 <= i < j < v.len() ==> v[i]@ != v[j]@
}

/// Whether some element of `v` holds the value `s`.
pub fn contains_string(v: &Vec<String>, s: &str) -> (r: bool)
    ensures
        r == views(v@).contains(s@),
{
    let mut i: usize = 0;
    while i < v.len()
        invariant
            i <= v@.len(),
            forall|j: int| 0 <= j < i ==> v@[j]@ != s@,
        decreases v@.len() - i,
    {
        if str_eq(v[i].as_str(), s) {
            assert(views(v@).contains(s@)) by {
                assert(v@[i as int]@ == s@);
            }
            return true;
        }
        i = i + 1;
    }
    false
}

impl BooleanExpr {
    /// Evaluate this expression against a line of text.
    pub fn matches(&self, line: &str, regexes: &StringHashMap<Matcher>) -> (r: bool)
        ensures
            r == eval(self@, regexes@, line@),
        decreases self,
    {
        match self {
            BooleanExpr::Pattern(pattern) => match regexes.get(pattern.as_str()) {
                Some(re) => re.is_match(line),
                None => false,
            },
            BooleanExpr::And(left, right) => left.matches(line, regexes) && right.matches(
                line,
                regexes,
            ),
            BooleanExpr::Or(left, right) => left.matches(line, regexes) || right.matches(
                line,
                regexes,
            ),
        }
    }

    /// All distinct sub-patterns of this expression, each once.
    pub fn get_patterns(&self) -> (r: Vec<String>)
        ensures
            distinct_views(r@),
            views(r@) == leaf_set(self@),
    {
        let mut patterns: Vec<String> = Vec::new();
        self.collect_patterns(&mut patterns);
        assert(views(patterns@) =~= leaf_set(self@)) by {
            assert(views(Seq::<String>::empty()) =~= Set::<Seq<char>>::empty());
        }
        patterns
    }

    fn collect_patterns(&self, patterns: &mut Vec<String>)
        requires
            distinct_views(old(patterns)@),
        ensures
            distinct_views(final(patterns)@),
            views(final(patterns)@) == views(old(patterns)@).union(leaf_set(self@)),
        decreases self,
    {
        match self {
            BooleanExpr::Pattern(pattern) => {
                if !contains_string(patterns, pattern.as_str()) {
                    let ghost v0 = patterns@;
                    patterns.push(pattern.clone());
                    assert(views(patterns@) =~= views(v0).union(set![pattern@])) by {
                        assert(patterns@[v0.len() as int]@ == pattern@);
                        assert forall|s: Seq<char>| views(v0).contains(s) implies views(
                            patterns@,
                        ).contains(s) by {
                            let i = choose|i: int| 0 <= i < v0.len() && v0[i]@ == s;
                            assert(patterns@[i] == v0[i]);
                        }
                        assert forall|s: Seq<char>| views(patterns@).contains(s) implies views(
                            v0,
                        ).union(set![pattern@]).contains(s) by {
                            let i = choose|i: int| 0 <= i < patterns@.len() && patterns@[i]@ == s;
                            if i < v0.len() {
                                assert(patterns@[i] == v0[i]);
                            }
                        }
                    }
                } else {
                    assert(views(patterns@) =~= views(patterns@).union(set![pattern@]));
                }
            },
            BooleanExpr::And(left, right) => {
                left.collect_patterns(patterns);
                right.collect_patterns(patterns);
                assert(views(patterns@) =~= views(old(patterns)@).union(leaf_set(self@)));
            },
            BooleanExpr::Or(left, right) => {
                left.collect_patterns(patterns);
                right.collect_patterns(patterns);
                assert(views(patterns@) =~= views(old(patterns)@).union(leaf_set(self@)));
            },
        }
    }
}

/// Build one matcher per distinct literal of `expr`, keyed by the literal.
pub fn build_pattern_regexes(expr: &BooleanExpr, cfg: &Config) -> (r: Result<
    StringHashMap<Matcher>,
    String,
>)
    ensures
        r is Ok <==> forall|p: Seq<char>|
            #[trigger] leaf_set(expr@).contains(p) ==> builds(
                literal_source(p, cfg.word, cfg.line),
                options_of(*cfg),
            ),
        r matches Ok(m) ==> m@.dom() == leaf_set(expr@) && forall|p: Seq<char>|
            #[trigger] m@.contains_key(p) ==> m@[p].pattern() == literal_source(
                p,
                cfg.word,
                cfg.line,
            ) && m@[p].options() == options_of(*cfg),
        r matches Err(e) ==> crate::regex_utils::leaf_error(*cfg, expr@, e@),
{
    let patterns = expr.get_patterns();
    let opts = options_for(cfg);
    let mut regexes: StringHashMap<Matcher> = StringHashMap::new();
    let mut i: usize = 0;
    while i < patterns.len()
        invariant
            views(patterns@) == leaf_set(expr@),
            opts == options_of(*cfg),
            i <= patterns@.len(),
            regexes@.dom() == views(patterns@.subrange(0, i as int)),
            forall|j: int|
                0 <= j < i ==> builds(
                    literal_source(#[trigger] patterns@[j]@, cfg.word, cfg.line),
                    opts,
                ),
            forall|p: Seq<char>|
                #[trigger] regexes@.contains_key(p) ==> regexes@[p].pattern() == literal_source(
                    p,
                    cfg.word,
                    cfg.line,
                ) && regexes@[p].options() == opts,
        decreases patterns@.len() - i,
    {
        let ghost before = patterns@.subrange(0, i as int);
        let ghost after = patterns@.subrange(0, i + 1);
        let pat = literal_pattern(patterns[i].as_str(), cfg.word, cfg.line);
        assert(views(patterns@).contains(patterns@[i as int]@));
        match compile(pat.as_str(), opts) {
            Ok(m) => regexes.insert(patterns[i].clone(), m),
            Err(e) => return Err(e),
        }
        assert(views(after) =~= views(before).insert(patterns@[i as int]@)) by {
            assert(after[i as int] == patterns@[i as int]);
            assert forall|s: Seq<char>| views(after).contains(s) implies views(before).insert(
                patterns@[i as int]@,
            ).contains(s) by {
                let j = choose|j: int| 0 <= j < after.len() && after[j]@ == s;
                if j < i {
                    assert(before[j] == after[j]);
                }
            }
            assert forall|s: Seq<char>| views(before).contains(s) implies views(after).contains(
                s,
            ) by {
                let j = choose|j: int| 0 <= j < before.len() && before[j]@ == s;
                assert(before[j] == after[j]);
            }
        }
        i = i + 1;
    }
    assert(patterns@.subrange(0, i as int) == patterns@);
    assert forall|p: Seq<char>| #[trigger] leaf_set(expr@).contains(p) implies builds(
        literal_source(p, cfg.word, cfg.line),
        options_of(*cfg),
    ) by {
        let j = choose|j: int| 0 <= j < patterns@.len() && patterns@[j]@ == p;
    }
    Ok(regexes)
}

/// Why an expression could not be parsed.
#[derive(Debug, Clone, Copy, PartialEq, Eq, Structural)]
pub enum ParseError {
    /// A `(` is never matched by `)`.
    UnclosedParenthesis,
    /// A sub-pattern position holds no characters.
    EmptyPattern,
}

pub open spec fn error_text(e: ParseError) -> Seq<char> {
    match e {
        ParseError::UnclosedParenthesis => "Expected closing parenthesis"@,
        ParseError::EmptyPattern => "Expected pattern"@,
    }
}

impl ParseError {
    /// The human-readable message of this error.
    pub fn message(&self) -> (r: String)
        ensures
            r@ == error_text(*self),
    {
        match self {
            ParseError::UnclosedParenthesis => "Expected closing parenthesis".to_string(),
            ParseError::EmptyPattern => "Expected pattern".to_string(),
        }
    }
}

/// First position at or after `i` that is not whitespace.
pub open spec fn skip_ws(s: Seq<char>, i: int) -> int
    decreases s.len() - i,
{
    if 0 <= i < s.len() && is_ws(s[i]) {
        skip_ws(s, i + 1)
    } else {
        i
    }
}

/// End of the literal run that starts at `i`: it stops before `&`, `|`, `)` or
/// whitespace, and a backslash takes the next character into the run.
pub open spec fn literal_end(s: Seq<char>, i: int, escaped: bool) -> int
    decreases s.len() - i,
{
    if i < 0 || i >= s.len() {
        i
    } else if escaped {
        literal_end(s, i + 1, false)
    } else if s[i] == '\\' {
        literal_end(s, i + 1, true)
    } else if s[i] == '&' || s[i] == '|' || s[i] == ')' || is_ws(s[i]) {
        i
    } else {
        literal_end(s, i + 1, false)
    }
}

pub type Parsed = Result<(ExprModel, int), ParseError>;

/// `or_expr := and_expr ('|' and_expr)*`, read from position `pos`.
pub open spec fn parse_or(s: Seq<char>, pos: int) -> Parsed
    decreases s.len() - pos, 3int,
{
    if pos < 0 || pos > s.len() {
        Err(ParseError::EmptyPattern)
    } else {
        match parse_and(s, pos) {
            Ok((l, p)) => if pos < p <= s.len() {
                or_tail(s, p, l)
            } else {
                Err(ParseError::EmptyPattern)
            },
            Err(e) => Err(e),
        }
    }
}

pub open spec fn or_tail(s: Seq<char>, pos: int, left: ExprModel) -> Parsed
    decreases s.len() - pos, 2int,
{
    let q = skip_ws(s, pos);
    if pos < 0 || q < pos || q > s.len() {
        Err(ParseError::EmptyPattern)
    } else if q < s.len() && s[q] == '|' {
        match parse_and(s, q + 1) {
            Ok((r, p)) => if q + 1 < p <= s.len() {
                or_tail(s, p, ExprModel::Or(Box::new(left), Box::new(r)))
            } else {
                Err(ParseError::EmptyPattern)
            },
            Err(e) => Err(e),
        }
    } else {
        Ok((left, q))
    }
}

/// `and_expr := primary ('&' primary)*`, read from position `pos`.
pub open spec fn parse_and(s: Seq<char>, pos: int) -> Parsed
    decreases s.len() - pos, 2int,
{
    if pos < 0 || pos > s.len() {
        Err(ParseError::EmptyPattern)
    } else {
        match parse_primary(s, pos) {
            Ok((l, p)) => if pos < p <= s.len() {
                and_tail(s, p, l)
            } else {
                Err(ParseError::EmptyPattern)
            },
            Err(e) => Err(e),
        }
    }
}

pub open spec fn and_tail(s: Seq<char>, pos: int, left: ExprModel) -> Parsed
    decreases s.len() - pos, 1int,
{
    let q = skip_ws(s, pos);
    if pos < 0 || q < pos || q > s.len() {
        Err(ParseError::EmptyPattern)
    } else if q < s.len() && s[q] == '&' {
        match parse_primary(s, q + 1) {
            Ok((r, p)) => if q + 1 < p <= s.len() {
                and_tail(s, p, ExprModel::And(Box::new(left), Box::new(r)))
            } else {
                Err(ParseError::EmptyPattern)
            },
            Err(e) => Err(e),
        }
    } else {
        Ok((left, q))
    }
}

/// `primary := '(' or_expr ')' | literal_run`, after optional whitespace.
pub open spec fn parse_primary(s: Seq<char>, pos: int) -> Parsed
    decreases s.len() - pos, 0int,
{
    let q = skip_ws(s, pos);
    if pos < 0 || pos > s.len() || q < pos || q > s.len() {
        Err(ParseError::EmptyPattern)
    } else if q < s.len() && s[q] == '(' {
        match parse_or(s, q + 1) {
            Ok((e, p)) => {
                let r = skip_ws(s, p);
                if 0 <= r < s.len() && s[r] == ')' {
                    Ok((e, r + 1))
                } else {
                    Err(ParseError::UnclosedParenthesis)
                }
            },
            Err(err) => Err(err),
        }
    } else {
        let e = literal_end(s, q, false);
        if e <= q {
            Err(ParseError::EmptyPattern)
        } else {
            Ok((ExprModel::Literal(s.subrange(q, e)), e))
        }
    }
}

fn ends_literal(c: char) -> (r: bool)
    ensures
        r == (c == '&' || c == '|' || c == ')' || is_ws(c)),
{
    c == '&' || c == '|' || c == ')' || is_whitespace(c)
}

/// What parsing a whole expression yields. Text after the first complete
/// expression that is no operator is not read (`a)b` and `a b` give `a`): the
/// grammar has no error for it.
pub open spec fn parse_spec(s: Seq<char>) -> Result<ExprModel, ParseError> {
    match parse_or(s, 0) {
        Ok((e, _)) => Ok(e),
        Err(err) => Err(err),
    }
}

proof fn lemma_skip_ws_bounds(s: Seq<char>, i: int)
    requires
        0 <= i <= s.len(),
    ensures
        i <= skip_ws(s, i) <= s.len(),
        skip_ws(s, i) < s.len() ==> !is_ws(s[skip_ws(s, i)]),
    decreases s.len() - i,
{
    if i < s.len() && is_ws(s[i]) {
        lemma_skip_ws_bounds(s, i + 1);
    }
}

proof fn lemma_skip_ws_idem(s: Seq<char>, i: int)
    requires
        0 <= i <= s.len(),
    ensures
        skip_ws(s, skip_ws(s, i)) == skip_ws(s, i),
    decreases s.len() - i,
{
    if i < s.len() && is_ws(s[i]) {
        lemma_skip_ws_idem(s, i + 1);
    }
}

/// Whitespace before an operator is skipped: a tail read after it is the same.
proof fn lemma_tail_after_ws(s: Seq<char>, pos: int, left: ExprModel)
    requires
        0 <= pos <= s.len(),
    ensures
        or_tail(s, skip_ws(s, pos), left) == or_tail(s, pos, left),
        and_tail(s, skip_ws(s, pos), left) == and_tail(s, pos, left),
        skip_ws(s, skip_ws(s, pos)) == skip_ws(s, pos),
{
    lemma_skip_ws_bounds(s, pos);
    lemma_skip_ws_idem(s, pos);
}

proof fn lemma_literal_end_bounds(s: Seq<char>, i: int, escaped: bool)
    requires
        0 <= i <= s.len(),
    ensures
        i <= literal_end(s, i, escaped) <= s.len(),
    decreases s.len() - i,
{
    if i < s.len() {
        if escaped {
            lemma_literal_end_bounds(s, i + 1, false);
        } else if s[i] == '\\' {
            lemma_literal_end_bounds(s, i + 1, true);
        } else if !(s[i] == '&' || s[i] == '|' || s[i] == ')' || is_ws(s[i])) {
            lemma_literal_end_bounds(s, i + 1, false);
        }
    }
}

/// Parse a Boolean pattern expression.
pub fn parse_boolean_expression(input: &str) -> (r: Result<BooleanExpr, String>)
    ensures
        match parse_spec(input@) {
            Ok(e) => r is Ok && r->Ok_0@ == e,
            Err(err) => r is Err && r->Err_0@ == error_text(err),
        },
{
    let mut parser = BooleanParser::new(input);
    match parser.parse_or_expression() {
        Ok(e) => Ok(e),
        Err(err) => Err(err.message()),
    }
}

struct BooleanParser {
    input: Vec<char>,
    pos: usize,
}

impl BooleanParser {
    fn new(input: &str) -> (r: Self)
        ensures
            r.input@ == input@,
            r.pos == 0,
    {
        BooleanParser { input: chars_of(input), pos: 0 }
    }

    fn current_char(&self) -> (r: Option<char>)
        ensures
            r == (if self.pos < self.input@.len() {
                Some(self.input@[self.pos as int])
            } else {
                None::<char>
            }),
    {
        if self.pos < self.input.len() {
            Some(self.input[self.pos])
        } else {
            None
        }
    }

    fn at(&self, c: char) -> (r: bool)
        ensures
            r == (self.pos < self.input@.len() && self.input@[self.pos as int] == c),
    {
        match self.current_char() {
            Some(d) => d == c,
            None => false,
        }
    }

    fn advance(&mut self) -> (r: Option<char>)
        requires
            old(self).pos < old(self).input@.len(),
        ensures
            final(self).input == old(self).input,
            final(self).pos == old(self).pos + 1,
            r == Some(old(self).input@[old(self).pos as int]),
    {
        let ch = self.current_char();
        let n = self.input.len();
        assert(self.pos < n);
        self.pos = self.pos + 1;
        ch
    }

    fn skip_whitespace(&mut self)
        requires
            old(self).pos <= old(self).input@.len(),
        ensures
            final(self).input == old(self).input,
            final(self).pos == skip_ws(old(self).input@, old(self).pos as int),
    {
        let ghost start = self.pos as int;
        proof {
            lemma_skip_ws_bounds(self.input@, start);
        }
        while self.pos < self.input.len() && is_whitespace(self.input[self.pos])
            invariant
                self.input == old(self).input,
                start <= self.pos <= self.input@.len(),
                skip_ws(self.input@, start) == skip_ws(self.input@, self.pos as int),
            decreases self.input@.len() - self.pos,
        {
            self.advance();
        }
    }

    fn parse_or_expression(&mut self) -> (r: Result<BooleanExpr, ParseError>)
        requires
            old(self).pos <= old(self).input@.len(),
        ensures
            final(self).input == old(self).input,
            match parse_or(old(self).input@, old(self).pos as int) {
                Ok((e, p)) => r is Ok && r->Ok_0@ == e && final(self).pos == p && old(self).pos
                    < p <= old(self).input@.len(),
                Err(err) => r == Err::<BooleanExpr, ParseError>(err),
            },
        decreases old(self).input@.len() - old(self).pos, 3int,
    {
        let ghost s = self.input@;
        let ghost pos0 = self.pos as int;
        let mut left = match self.parse_and_expression() {
            Ok(e) => e,
            Err(err) => return Err(err),
        };
        proof {
            lemma_skip_ws_bounds(s, self.pos as int);
            lemma_tail_after_ws(s, self.pos as int, left@);
        }
        self.skip_whitespace();
        while self.at('|')
            invariant
                self.input == old(self).input,
                self.input@ == s,
                s == old(self).input@,
                pos0 == old(self).pos,
                pos0 < self.pos <= s.len(),
                skip_ws(s, self.pos as int) == self.pos,
                parse_or(s, pos0) == or_tail(s, self.pos as int, left@),
            decreases s.len() - self.pos,
        {
            self.advance();
            let right = match self.parse_and_expression() {
                Ok(e) => e,
                Err(err) => return Err(err),
            };
            left = BooleanExpr::Or(Box::new(left), Box::new(right));
            proof {
                lemma_skip_ws_bounds(s, self.pos as int);
                lemma_tail_after_ws(s, self.pos as int, left@);
            }
            self.skip_whitespace();
        }
        Ok(left)
    }

    fn parse_and_expression(&mut self) -> (r: Result<BooleanExpr, ParseError>)
        requires
            old(self).pos <= old(self).input@.len(),
        ensures
            final(self).input == old(self).input,
            match parse_and(old(self).input@, old(self).pos as int) {
                Ok((e, p)) => r is Ok && r->Ok_0@ == e && final(self).pos == p && old(self).pos
                    < p <= old(self).input@.len(),
                Err(err) => r == Err::<BooleanExpr, ParseError>(err),
            },
        decreases old(self).input@.len() - old(self).pos, 2int,
    {
        let ghost s = self.input@;
        let ghost pos0 = self.pos as int;
        let mut left = match self.parse_primary_expression() {
            Ok(e) => e,
            Err(err) => return Err(err),
        };
        proof {
            lemma_skip_ws_bounds(s, self.pos as int);
            lemma_tail_after_ws(s, self.pos as int, left@);
        }
        self.skip_whitespace();
        while self.at('&')
            invariant
                self.input == old(self).input,
                self.input@ == s,
                s == old(self).input@,
                pos0 == old(self).pos,
                pos0 < self.pos <= s.len(),
                skip_ws(s, self.pos as int) == self.pos,
                parse_and(s, pos0) == and_tail(s, self.pos as int, left@),
            decreases s.len() - self.pos,
        {
            self.advance();
            let right = match self.parse_primary_expression() {
                Ok(e) => e,
                Err(err) => return Err(err),
            };
            left = BooleanExpr::And(Box::new(left), Box::new(right));
            proof {
                lemma_skip_ws_bounds(s, self.pos as int);
                lemma_tail_after_ws(s, self.pos as int, left@);
            }
            self.skip_whitespace();
        }
        Ok(left)
    }

    fn parse_primary_expression(&mut self) -> (r: Result<BooleanExpr, ParseError>)
        requires
            old(self).pos <= old(self).input@.len(),
        ensures
            final(self).input == old(self).input,
            match parse_primary(old(self).input@, old(self).pos as int) {
                Ok((e, p)) => r is Ok && r->Ok_0@ == e && final(self).pos == p && old(self).pos
                    < p <= old(self).input@.len(),
                Err(err) => r == Err::<BooleanExpr, ParseError>(err),
            },
        decreases old(self).input@.len() - old(self).pos, 0int,
    {
        let ghost s = self.input@;
        let ghost pos0 = self.pos as int;
        proof {
            lemma_skip_ws_bounds(s, pos0);
        }
        self.skip_whitespace();
        if self.at('(') {
            self.advance();
            let expr = match self.parse_or_expression() {
                Ok(e) => e,
                Err(err) => return Err(err),
            };
            proof {
                lemma_skip_ws_bounds(s, self.pos as int);
            }
            self.skip_whitespace();
            if !self.at(')') {
                return Err(ParseError::UnclosedParenthesis);
            }
            self.advance();
            Ok(expr)
        } else {
            let start = self.pos;
            let mut escaped = false;
            proof {
                lemma_literal_end_bounds(s, start as int, false);
            }
            while self.pos < self.input.len() && (escaped || !ends_literal(self.input[self.pos]))
                invariant
                    self.input == old(self).input,
                    self.input@ == s,
                    s == old(self).input@,
                    pos0 == old(self).pos,
                    start as int == skip_ws(s, pos0),
                    start <= self.pos <= s.len(),
                    literal_end(s, start as int, false) == literal_end(
                        s,
                        self.pos as int,
                        escaped,
                    ),
                    escaped ==> self.pos > start,
                decreases s.len() - self.pos,
            {
                let ch = self.input[self.pos];
                if escaped {
                    escaped = false;
                } else if ch == '\\' {
                    escaped = true;
                }
                self.advance();
            }
            if self.pos == start {
                return Err(ParseError::EmptyPattern);
            }
            let pattern = string_of(&self.input.as_slice()[start..self.pos]);
            Ok(BooleanExpr::Pattern(pattern))
        }
    }
}

} // verus!

verus! {

proof fn lemma_plain_run_to_end(s: Seq<char>, i: int)
    requires
        0 <= i <= s.len(),
        forall|j: int|
            0 <= j < s.len() ==> s[j] != '&' && s[j] != '|' && s[j] != ')' && s[j] != '\\'
                && !is_ws(#[trigger] s[j]),
    ensures
        literal_end(s, i, false) == s.len(),
    decreases s.len() - i,
{
    if i < s.len() {
        lemma_plain_run_to_end(s, i + 1);
    }
}

/// A non-empty expression without operators, parentheses, whitespace or
/// backslashes parses to a single literal holding the whole input.
pub proof fn law_plain_literal(s: Seq<char>)
    requires
        s.len() > 0,
        forall|j: int|
            0 <= j < s.len() ==> s[j] != '&' && s[j] != '|' && s[j] != '(' && s[j] != ')' && s[j]
                != '\\' && !is_ws(#[trigger] s[j]),
    ensures
        parse_spec(s) == Ok::<ExprModel, ParseError>(ExprModel::Literal(s)),
{
    lemma_plain_run_to_end(s, 0);
    assert(!is_ws(s[0]));
    assert(skip_ws(s, 0) == 0);
    assert(s.subrange(0, s.len() as int) == s);
    assert(parse_primary(s, 0) == Ok::<(ExprModel, int), ParseError>((ExprModel::Literal(s), s.len() as int)));
    assert(and_tail(s, s.len() as int, ExprModel::Literal(s)) == Ok::<(ExprModel, int), ParseError>((ExprModel::Literal(s), s.len() as int)));
    assert(parse_and(s, 0) == Ok::<(ExprModel, int), ParseError>((ExprModel::Literal(s), s.len() as int)));
    assert(or_tail(s, s.len() as int, ExprModel::Literal(s)) == Ok::<(ExprModel, int), ParseError>((ExprModel::Literal(s), s.len() as int)));
}

/// An expression that opens with `(` and holds no `)` fails to parse; when
/// what follows the `(` is itself a well-formed expression, the failure is the
/// unclosed parenthesis.
pub proof fn law_unclosed_parenthesis(s: Seq<char>)
    requires
        s.len() > 0,
        s[0] == '(',
        forall|j: int| 0 <= j < s.len() ==> #[trigger] s[j] != ')',
    ensures
        parse_spec(s) is Err,
        parse_or(s, 1) is Ok ==> parse_spec(s) == Err::<ExprModel, ParseError>(
            ParseError::UnclosedParenthesis,
        ),
{
    assert(skip_ws(s, 0) == 0);
    match parse_or(s, 1) {
        Ok((e, p)) => {
            let r = skip_ws(s, p);
            if 0 <= r < s.len() {
                assert(s[r] != ')');
            }
            assert(parse_primary(s, 0) == Err::<(ExprModel, int), ParseError>(
                ParseError::UnclosedParenthesis,
            ));
        },
        Err(_) => {},
    }
    assert(parse_primary(s, 0) is Err);
    assert(parse_and(s, 0) is Err);
}

/// An expression that opens with `(` whose inner expression runs to the end of
/// the input, so that no `)` can follow, fails with the unclosed-parenthesis
/// error: `(foo&bar`, `(foo&(bar|baz)`.
pub proof fn law_open_parenthesis_at_end(s: Seq<char>)
    requires
        s.len() > 0,
        s[0] == '(',
        parse_or(s, 1) matches Ok((e, p)) && skip_ws(s, p) == s.len(),
    ensures
        parse_spec(s) == Err::<ExprModel, ParseError>(ParseError::UnclosedParenthesis),
{
    assert(skip_ws(s, 0) == 0);
    assert(parse_primary(s, 0) == Err::<(ExprModel, int), ParseError>(
        ParseError::UnclosedParenthesis,
    ));
}

} // verus!
