//! Searching one source: every line is tested against the configured patterns,
//! and the selected lines are emitted with their context, or counted.

use vstd::prelude::*;
use crate::boolean_parser::{eval, leaf_set, parse_spec, BooleanExpr, ExprModel, ParseError, error_text};
use crate::config::{status_from, status_of, Config, RunResult};
use crate::matcher::{build_error, builds, hits, match_spans, MatchOptions, Matcher};
use crate::output::{append_formatted_line, formatted_line};
use crate::regex_utils::{
    build_and_matchers, build_regex, display_source, highlight_segments, is_complex,
    is_highlight, joined, leaves_build, literal_source, map_fits, options_of,
    parse_boolean_if_complex, split_spec, term_source, leaf_error, term_error,
};
use crate::text::{decimal, push_char, push_decimal, push_str, read_to_lines, split_lines, string_seq_views};
use crate::window::{is_window_output, select_lines};
use vstd::hash_map::StringHashMap;

verus! {

/// Whether a Boolean expression holds of `text` when each literal is the
/// regular expression that `literal_source` makes of it.
pub open spec fn literals_hold(
    e: ExprModel,
    word: bool,
    line: bool,
    o: MatchOptions,
    text: Seq<char>,
) -> bool
    decreases e,
{
    match e {
        ExprModel::Literal(p) => hits(literal_source(p, word, line), o, text),
        ExprModel::And(l, r) => literals_hold(*l, word, line, o, text) && literals_hold(
            *r,
            word,
            line,
            o,
            text,
        ),
        ExprModel::Or(l, r) => literals_hold(*l, word, line, o, text) || literals_hold(
            *r,
            word,
            line,
            o,
            text,
        ),
    }
}

/// Whether the configured patterns match `text` (before inversion).
pub open spec fn line_matches(cfg: Config, text: Seq<char>) -> bool {
    let raw = joined(cfg.patterns@);
    let o = options_of(cfg);
    if is_complex(raw) {
        match parse_spec(raw) {
            Ok(e) => literals_hold(e, cfg.word, cfg.line, o, text),
            Err(_) => false,
        }
    } else if raw.contains('&') {
        let parts = split_spec(raw, '&');
        forall|i: int| 0 <= i < parts.len() ==> hits(#[trigger] term_source(parts[i], cfg.word), o, text)
    } else {
        hits(display_source(raw, cfg.word, cfg.line), o, text)
    }
}

/// Whether the configuration yields a working search: some pattern is given,
/// a Boolean expression parses, and every regular expression it needs compiles.
pub open spec fn setup_ok(cfg: Config) -> bool {
    let raw = joined(cfg.patterns@);
    let o = options_of(cfg);
    &&& cfg.patterns@.len() > 0
    &&& is_complex(raw) ==> parse_spec(raw) is Ok && leaves_build(cfg, parse_spec(raw)->Ok_0)
    &&& builds(display_source(raw, cfg.word, cfg.line), o)
    &&& !is_complex(raw) && raw.contains('&') ==> forall|i: int|
        0 <= i < split_spec(raw, '&').len() ==> builds(
            #[trigger] term_source(split_spec(raw, '&')[i], cfg.word),
            o,
        )
}

/// `m` is the message a failed setup reports: the missing pattern, the parse
/// error, or the engine's message for a regular expression that does not
/// compile (a literal of the expression, then the display matcher, then the
/// first `&`-separated term).
pub open spec fn setup_error(cfg: Config, m: Seq<char>) -> bool {
    let raw = joined(cfg.patterns@);
    let o = options_of(cfg);
    let display = display_source(raw, cfg.word, cfg.line);
    if cfg.patterns@.len() == 0 {
        m == "no pattern provided"@
    } else if is_complex(raw) {
        match parse_spec(raw) {
            Err(pe) => m == "Boolean expression parse error: "@ + error_text(pe),
            Ok(tree) => if !leaves_build(cfg, tree) {
                leaf_error(cfg, tree, m)
            } else {
                m == build_error(display, o)
            },
        }
    } else if !builds(display, o) {
        m == build_error(display, o)
    } else {
        term_error(cfg, m)
    }
}

/// How a line is tested, chosen once per search.
pub enum LineTest {
    /// A Boolean expression with one matcher per literal.
    Tree(BooleanExpr, StringHashMap<Matcher>),
    /// Every `&`-separated term must match.
    AllOf(Vec<Matcher>),
    /// The display matcher decides alone.
    Plain,
}

/// A ready search: the line test and the matcher that finds spans to highlight.
pub struct Searcher {
    test: LineTest,
    display: Matcher,
    cfg: Ghost<Config>,
}

proof fn lemma_eval_literals(e: ExprModel, m: Map<Seq<char>, Matcher>, cfg: Config, text: Seq<char>)
    requires
        forall|p: Seq<char>|
            #[trigger] leaf_set(e).contains(p) ==> m.contains_key(p) && m[p].pattern()
                == literal_source(p, cfg.word, cfg.line) && m[p].options() == options_of(cfg),
    ensures
        eval(e, m, text) == literals_hold(e, cfg.word, cfg.line, options_of(cfg), text),
    decreases e,
{
    match e {
        ExprModel::Literal(p) => {
            assert(leaf_set(e).contains(p));
        },
        ExprModel::And(l, r) => {
            assert forall|p: Seq<char>| #[trigger] leaf_set(*l).contains(p) implies leaf_set(e).contains(p) by {}
            assert forall|p: Seq<char>| #[trigger] leaf_set(*r).contains(p) implies leaf_set(e).contains(p) by {}
            lemma_eval_literals(*l, m, cfg, text);
            lemma_eval_literals(*r, m, cfg, text);
        },
        ExprModel::Or(l, r) => {
            assert forall|p: Seq<char>| #[trigger] leaf_set(*l).contains(p) implies leaf_set(e).contains(p) by {}
            assert forall|p: Seq<char>| #[trigger] leaf_set(*r).contains(p) implies leaf_set(e).contains(p) by {}
            lemma_eval_literals(*l, m, cfg, text);
            lemma_eval_literals(*r, m, cfg, text);
        },
    }
}

impl Searcher {
    /// The configuration this searcher was made for.
    pub closed spec fn config(&self) -> Config {
        self.cfg@
    }

    pub closed spec fn wf(&self) -> bool {
        let cfg = self.cfg@;
        let raw = joined(cfg.patterns@);
        &&& self.display.pattern() == display_source(raw, cfg.word, cfg.line)
        &&& self.display.options() == options_of(cfg)
        &&& match &self.test {
            LineTest::Tree(e, m) => is_complex(raw) && parse_spec(raw) == Ok::<
                ExprModel,
                ParseError,
            >(e@) && map_fits(cfg, e@, m@),
            LineTest::AllOf(v) => {
                let parts = split_spec(raw, '&');
                &&& !is_complex(raw) && raw.contains('&')
                &&& v@.len() == parts.len()
                &&& forall|i: int|
                    0 <= i < parts.len() ==> (#[trigger] v@[i]).pattern() == term_source(
                        parts[i],
                        cfg.word,
                    ) && v@[i].options() == options_of(cfg)
            },
            LineTest::Plain => !is_complex(raw) && !raw.contains('&'),
        }
    }

    /// Prepare a search for `cfg`.
    pub fn new(cfg: &Config) -> (r: Result<Searcher, String>)
        ensures
            r is Ok <==> setup_ok(*cfg),
            r matches Ok(s) ==> s.wf() && s.config() == *cfg,
            r matches Err(e) ==> setup_error(*cfg, e@),
            cfg.patterns@.len() == 0 ==> (r matches Err(e) && e@ == "no pattern provided"@),
            cfg.patterns@.len() > 0 && is_complex(joined(cfg.patterns@)) && parse_spec(
                joined(cfg.patterns@),
            ) is Err ==> (r matches Err(e) && e@ == "Boolean expression parse error: "@
                + error_text(parse_spec(joined(cfg.patterns@))->Err_0)),
    {
        if cfg.patterns.len() == 0 {
            return Err("no pattern provided".to_string());
        }
        let tree = match parse_boolean_if_complex(cfg) {
            Ok(t) => t,
            Err(e) => return Err(e),
        };
        let display = match build_regex(cfg) {
            Ok(m) => m,
            Err(e) => return Err(e),
        };
        let test = match tree {
            Some((e, m)) => LineTest::Tree(e, m),
            None => match build_and_matchers(cfg) {
                Ok(Some(v)) => LineTest::AllOf(v),
                Ok(None) => LineTest::Plain,
                Err(e) => return Err(e),
            },
        };
        Ok(Searcher { test, display, cfg: Ghost(*cfg) })
    }

    /// The matcher whose spans are highlighted.
    pub fn display(&self) -> (r: &Matcher)
        requires
            self.wf(),
        ensures
            r.pattern() == display_source(
                joined(self.config().patterns@),
                self.config().word,
                self.config().line,
            ),
            r.options() == options_of(self.config()),
    {
        &self.display
    }

    /// Whether the configured patterns match `line` (before inversion).
    pub fn is_match(&self, line: &str) -> (r: bool)
        requires
            self.wf(),
        ensures
            r == line_matches(self.config(), line@),
    {
        let ghost cfg = self.cfg@;
        match &self.test {
            LineTest::Tree(e, m) => {
                proof {
                    lemma_eval_literals(e@, m@, cfg, line@);
                }
                e.matches(line, m)
            },
            LineTest::AllOf(v) => {
                let ghost parts = split_spec(joined(cfg.patterns@), '&');
                let mut i: usize = 0;
                while i < v.len()
                    invariant
                        self.wf(),
                        cfg == self.cfg@,
                        self.test == LineTest::AllOf(*v),
                        parts == split_spec(joined(cfg.patterns@), '&'),
                        v@.len() == parts.len(),
                        i <= v@.len(),
                        forall|j: int|
                            0 <= j < i ==> hits(
                                #[trigger] term_source(parts[j], cfg.word),
                                options_of(cfg),
                                line@,
                            ),
                    decreases v@.len() - i,
                {
                    assert(v@[i as int].pattern() == term_source(parts[i as int], cfg.word));
                    if !v[i].is_match(line) {
                        return false;
                    }
                    i = i + 1;
                }
                true
            },
            LineTest::Plain => self.display.is_match(line),
        }
    }
}

} // verus!

verus! {

/// The per-line decisions of a search: a line is selected when the patterns
/// match it, or, with `invert`, when they do not.
pub open spec fn selections(cfg: Config, lines: Seq<Seq<char>>) -> Seq<bool> {
    Seq::new(lines.len(), |i: int| line_matches(cfg, lines[i]) != cfg.invert)
}

pub open spec fn count_true(s: Seq<bool>) -> nat
    decreases s.len(),
{
    if s.len() == 0 {
        0
    } else {
        count_true(s.drop_last()) + if s.last() {
            1nat
        } else {
            0nat
        }
    }
}

pub open spec fn any_true(s: Seq<bool>) -> bool {
    exists|i: int| 0 <= i < s.len() && s[i]
}

/// The single line that count mode prints.
pub open spec fn count_text(name: Option<Seq<char>>, n: nat) -> Seq<char> {
    match name {
        Some(nm) => nm.push(':') + decimal(n).push('\n'),
        None => decimal(n).push('\n'),
    }
}

pub open spec fn name_view(name: Option<&str>) -> Option<Seq<char>> {
    match name {
        Some(s) => Some(s@),
        None => None,
    }
}

/// The emitted lines `w`, shown as `ds`, one formatted line each.
pub open spec fn render(w: Seq<usize>, ds: Seq<Seq<char>>) -> Seq<char>
    decreases w.len(),
{
    if w.len() == 0 || ds.len() < w.len() {
        Seq::empty()
    } else {
        render(w.drop_last(), ds.subrange(0, w.len() - 1)) + formatted_line(
            w.last() as int,
            ds[w.len() - 1],
        )
    }
}

/// How an emitted line is shown: a selected line has its match spans
/// highlighted when colour is on and whole-line matching is off; every other
/// line is shown as it is.
pub open spec fn shown(cfg: Config, line: Seq<char>, selected: bool, d: Seq<char>) -> bool {
    if selected && cfg.color && !cfg.line {
        is_highlight(
            line,
            match_spans(
                display_source(joined(cfg.patterns@), cfg.word, cfg.line),
                options_of(cfg),
                line,
            ),
            d,
        )
    } else {
        d == line
    }
}

/// `out` is what a search of `lines` prints.
pub open spec fn search_output(
    cfg: Config,
    lines: Seq<Seq<char>>,
    name: Option<Seq<char>>,
    out: Seq<char>,
) -> bool {
    let sel = selections(cfg, lines);
    if cfg.quiet {
        out == Seq::<char>::empty()
    } else if cfg.count {
        out == count_text(name, count_true(sel))
    } else {
        exists|w: Seq<usize>, ds: Seq<Seq<char>>|
            #![trigger render(w, ds)]
            {
                &&& is_window_output(sel, cfg.context.before as int, cfg.context.after as int, w)
                &&& ds.len() == w.len()
                &&& forall|k: int|
                    0 <= k < w.len() ==> shown(cfg, lines[w[k] as int], sel[w[k] as int], #[trigger] ds[k])
                &&& out == render(w, ds)
            }
    }
}

/// Search the lines of `text`.
///
/// `name` is the source's name; in count mode it prefixes the count.
pub fn run_on_reader(cfg: &Config, text: &str, name: Option<&str>) -> (r: Result<RunResult, String>)
    ensures
        r is Ok <==> setup_ok(*cfg),
        cfg.patterns@.len() == 0 ==> (r matches Err(e) && e@ == "no pattern provided"@),
        cfg.patterns@.len() > 0 && is_complex(joined(cfg.patterns@)) && parse_spec(
            joined(cfg.patterns@),
        ) is Err ==> (r matches Err(e) && e@ == "Boolean expression parse error: "@ + error_text(
            parse_spec(joined(cfg.patterns@))->Err_0,
        )),
        r matches Err(e) ==> setup_error(*cfg, e@),
        r matches Ok(res) ==> res.status == status_of(
            any_true(selections(*cfg, split_lines(text@))),
        ) && search_output(*cfg, split_lines(text@), name_view(name), res.output@),
{
    let searcher = match Searcher::new(cfg) {
        Ok(s) => s,
        Err(e) => return Err(e),
    };
    let lines = read_to_lines(text);
    let ghost ls = split_lines(text@);
    let ghost sel = selections(*cfg, ls);
    let mut decisions: Vec<bool> = Vec::new();
    let mut match_count: usize = 0;
    let mut matched_any = false;
    let mut i: usize = 0;
    while i < lines.len()
        invariant
            searcher.wf(),
            searcher.config() == *cfg,
            string_seq_views(lines@) == ls,
            sel == selections(*cfg, ls),
            i <= lines@.len(),
            decisions@ == sel.subrange(0, i as int),
            match_count == count_true(sel.subrange(0, i as int)),
            match_count <= i,
            matched_any == any_true(sel.subrange(0, i as int)),
        decreases lines@.len() - i,
    {
        let m = searcher.is_match(lines[i].as_str());
        let selected = m != cfg.invert;
        assert(lines@[i as int]@ == ls[i as int]);
        let ghost prev = sel.subrange(0, i as int);
        decisions.push(selected);
        if selected {
            match_count = match_count + 1;
            matched_any = true;
        }
        proof {
            let next = sel.subrange(0, i + 1);
            assert(next.drop_last() == prev);
            if selected {
                assert(next[i as int]);
            } else {
                assert forall|j: int| 0 <= j < next.len() && next[j] implies prev[j] by {}
            }
        }
        i = i + 1;
    }
    assert(sel.subrange(0, i as int) == sel);
    let mut out = String::new();
    if cfg.quiet {
    } else if cfg.count {
        match name {
            Some(nm) => {
                push_str(&mut out, nm);
                push_char(&mut out, ':');
            },
            None => {},
        }
        push_decimal(&mut out, match_count);
        push_char(&mut out, '\n');
        assert(out@ =~= count_text(name_view(name), count_true(sel)));
    } else {
        let w = select_lines(cfg.context.before, cfg.context.after, &decisions);
        let nlines = lines.len();
        let ghost mut ds: Seq<Seq<char>> = Seq::empty();
        let mut k: usize = 0;
        while k < w.len()
            invariant
                searcher.wf(),
                searcher.config() == *cfg,
                string_seq_views(lines@) == ls,
                sel == selections(*cfg, ls),
                decisions@ == sel,
                lines@.len() == sel.len(),
                nlines == lines@.len(),
                is_window_output(sel, cfg.context.before as int, cfg.context.after as int, w@),
                k <= w@.len(),
                ds.len() == k,
                forall|j: int|
                    0 <= j < k ==> shown(*cfg, ls[w@[j] as int], sel[w@[j] as int], #[trigger] ds[j]),
                out@ == render(w@.subrange(0, k as int), ds),
            decreases w@.len() - k,
        {
            let idx = w[k];
            assert(idx < nlines);
            let line = lines[idx].as_str();
            assert(line@ == ls[idx as int]);
            let ghost d: Seq<char>;
            if decisions[idx] && cfg.color && !cfg.line {
                let hl = highlight_segments(line, searcher.display());
                append_formatted_line(&mut out, name, idx, hl.as_str(), true, cfg.line);
                proof {
                    d = hl@;
                }
            } else {
                append_formatted_line(&mut out, name, idx, line, decisions[idx], cfg.line);
                proof {
                    d = line@;
                }
            }
            proof {
                let ds0 = ds;
                ds = ds.push(d);
                let wk = w@.subrange(0, k + 1);
                assert(wk.drop_last() == w@.subrange(0, k as int));
                assert(ds.subrange(0, k as int) == ds0);
            }
            k = k + 1;
        }
        assert(w@.subrange(0, k as int) == w@);
        assert(out@ == render(w@, ds));
    }
    Ok(RunResult { output: out, status: status_from(matched_any) })
}

} // verus!

verus! {

/// Search the only remaining file of a run: in count mode the count carries
/// no name, as for a single file searched alone.
pub fn search_single_file(cfg: &Config, name: &str, text: &str) -> (r: Result<RunResult, String>)
    ensures
        r is Ok <==> setup_ok(*cfg),
        r matches Ok(res) ==> res.status == status_of(
            any_true(selections(*cfg, split_lines(text@))),
        ) && search_output(
            *cfg,
            split_lines(text@),
            if cfg.count {
                None
            } else {
                Some(name@)
            },
            res.output@,
        ),
{
    if cfg.count {
        run_on_reader(cfg, text, None)
    } else {
        run_on_reader(cfg, text, Some(name))
    }
}

} // verus!

verus! {

/// Searching the same lines twice gives byte-identical output when no span is
/// highlighted (colour off, or whole-line matching).
pub proof fn law_search_deterministic(
    cfg: Config,
    lines: Seq<Seq<char>>,
    name: Option<Seq<char>>,
    out1: Seq<char>,
    out2: Seq<char>,
)
    requires
        search_output(cfg, lines, name, out1),
        search_output(cfg, lines, name, out2),
        !cfg.color || cfg.line,
    ensures
        out1 == out2,
{
    let sel = selections(cfg, lines);
    if !cfg.quiet && !cfg.count {
        let b = cfg.context.before as int;
        let a = cfg.context.after as int;
        let (w1, ds1) = choose|w: Seq<usize>, ds: Seq<Seq<char>>|
            #![trigger render(w, ds)]
            {
                &&& is_window_output(sel, b, a, w)
                &&& ds.len() == w.len()
                &&& forall|k: int|
                    0 <= k < w.len() ==> shown(cfg, lines[w[k] as int], sel[w[k] as int], #[trigger] ds[k])
                &&& out1 == render(w, ds)
            };
        let (w2, ds2) = choose|w: Seq<usize>, ds: Seq<Seq<char>>|
            #![trigger render(w, ds)]
            {
                &&& is_window_output(sel, b, a, w)
                &&& ds.len() == w.len()
                &&& forall|k: int|
                    0 <= k < w.len() ==> shown(cfg, lines[w[k] as int], sel[w[k] as int], #[trigger] ds[k])
                &&& out2 == render(w, ds)
            };
        crate::window::law_window_output_unique(sel, b, a, w1, w2);
        assert forall|k: int| 0 <= k < ds1.len() implies ds1[k] == ds2[k] by {
            assert(shown(cfg, lines[w1[k] as int], sel[w1[k] as int], ds1[k]));
            assert(shown(cfg, lines[w2[k] as int], sel[w2[k] as int], ds2[k]));
        }
        assert(ds1 =~= ds2);
    }
}

/// Quiet mode prints nothing whatever the other flags are, and the lines it
/// selects, which decide the status, are those selected without it.
pub proof fn law_quiet_prints_nothing(
    cfg: Config,
    lines: Seq<Seq<char>>,
    name: Option<Seq<char>>,
    out: Seq<char>,
)
    requires
        cfg.quiet,
        search_output(cfg, lines, name, out),
    ensures
        out == Seq::<char>::empty(),
        selections(cfg, lines) == selections(Config { quiet: false, ..cfg }, lines),
{
    let loud = Config { quiet: false, ..cfg };
    assert(joined(loud.patterns@) == joined(cfg.patterns@));
    assert(options_of(loud) == options_of(cfg));
    assert(loud.patterns == cfg.patterns && loud.word == cfg.word && loud.line == cfg.line
        && loud.invert == cfg.invert);
    assert forall|i: int| 0 <= i < lines.len() implies line_matches(cfg, lines[i]) == line_matches(
        loud,
        lines[i],
    ) by {}
    assert(selections(cfg, lines) =~= selections(loud, lines));
}

/// Count mode prints the number of selected lines, and the context settings
/// do not change it.
pub proof fn law_count_ignores_context(
    cfg: Config,
    lines: Seq<Seq<char>>,
    name: Option<Seq<char>>,
    out: Seq<char>,
    context: crate::config::Context,
)
    requires
        cfg.count,
        !cfg.quiet,
        search_output(cfg, lines, name, out),
    ensures
        out == count_text(name, count_true(selections(cfg, lines))),
        search_output(Config { context, ..cfg }, lines, name, out),
{
    let other = Config { context, ..cfg };
    assert(other.patterns == cfg.patterns && other.word == cfg.word && other.line == cfg.line
        && other.invert == cfg.invert && other.quiet == cfg.quiet && other.count == cfg.count);
    assert(joined(other.patterns@) == joined(cfg.patterns@));
    assert(options_of(other) == options_of(cfg));
    assert forall|i: int| 0 <= i < lines.len() implies line_matches(cfg, lines[i]) == line_matches(
        other,
        lines[i],
    ) by {}
    assert(selections(cfg, lines) =~= selections(other, lines));
}

} // verus!
