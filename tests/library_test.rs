use rgrep::{run_on_reader, Config, ExitStatus};

fn cfg(patterns: &[&str]) -> Config {
    Config {
        patterns: patterns.iter().map(|s| s.to_string()).collect(),
        ..Default::default()
    }
}

#[test]
fn case_insensitive_matching() {
    let mut cfg = Config::default();
    cfg.patterns = vec!["hello".to_string()];
    cfg.case_insensitive = true;
    cfg.color = false; // disable color to assert on raw content
    let data = "HeLLo world\nbye";
    let res = run_on_reader(&cfg, data, None).unwrap();
    assert_eq!(res.status, ExitStatus::MatchFound);
    assert!(res.output.contains("HeLLo world"));
}

#[test]
fn basic_match() {
    let data = "hello\nworld\nhello world\n";
    let res = run_on_reader(&cfg(&["hello"]), data, None).unwrap();
    assert_eq!(res.status as i32, ExitStatus::MatchFound as i32);
    assert!(res.output.contains("hello"));
    assert!(!res.output.contains("world\nworld"));
}

#[test]
fn invert_match() {
    let mut c = cfg(&["hello"]);
    c.invert = true;
    let data = "hello\nworld\n";
    let res = run_on_reader(&c, data, None).unwrap();
    assert!(res.output.contains("world"));
    assert!(!res.output.contains("hello"));
}

#[test]
fn quiet_mode() {
    let mut c = cfg(&["world"]);
    c.quiet = true;
    let data = "hello\nworld\n";
    let res = run_on_reader(&c, data, None).unwrap();
    assert_eq!(res.output, "");
    assert_eq!(res.status as i32, ExitStatus::MatchFound as i32);
}

#[test]
fn pattern_expression_or() {
    let c = cfg(&["foo|bar"]);
    let data = "x\nbar\ny\n";
    let res = run_on_reader(&c, data, None).unwrap();
    assert!(res.output.contains("bar"));
}

#[test]
fn word_match() {
    let mut c = cfg(&["he"]);
    c.word = true;
    let data = "he helo she\n";
    let res = run_on_reader(&c, data, None).unwrap();
    let lines: Vec<_> = res.output.lines().collect();
    // only first token and standalone 'he' should match, not 'helo'
    assert_eq!(lines.len(), 1);
}

#[test]
fn line_match() {
    let mut c = cfg(&["hello world"]);
    c.line = true;
    let data = "hello\nhello world\nworld\n";
    let res = run_on_reader(&c, data, None).unwrap();
    let lines: Vec<_> = res.output.lines().collect();
    assert_eq!(lines, vec!["2:hello world"]);
}

#[test]
fn context_before_after() {
    let mut c = cfg(&["b"]);
    c.context.before = 1;
    c.context.after = 1;
    c.color = false;
    let data = "a\nb\nc\n";
    let res = run_on_reader(&c, data, None).unwrap();
    let out = res.output;
    // Expect a, b, c each on their own lines with line numbers
    let lines: Vec<_> = out.lines().collect();
    assert_eq!(lines, vec!["1:a", "2:b", "3:c"]);
}

#[test]
fn error_on_empty_patterns() {
    let cfg = Config::default();
    let res = run_on_reader(&cfg, "hello", None);
    assert!(res.is_err());
    assert!(res.err().unwrap().contains("no pattern"));
}

#[test]
fn regex_compile_error() {
    let mut c = Config::default();
    c.patterns = vec!["(".into()];
    let res = run_on_reader(&c, "data", None);
    assert!(res.is_err());
}

#[test]
fn word_boundary_with_punctuation() {
    let mut c = cfg(&["he"]);
    c.word = true;
    c.color = false;
    let data = "he, she helo\n";
    let res = run_on_reader(&c, data, None).unwrap();
    let lines: Vec<_> = res.output.lines().collect();
    // Only the line once because only token 'he,' at start counts (same line but printed once)
    assert_eq!(lines.len(), 1);
    assert!(lines[0].ends_with("he, she helo"));
}

#[test]
fn color_highlighting_included_when_enabled() {
    colored::control::set_override(true);
    let mut c = cfg(&["hello"]);
    c.color = true; // default, but be explicit
    let data = "say hello there\n";
    let res = run_on_reader(&c, data, None).unwrap();
    // Expect ANSI escape sequences in output
    assert!(res.output.contains("\u{1b}["));
}

#[test]
fn quiet_no_match_has_empty_output_and_status() {
    let mut c = cfg(&["zzz"]);
    c.quiet = true;
    let res = run_on_reader(&c, "abc\n", None).unwrap();
    assert_eq!(res.output, "");
    assert_eq!(res.status, ExitStatus::NoMatch);
}

#[test]
fn single_file_line_numbers_present() {
    let c = cfg(&["bar"]);
    let data = "foo\nbar\n";
    let res = run_on_reader(&c, data, Some("file.txt")).unwrap();
    assert!(res.output.starts_with("2:"));
}

#[test]
fn after_context_beyond_end_is_safe() {
    let mut c = cfg(&["last"]);
    c.context.after = 3;
    c.color = false;
    let data = "first\nsecond\nlast\n";
    let res = run_on_reader(&c, data, None).unwrap();
    let lines: Vec<_> = res.output.lines().collect();
    // Should include last line only, no additional lines beyond EOF
    assert_eq!(lines, vec!["3:last"]);
}
