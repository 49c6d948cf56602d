use rgrep::boolean_parser::{parse_boolean_expression, BooleanExpr};
use rgrep::follow::{next_follow_action, validate_follow_inputs, FollowAction};
use rgrep::merge::{concat_outputs, merge_chronologically, parse_ts_from_formatted_line};
use rgrep::regex_utils::{has_complex_boolean_ops, join_patterns, split_unescaped};
use rgrep::text::read_to_lines;
use rgrep::window::select_lines;
use rgrep::{aggregate, run_on_reader, search_single_file, Config, Context, ExitStatus, RunResult};

fn plain(pattern: &str) -> Config {
    Config {
        patterns: vec![pattern.to_string()],
        color: false,
        ..Default::default()
    }
}

fn ok(output: &str, status: ExitStatus) -> Result<RunResult, String> {
    Ok(RunResult { output: output.to_string(), status })
}

#[test]
fn end_to_end_context_scenario() {
    let mut c = plain("match");
    c.context = Context { before: 1, after: 1 };
    let res = run_on_reader(&c, "line1\nmatch\nline3\n", None).unwrap();
    assert_eq!(res.output, "1:line1\n2:match\n3:line3\n");
    assert_eq!(res.status, ExitStatus::MatchFound);
}

#[test]
fn context_window_one_each_side() {
    let decisions = vec![false, true, false];
    assert_eq!(select_lines(1, 1, &decisions), vec![0, 1, 2]);
    assert_eq!(select_lines(0, 0, &decisions), vec![1]);
}

#[test]
fn context_window_stays_in_batch() {
    let decisions = vec![true, false];
    assert_eq!(select_lines(5, 5, &decisions), vec![0, 1]);
    let decisions = vec![false, false, true, false, false, false, true];
    assert_eq!(select_lines(1, 1, &decisions), vec![1, 2, 3, 5, 6]);
}

#[test]
fn count_mode_counts_lines() {
    let mut c = plain("o");
    c.count = true;
    let res = search_single_file(&c, "file.txt", "one\ntwo\nthree\n").unwrap();
    assert_eq!(res.output, "2\n");
    let mut c = plain("x");
    c.count = true;
    c.invert = true;
    let res = run_on_reader(&c, "one\ntwo\nthree\n", None).unwrap();
    assert_eq!(res.output, "3\n");
    let res = run_on_reader(&c, "a\nxb\n\n", Some("n.txt")).unwrap();
    assert_eq!(res.output, "n.txt:2\n");
}

#[test]
fn quiet_mode_keeps_status() {
    let mut c = plain("two");
    c.quiet = true;
    c.count = true;
    c.context = Context { before: 2, after: 2 };
    let res = run_on_reader(&c, "one\ntwo\n", None).unwrap();
    assert_eq!(res.output, "");
    assert_eq!(res.status, ExitStatus::MatchFound);
    let res = run_on_reader(&c, "one\n", None).unwrap();
    assert_eq!(res.output, "");
    assert_eq!(res.status, ExitStatus::NoMatch);
}

#[test]
fn same_search_twice_gives_same_output() {
    let mut c = plain("a|c");
    c.context = Context { before: 1, after: 0 };
    let text = "a\nb\nc\nd\n";
    let first = run_on_reader(&c, text, None).unwrap();
    let second = run_on_reader(&c, text, None).unwrap();
    assert_eq!(first.output, second.output);
    assert_eq!(first.output, "1:a\n2:b\n3:c\n");
}

#[test]
fn literal_without_operators_parses_whole() {
    match parse_boolean_expression("error-42.log").unwrap() {
        BooleanExpr::Pattern(p) => assert_eq!(p, "error-42.log"),
        _ => panic!("expected one literal"),
    }
    match parse_boolean_expression("a\\&b").unwrap() {
        BooleanExpr::Pattern(p) => assert_eq!(p, "a\\&b"),
        _ => panic!("expected one literal"),
    }
}

#[test]
fn parse_errors() {
    assert_eq!(parse_boolean_expression("()").unwrap_err(), "Expected pattern");
    assert_eq!(parse_boolean_expression("(a|b").unwrap_err(), "Expected closing parenthesis");
    assert_eq!(parse_boolean_expression("a&").unwrap_err(), "Expected pattern");
}

#[test]
fn or_binds_looser_than_and() {
    match parse_boolean_expression("a|b&c").unwrap() {
        BooleanExpr::Or(l, r) => {
            assert!(matches!(*l, BooleanExpr::Pattern(ref p) if p == "a"));
            assert!(matches!(*r, BooleanExpr::And(_, _)));
        }
        _ => panic!("expected OR at the top"),
    }
}

#[test]
fn boolean_parse_error_message() {
    let res = run_on_reader(&plain("(foo&bar"), "foo bar", None);
    assert_eq!(res.unwrap_err(), "Boolean expression parse error: Expected closing parenthesis");
    let res = run_on_reader(&Config::default(), "x", None);
    assert_eq!(res.unwrap_err(), "no pattern provided");
}

#[test]
fn regex_error_carries_engine_message() {
    let res = run_on_reader(&plain("[invalid"), "x", None);
    let e = res.unwrap_err();
    assert!(e.contains("regex parse error"));
}

#[test]
fn highlight_wraps_spans() {
    colored::control::set_override(true);
    let mut c = plain("l+o");
    c.color = true;
    let res = run_on_reader(&c, "hello, llo\nnone\n", None).unwrap();
    assert_eq!(res.output, "1:he\u{1b}[1;31mllo\u{1b}[0m, \u{1b}[1;31mllo\u{1b}[0m\n");
}

#[test]
fn highlight_off_in_line_mode() {
    colored::control::set_override(true);
    let mut c = plain("hello");
    c.color = true;
    c.line = true;
    let res = run_on_reader(&c, "hello\n", None).unwrap();
    assert_eq!(res.output, "1:hello\n");
}

#[test]
fn and_terms_each_match() {
    let res = run_on_reader(&plain("foo&bar"), "foo\nbar baz foo\nbar\n", None).unwrap();
    assert_eq!(res.output, "2:bar baz foo\n");
}

#[test]
fn word_and_line_modes() {
    let mut c = plain("he");
    c.word = true;
    let res = run_on_reader(&c, "he\nhelo\nsay he!\n", None).unwrap();
    assert_eq!(res.output, "1:he\n3:say he!\n");
    let mut c = plain("a|b");
    c.line = true;
    let res = run_on_reader(&c, "a\nab\nb\n", None).unwrap();
    assert_eq!(res.output, "1:a\n3:b\n");
}

#[test]
fn case_insensitive_option() {
    let mut c = plain("HELLO");
    c.case_insensitive = true;
    let res = run_on_reader(&c, "hello\n", None).unwrap();
    assert_eq!(res.output, "1:hello\n");
}

#[test]
fn crlf_lines_are_stripped() {
    let lines = read_to_lines("a\r\nb\n\nc\r");
    assert_eq!(lines, vec!["a".to_string(), "b".to_string(), "".to_string(), "c\r".to_string()]);
    assert!(read_to_lines("").is_empty());
}

#[test]
fn split_keeps_escapes() {
    assert_eq!(split_unescaped("a&b\\&c&", '&'), vec!["a".to_string(), "b\\&c".to_string(), "".to_string()]);
    assert_eq!(join_patterns(&vec!["ab".to_string(), "(c".to_string()]), "ab(c");
}

#[test]
fn complex_routing() {
    assert!(has_complex_boolean_ops("a&(b)"));
    assert!(has_complex_boolean_ops("a&b|c"));
    assert!(!has_complex_boolean_ops("a&b"));
    assert!(!has_complex_boolean_ops("a|b"));
}

#[test]
fn timestamps_parse() {
    assert_eq!(
        parse_ts_from_formatted_line("3:at 2025-09-17 14:15:42.413 +02:00"),
        Some((2025, 9, 17, 14, 15, 42, 413000000))
    );
    assert_eq!(parse_ts_from_formatted_line("1:2024-01-02T03:04:05 x"), Some((2024, 1, 2, 3, 4, 5, 0)));
    assert_eq!(parse_ts_from_formatted_line("no colon 2024-01-02T03:04:05"), None);
    assert_eq!(parse_ts_from_formatted_line("1:no stamp"), None);
}

#[test]
fn chronological_merge_orders_lines() {
    let outs = vec![
        "1:2024-01-01 10:00:02 b\n2:2024-01-01 10:00:04 d\n".to_string(),
        "1:2024-01-01 10:00:01 a\n2:2024-01-01 10:00:03 c\n".to_string(),
    ];
    assert_eq!(
        merge_chronologically(&outs).unwrap(),
        "1:2024-01-01 10:00:01 a\n1:2024-01-01 10:00:02 b\n2:2024-01-01 10:00:03 c\n2:2024-01-01 10:00:04 d\n"
    );
    let outs = vec!["1:2024-01-01 10:00:02 b\n".to_string(), "1:plain\n".to_string()];
    assert_eq!(merge_chronologically(&outs), None);
    assert_eq!(concat_outputs(&outs), "1:2024-01-01 10:00:02 b\n1:plain\n");
}

#[test]
fn aggregate_keeps_input_order() {
    let c = plain("x");
    let res = aggregate(&c, vec![ok("2:x b\n", ExitStatus::MatchFound), ok("", ExitStatus::NoMatch), ok("1:x a\n", ExitStatus::MatchFound)]).unwrap();
    assert_eq!(res.output, "2:x b\n1:x a\n");
    assert_eq!(res.status, ExitStatus::MatchFound);
    let mut q = plain("x");
    q.quiet = true;
    let res = aggregate(&q, vec![ok("", ExitStatus::NoMatch)]).unwrap();
    assert_eq!(res.status, ExitStatus::NoMatch);
    let err = aggregate(&c, vec![Err("first".to_string()), ok("", ExitStatus::NoMatch), Err("second".to_string())]);
    assert_eq!(err.unwrap_err(), "first\nsecond");
}

#[test]
fn aggregate_count_mode_concatenates() {
    let mut c = plain("o");
    c.count = true;
    let res = aggregate(&c, vec![ok("a.txt:1\n", ExitStatus::MatchFound), ok("b.txt:2\n", ExitStatus::MatchFound)]).unwrap();
    assert_eq!(res.output, "a.txt:1\nb.txt:2\n");
}

#[test]
fn follow_decisions() {
    let mut c = plain("x");
    assert_eq!(validate_follow_inputs(&c, &vec!["f".to_string()], false).unwrap_err(), "follow mode not enabled");
    c.follow = true;
    assert_eq!(
        validate_follow_inputs(&c, &vec!["-".to_string()], false).unwrap_err(),
        "follow mode supports exactly one regular file"
    );
    assert_eq!(validate_follow_inputs(&c, &vec!["f".to_string()], true).unwrap_err(), "cannot follow binary file");
    assert!(validate_follow_inputs(&c, &vec!["f".to_string()], false).is_ok());
    assert_eq!(next_follow_action(10, 4), FollowAction::Truncated(4));
    assert_eq!(next_follow_action(4, 10), FollowAction::Read(4));
    assert_eq!(next_follow_action(4, 4), FollowAction::Wait);
}

#[test]
fn context_counts() {
    let c = Context::from_counts(1, 2, 0);
    assert_eq!((c.before, c.after), (1, 2));
    let c = Context::from_counts(1, 2, 3);
    assert_eq!((c.before, c.after), (3, 3));
}

#[test]
fn whitespace_around_operators_is_skipped() {
    match parse_boolean_expression("a & b").unwrap() {
        BooleanExpr::And(l, r) => {
            assert!(matches!(*l, BooleanExpr::Pattern(ref p) if p == "a"));
            assert!(matches!(*r, BooleanExpr::Pattern(ref p) if p == "b"));
        }
        _ => panic!("expected AND"),
    }
    match parse_boolean_expression(" ( a | b ) & c ").unwrap() {
        BooleanExpr::And(l, r) => {
            assert!(matches!(*l, BooleanExpr::Or(_, _)));
            assert!(matches!(*r, BooleanExpr::Pattern(ref p) if p == "c"));
        }
        _ => panic!("expected AND"),
    }
    let res = run_on_reader(&plain("(foo & bar)"), "foo bar\nfoo\n", None).unwrap();
    assert_eq!(res.output, "1:foo bar\n");
}

#[test]
fn text_after_expression_is_not_read() {
    match parse_boolean_expression("a)b").unwrap() {
        BooleanExpr::Pattern(p) => assert_eq!(p, "a"),
        _ => panic!("expected one literal"),
    }
}

#[test]
fn cloned_expression_is_equal_in_shape() {
    let e = parse_boolean_expression("a&(b|c)").unwrap();
    let c = e.clone();
    assert_eq!(format!("{:?}", e), format!("{:?}", c));
}

#[test]
fn splice_replaces_spans() {
    let line = "héllo wörld";
    let spans = vec![(0usize, 6usize), (7usize, 13usize)];
    let segs = vec!["[héllo]".to_string(), "[wörld]".to_string()];
    assert_eq!(rgrep::regex_utils::splice_spans(line, &spans, &segs), "[héllo] [wörld]");
    assert_eq!(rgrep::regex_utils::splice_spans("abc", &vec![], &vec![]), "abc");
}

#[test]
fn compile_error_text_for_literal_and_term() {
    let e = run_on_reader(&plain("(a&[x)"), "x", None).unwrap_err();
    assert!(e.contains("regex parse error"));
    let e = run_on_reader(&plain("a&[x"), "x", None).unwrap_err();
    assert!(e.contains("regex parse error"));
}
