use rgrep::fs_utils::{dispatch, is_binary_prefix, keep_text_files, Dispatch};
use rgrep::Config;

fn create_config(pattern: &str) -> Config {
    Config {
        patterns: vec![pattern.to_string()],
        color: false,
        ..Default::default()
    }
}

#[test]
fn test_stdin_default_when_no_inputs_non_recursive() {
    let cfg = create_config("test");
    let inputs: Vec<String> = vec![];
    assert!(!cfg.recursive);
    assert_eq!(inputs.len(), 0);
}

#[test]
fn nul_byte_in_prefix_is_binary() {
    assert!(is_binary_prefix(&[0u8, 159, 146, 150]));
    assert!(is_binary_prefix(b"abc\0def"));
}

#[test]
fn text_without_nul_is_not_binary() {
    assert!(!is_binary_prefix(b"nothing here"));
    assert!(!is_binary_prefix("grüße, 世界".as_bytes()));
    assert!(!is_binary_prefix(b""));
}

#[test]
fn nul_after_prefix_is_not_binary() {
    let mut bytes = vec![b'a'; 4096];
    bytes.push(0);
    assert!(!is_binary_prefix(&bytes));
    bytes[4095] = 0;
    assert!(is_binary_prefix(&bytes));
}

#[test]
fn binary_files_are_dropped_in_order() {
    let files = vec!["a.txt".to_string(), "bin.dat".to_string(), "b.txt".to_string(), "-".to_string()];
    let flags = vec![false, true, false, false];
    let kept = keep_text_files(&files, &flags);
    assert_eq!(kept, vec!["a.txt".to_string(), "b.txt".to_string(), "-".to_string()]);
}

#[test]
fn dispatch_decides_how_to_read() {
    let one = |s: &str| vec![s.to_string()];
    assert!(matches!(dispatch(&one("-"), &vec![false]), Dispatch::Stdin));
    assert!(matches!(dispatch(&one("bin.dat"), &vec![true]), Dispatch::Empty));
    match dispatch(&vec!["a".to_string(), "b".to_string()], &vec![true, false]) {
        Dispatch::Single(f) => assert_eq!(f, "b"),
        other => panic!("unexpected {:?}", other),
    }
    match dispatch(&vec!["a".to_string(), "-".to_string()], &vec![false, false]) {
        Dispatch::Many(v) => assert_eq!(v, vec!["a".to_string(), "-".to_string()]),
        other => panic!("unexpected {:?}", other),
    }
}
