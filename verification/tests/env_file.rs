//! Environment files.
use alwaysrunning::env_file::load_env_file;

fn pair(key: &str, value: &str) -> (String, String) {
    (key.to_string(), value.to_string())
}

#[test]
fn parses_basic_env_lines() {
    let content = r#"
# comment
FOO=bar
export BAZ="hello world"
QUX='quoted'
EMPTY=
"#;
    let pairs = load_env_file("test.env", content).expect("parse env");

    assert!(pairs.contains(&("FOO".to_string(), "bar".to_string())));
    assert!(pairs.contains(&("BAZ".to_string(), "hello world".to_string())));
    assert!(pairs.contains(&("QUX".to_string(), "quoted".to_string())));
    assert!(pairs.contains(&("EMPTY".to_string(), "".to_string())));
    assert_eq!(pairs.len(), 4);
}

#[test]
fn rejects_invalid_lines() {
    let err = load_env_file("test.env", "NO_EQUALS").unwrap_err();
    let msg = err.message();
    assert!(msg.contains("Invalid env line"));
    assert_eq!(msg, "Invalid env line 1 in test.env");
}

#[test]
fn preserves_equals_in_value() {
    let pairs = load_env_file("test.env", "TOKEN=abc=def=ghi").expect("parse env");
    assert!(pairs.contains(&("TOKEN".to_string(), "abc=def=ghi".to_string())));
}

#[test]
fn the_first_bad_line_is_reported() {
    let err = load_env_file("e", "A=1\n# c\n\n =x\nB").unwrap_err();
    assert_eq!(err.line, 4);
    assert_eq!(err.path, "e");
}

#[test]
fn quotes_come_off_only_in_pairs() {
    let content = "A='x\"\nB=\"\nC=\"\"\nD='a'b'\nE=\"x\"y";
    let pairs = load_env_file("e", content).unwrap();
    assert_eq!(
        pairs,
        vec![pair("A", "'x\""), pair("B", "\""), pair("C", ""), pair("D", "a'b"), pair("E", "\"x\"y")]
    );
}

#[test]
fn quoted_white_space_is_kept() {
    let pairs = load_env_file("e", "  A  =  '  x  '  ").unwrap();
    assert_eq!(pairs, vec![pair("A", "  x  ")]);
}

#[test]
fn export_needs_a_blank_behind_it() {
    let pairs = load_env_file("e", "exportA=1\nexport   B = 2\r\nexport=3").unwrap();
    assert_eq!(pairs, vec![pair("exportA", "1"), pair("B", "2"), pair("export", "3")]);
}

#[test]
fn a_variable_may_be_set_twice() {
    let pairs = load_env_file("e", "A=1\nA=2").unwrap();
    assert_eq!(pairs, vec![pair("A", "1"), pair("A", "2")]);
}

#[test]
fn indented_comments_set_nothing() {
    assert_eq!(load_env_file("e", "  \t # A=1\n\u{a0}\n").unwrap(), vec![]);
}
