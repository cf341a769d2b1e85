//! Logs.
use alwaysrunning::logs::{
    cmd_logs, follow_file, follow_output, json_line, json_lines, log_actions, logs_path, print_tail, LogAction,
    LogsError, Tail,
};
use alwaysrunning::time::{Moment, SinceError};

fn tail(content: &[u8], lines: usize) -> Vec<String> {
    if !Tail::needs_file(lines) {
        return Vec::new();
    }
    let mut t = Tail::new(content.len() as u64, lines);
    while let Some((at, len)) = t.next() {
        let at = at as usize;
        t.supply(content[at..at + len].to_vec());
    }
    t.read_tail_lines()
}

fn expected(content: &[u8], lines: usize) -> Vec<String> {
    let text = String::from_utf8_lossy(content).to_string();
    let all: Vec<String> = text.lines().map(|l| l.to_string()).collect();
    all[all.len().saturating_sub(lines)..].to_vec()
}

#[test]
fn the_tail_is_the_end_of_the_file() {
    assert_eq!(tail(b"a\nb\nc\n", 2), vec!["b", "c"]);
    assert_eq!(tail(b"a\nb\nc", 2), vec!["b", "c"]);
    assert_eq!(tail(b"a\r\n\r\n", 5), vec!["a", ""]);
    assert_eq!(tail(b"", 5), Vec::<String>::new());
    assert_eq!(tail(b"a\n", 0), Vec::<String>::new());
}

#[test]
fn a_tail_over_several_chunks_is_exact() {
    let mut content: Vec<u8> = Vec::new();
    for i in 0..5000 {
        content.extend_from_slice(format!("line {} \u{20ac}\n", i).as_bytes());
        if i % 7 == 0 {
            content.push(0xff);
        }
    }
    for n in [1, 2, 500, 1000, 4999, 5000, 10000] {
        assert_eq!(tail(&content, n), expected(&content, n), "{}", n);
    }
}

#[test]
fn no_more_is_read_than_needed() {
    let content = vec![b'\n'; 100_000];
    let mut t = Tail::new(content.len() as u64, 10);
    let (at, len) = t.next().unwrap();
    assert_eq!((at, len), (100_000 - 8192, 8192));
    t.supply(content[at as usize..].to_vec());
    assert!(t.next().is_none());
    assert_eq!(t.read_tail_lines().len(), 10);
}

#[test]
fn lines_as_json_are_escaped_as_by_serde_json() {
    assert_eq!(json_line("hi"), "{\"line\":\"hi\"}");
    for c in 0..0x300u32 {
        let c = char::from_u32(c).unwrap();
        let line = format!("a{}b", c);
        let json = json_line(&line);
        let mut object = serde_json::Map::new();
        object.insert("line".to_string(), serde_json::Value::String(line.clone()));
        assert_eq!(json, serde_json::Value::Object(object).to_string());
        let back: serde_json::Value = serde_json::from_str(&json).unwrap();
        assert_eq!(back["line"], serde_json::Value::String(line));
        assert!(json.chars().all(|c| c >= ' '));
    }
    assert_eq!(json_line("\u{1}\u{1f}\"\\\n"), "{\"line\":\"\\u0001\\u001f\\\"\\\\\\n\"}");
}

#[test]
fn lines_that_differ_differ_as_json() {
    let lines = ["n", "\n", "\\n", "\\", "u0001", "\u{1}", "\\u0001", "\"", "\\\""];
    for a in lines {
        for b in lines {
            assert_eq!(json_line(a) == json_line(b), a == b, "{:?} {:?}", a, b);
        }
    }
}

#[test]
fn tails_are_printed_as_text_or_json() {
    let lines: Vec<String> = vec!["a".to_string(), "b".to_string()];
    assert_eq!(print_tail(&lines, false), "a\nb\n");
    assert_eq!(print_tail(&lines, true), "{\"line\":\"a\"}\n{\"line\":\"b\"}\n");
    assert_eq!(print_tail(&Vec::new(), false), "\n");
    assert_eq!(print_tail(&Vec::new(), true), "");
    assert_eq!(json_lines(&Vec::new()), "");
}

#[test]
fn a_log_that_grew_is_read_on() {
    let mut pos = 10;
    assert_eq!(follow_file(&mut pos, 15), Some(10));
    assert_eq!(pos, 15);
    assert_eq!(follow_file(&mut pos, 15), None);
    assert_eq!(follow_file(&mut pos, 3), None);
    assert_eq!(pos, 15);
    assert_eq!(follow_output("a\nb", false), "a\nb");
    assert_eq!(follow_output("a\nb", true), "{\"line\":\"a\"}\n{\"line\":\"b\"}\n");
}

const NOW: Moment = Moment { secs: 1000, nanos: 1 };

fn at(secs: i64) -> Moment {
    Moment { secs, nanos: 0 }
}

#[test]
fn a_log_needs_its_file() {
    assert_eq!(cmd_logs(false, None, NOW), Err(LogsError::NoLogFile));
    assert_eq!(cmd_logs(false, Some("nonsense"), NOW), Err(LogsError::NoLogFile));
    assert_eq!(cmd_logs(true, None, NOW), Ok(None));
    assert_eq!(cmd_logs(true, Some("900"), NOW), Ok(Some(at(900))));
    assert_eq!(cmd_logs(true, Some("10s"), NOW), Ok(Some(Moment { secs: 990, nanos: 1 })));
    assert_eq!(cmd_logs(true, Some("x"), NOW), Err(LogsError::Since(SinceError::Value)));
    assert_eq!(logs_path("a", None), vec![".alwaysrunning", "apps", "a", "logs", "instance-0.log"]);
    assert_eq!(logs_path("a", Some(3)), vec![".alwaysrunning", "apps", "a", "logs", "instance-3.log"]);
}

#[test]
fn an_old_log_is_not_shown() {
    let tail = |lines: usize| LogAction::Tail { lines };
    assert_eq!(log_actions(None, at(0), false, 5), vec![tail(5)]);
    assert_eq!(log_actions(Some(at(10)), at(9), false, 5), vec![]);
    assert_eq!(log_actions(Some(at(10)), at(10), false, 5), vec![tail(5)]);
    assert_eq!(log_actions(None, at(0), true, 5), vec![LogAction::Follow]);
    assert_eq!(log_actions(Some(at(10)), at(9), true, 5), vec![LogAction::Follow]);
    assert_eq!(log_actions(Some(at(10)), at(11), true, 5), vec![tail(200), LogAction::Follow]);
}
