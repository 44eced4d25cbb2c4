use raven::add;
use raven::logger::{strip_ainsi, Channel, Logger, MatchError, Protocol};

#[test]
fn it_works() {
    let result = add(2, 2);
    assert_eq!(result, 4);
}

#[test]
fn strip_removes_escape_sequences() {
    assert_eq!(strip_ainsi("\x1b[1;44;37mHTTP\x1b[0m plain"), "HTTP plain");
    assert_eq!(strip_ainsi("no escapes"), "no escapes");
    assert_eq!(strip_ainsi("open \x1b[1"), "open ");
    assert_eq!(strip_ainsi(""), "");
    assert_eq!(strip_ainsi(&strip_ainsi("a\x1b[31mb\x1b[0mc")), "abc");
}

#[test]
fn style_reads_as_the_label() {
    assert_eq!(strip_ainsi(&Protocol::Http.style()), "HTTP");
    assert_eq!(strip_ainsi(&Protocol::WebSocket.style()), "WS");
    assert_eq!(strip_ainsi(&Protocol::Custom.style()), "CSTM");
}

#[test]
fn style_is_the_label_bare_or_in_its_rendition() {
    let http = Protocol::Http.style();
    assert!(http == "HTTP" || http == "\x1b[1;44;37mHTTP\x1b[0m");
    let ws = Protocol::WebSocket.style();
    assert!(ws == "WS" || ws == "\x1b[1;106;37mWS\x1b[0m");
    let custom = Protocol::Custom.style();
    assert!(custom == "CSTM" || custom == "\x1b[1;43;30mCSTM\x1b[0m");
}

#[test]
fn expected_is_green_and_found_is_red() {
    let e = MatchError::MethodMismatch { expected: "GET".into(), found: "POST".into() };
    let lines = e.diff_lines();
    assert!(lines[0] == "expected: GET" || lines[0] == "expected: \x1b[32mGET\x1b[0m");
    assert!(lines[1] == "found   : POST" || lines[1] == "found   : \x1b[31mPOST\x1b[0m");
}

#[test]
fn log_line_layout() {
    let line = Logger::log(Protocol::Http, "1.2.3.4:5", "hello");
    let plain = strip_ainsi(&line);
    assert!(plain.starts_with("  HTTP   ["));
    assert!(plain.contains("1.2.3.4:5]"));
    assert!(plain.ends_with(": hello"));
}

#[test]
fn slog_line_layout() {
    let line = Logger::slog("SERVER", "listening");
    assert_eq!(strip_ainsi(&line), " SERVER  listening");
}

#[test]
fn diff_lines_of_each_kind() {
    let e = MatchError::MethodMismatch { expected: "GET".into(), found: "POST".into() };
    let lines: Vec<String> = e.diff_lines().iter().map(|l| strip_ainsi(l)).collect();
    assert_eq!(lines, vec!["expected: GET".to_string(), "found   : POST".to_string()]);

    let e = MatchError::QueryMismatch { key: "id".into(), expected: "1".into(), found: None };
    let lines: Vec<String> = e.diff_lines().iter().map(|l| strip_ainsi(l)).collect();
    assert_eq!(lines, vec!["expected: id = 1".to_string(), "found   : <missing>".to_string()]);

    let e = MatchError::QueryMismatch {
        key: "id".into(),
        expected: "1".into(),
        found: Some(vec!["2".into(), "3".into()]),
    };
    let lines: Vec<String> = e.diff_lines().iter().map(|l| strip_ainsi(l)).collect();
    assert_eq!(lines[1], "found   : [\"2\", \"3\"]");

    let e = MatchError::HeaderMismatch { key: "h".into(), expected: "v".into(), found: Some("".into()) };
    let lines: Vec<String> = e.diff_lines().iter().map(|l| strip_ainsi(l)).collect();
    assert_eq!(lines[1], "found   : <missing>");

    let e = MatchError::BodyMismatch { expected: "a".into(), found: "b".into() };
    let lines: Vec<String> = e.diff_lines().iter().map(|l| strip_ainsi(l)).collect();
    assert_eq!(lines, vec!["expected: a".to_string(), "found   : b".to_string()]);
}

#[test]
fn mismatch_report_layout() {
    let e = MatchError::BodyMismatch { expected: "a".into(), found: "b".into() };
    let report = Logger::mismatch(Protocol::Http, "peer", &e);
    let plain = strip_ainsi(&report);
    let lines: Vec<&str> = plain.lines().collect();
    assert_eq!(lines.len(), 3);
    assert!(lines[0].contains("[peer]"));
    assert!(lines[0].ends_with("BODY"));
    let indent = " ".repeat(strip_ainsi(&report.lines().next().unwrap()).len() - 1);
    assert_eq!(lines[1], format!("{}├── expected: a", indent));
    assert_eq!(lines[2], format!("{}└── found   : b", indent));
}

#[test]
fn logger_channel() {
    let mut logger = Logger::new(Channel::Stdout);
    logger.set_channel(Channel::File("log.txt".into()));
    assert!(matches!(logger.channel, Channel::File(ref p) if p == "log.txt"));
}
