use raven::request::{parse_query, HttpParseError, HttpRequest, ReadStep, MAX_HEAD_BYTES};

#[test]
fn parse_simple_request() {
    let req = HttpRequest::parse_head(b"GET /hello HTTP/1.1\r\nHost: test\r\n\r\n").unwrap();

    assert_eq!(req.method, "GET");
    assert_eq!(req.path, "/hello");
    assert_eq!(req.headers.get("host").unwrap(), "test");
}

#[test]
fn target_query_is_split_out() {
    let req = HttpRequest::parse_head(b"POST /users?id=42&tag=a&tag=b&flag HTTP/1.1\r\n\r\nbody").unwrap();
    assert_eq!(req.path, "/users");
    assert_eq!(req.version, "HTTP/1.1");
    assert_eq!(req.query.get("id").unwrap(), &vec!["42".to_string()]);
    assert_eq!(req.query.get("tag").unwrap(), &vec!["a".to_string(), "b".to_string()]);
    assert_eq!(req.query.get("flag").unwrap(), &vec!["".to_string()]);
    assert_eq!(req.body, "body");
}

#[test]
fn header_names_are_lowercased_and_trimmed() {
    let req = HttpRequest::parse_head(
        b"GET / HTTP/1.1\r\n  Content-Type :  text/plain  \r\nX-A: 1\r\nx-a: 2\r\nnot a header\r\n\r\n",
    )
    .unwrap();
    assert_eq!(req.headers.len(), 2);
    assert_eq!(req.headers.get("content-type").unwrap(), "text/plain");
    assert_eq!(req.headers.get("x-a").unwrap(), "2");
}

#[test]
fn missing_parts_of_the_start_line() {
    assert!(matches!(HttpRequest::parse_head(b""), Err(HttpParseError::MissingMethod)));
    assert!(matches!(HttpRequest::parse_head(b"GET\r\n\r\n"), Err(HttpParseError::MissingPath)));
    assert!(matches!(HttpRequest::parse_head(b"GET /\r\n\r\n"), Err(HttpParseError::MissingVersion)));
    assert_eq!(HttpParseError::MissingMethod.message(), "Missing method");
    assert_eq!(HttpParseError::HeadersTooLarge.message(), "Http headers too large");
}

#[test]
fn extra_start_line_words_are_ignored() {
    let req = HttpRequest::parse_head(b"GET  /a   HTTP/1.0 extra\r\n\r\n").unwrap();
    assert_eq!(req.method, "GET");
    assert_eq!(req.path, "/a");
    assert_eq!(req.version, "HTTP/1.0");
}

#[test]
fn head_without_blank_line_has_no_body() {
    let req = HttpRequest::parse_head(b"GET /x HTTP/1.1\r\nHost: h").unwrap();
    assert_eq!(req.body, "");
    assert_eq!(req.headers.get("host").unwrap(), "h");
}

#[test]
fn invalid_utf8_is_replaced() {
    let req = HttpRequest::parse_head(b"GET /\xff HTTP/1.1\r\n\r\n").unwrap();
    assert_eq!(req.path, "/\u{fffd}");
}

#[test]
fn query_parsing() {
    let q = parse_query("a=1&&b=&a=2=3&c");
    assert_eq!(q.len(), 3);
    assert_eq!(q.get("a").unwrap(), &vec!["1".to_string(), "2=3".to_string()]);
    assert_eq!(q.get("b").unwrap(), &vec!["".to_string()]);
    assert_eq!(q.get("c").unwrap(), &vec!["".to_string()]);
    assert!(parse_query("").is_empty());
}

#[test]
fn read_steps() {
    assert_eq!(HttpRequest::read_step(b"GET / HTTP/1.1\r\n", 0), ReadStep::Complete);
    assert_eq!(HttpRequest::read_step(b"GET / HTTP/1.1\r\n\r\n", 5), ReadStep::Complete);
    assert_eq!(HttpRequest::read_step(b"GET / HTTP/1.1\r\n", 5), ReadStep::Continue);
    let big = vec![b'a'; MAX_HEAD_BYTES + 1];
    assert_eq!(HttpRequest::read_step(&big, 1), ReadStep::TooLarge);
    let limit = vec![b'a'; MAX_HEAD_BYTES];
    assert_eq!(HttpRequest::read_step(&limit, 1), ReadStep::Continue);
}

#[test]
fn content_length_gives_missing_bytes() {
    let mut req =
        HttpRequest::parse_head(b"POST / HTTP/1.1\r\nContent-Length: 10\r\n\r\nabcd").unwrap();
    assert_eq!(req.missing_body_len(), 6);
    req.append_body(b"efghij");
    assert_eq!(req.body, "abcdefghij");
    assert_eq!(req.missing_body_len(), 0);

    let req = HttpRequest::parse_head(b"POST / HTTP/1.1\r\nContent-Length: +3\r\n\r\n").unwrap();
    assert_eq!(req.missing_body_len(), 3);
    let req = HttpRequest::parse_head(b"POST / HTTP/1.1\r\nContent-Length: x\r\n\r\n").unwrap();
    assert_eq!(req.missing_body_len(), 0);
    let req = HttpRequest::parse_head(b"POST / HTTP/1.1\r\n\r\nzz").unwrap();
    assert_eq!(req.missing_body_len(), 0);
    let req = HttpRequest::parse_head("POST / HTTP/1.1\r\nContent-Length: 3\r\n\r\né".as_bytes()).unwrap();
    assert_eq!(req.missing_body_len(), 1);
}
