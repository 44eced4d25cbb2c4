use raven::delay::delay_in_range;
use raven::handler::{HandleError, HttpHandler, Served};
use raven::logger::MatchError;
use raven::matcher::{normalize_route, HttpResolver, ResolveError, Resolution, Resolver};
use raven::mock_engine::{default_status, MatchBlock, MockBlock, ResponseBlock, ResponseOptions};
use raven::request::HttpRequest;
use raven::strmap::StrMap;

fn response(status: u16, body: Option<&str>) -> ResponseBlock {
    ResponseBlock {
        status,
        headers: StrMap::new(),
        body: body.map(|b| b.to_string()),
        options: ResponseOptions { delay: None, connection_close: None },
    }
}

fn mock(method: Option<&str>, body: &str) -> MockBlock {
    MockBlock {
        kind: Some("http".into()),
        matcher: MatchBlock { method: method.map(|m| m.to_string()), ..Default::default() },
        response: response(200, Some(body)),
    }
}

fn request(method: &str, path: &str) -> HttpRequest {
    HttpRequest::parse_head(format!("{} {} HTTP/1.1\r\n\r\n", method, path).as_bytes()).unwrap()
}

#[test]
fn normalize_examples() {
    assert_eq!(normalize_route("/users/42"), "users::42");
    assert_eq!(normalize_route("users/42/"), "users::42");
    assert_eq!(normalize_route("/users?x=1"), "users");
    assert_eq!(normalize_route("//a//b?c/d?e"), "a::b");
    assert_eq!(normalize_route("/"), "");
    assert_eq!(normalize_route(""), "");
}

#[test]
fn normalize_is_idempotent() {
    for r in ["/users/42", "a//b/", "?x", "/x?y=/z", "a::b/c"] {
        let once = normalize_route(r);
        assert_eq!(normalize_route(&once), once);
    }
}

#[test]
fn exact_route_wins() {
    let mocks = StrMap::from_pairs(vec![
        ("users::{id}".to_string(), mock(None, "wild")),
        ("users::42".to_string(), mock(None, "exact")),
    ]);
    match HttpResolver.resolve(&request("GET", "/users/42"), &mocks) {
        Ok(Resolution::Matched { mock, diagnostics: None }) => {
            assert_eq!(mock.response.body.as_deref(), Some("exact"))
        }
        _ => panic!("expected the exact mock"),
    }
}

#[test]
fn wildcard_route_and_mismatch() {
    let mocks = StrMap::from_pairs(vec![("users::{id}".to_string(), mock(Some("POST"), "wild"))]);
    match HttpResolver.resolve(&request("GET", "/users/7"), &mocks) {
        Ok(Resolution::Mismatch { .. }) => {}
        _ => panic!("expected a mismatch"),
    }
    match HttpResolver.resolve(&request("POST", "/users/7"), &mocks) {
        Ok(Resolution::Matched { mock, .. }) => assert_eq!(mock.response.body.as_deref(), Some("wild")),
        _ => panic!("expected a match"),
    }
}

#[test]
fn unknown_route_is_not_found() {
    let mocks = StrMap::from_pairs(vec![("users::{id}".to_string(), mock(None, "wild"))]);
    assert!(matches!(
        HttpResolver.resolve(&request("GET", "/orders/7"), &mocks),
        Ok(Resolution::NotFound)
    ));
}

#[test]
fn ambiguous_route_is_an_error() {
    let mocks = StrMap::from_pairs(vec![
        ("users::{id}".to_string(), mock(None, "a")),
        ("{kind}::7".to_string(), mock(None, "b")),
    ]);
    match HttpResolver.resolve(&request("GET", "/users/7"), &mocks) {
        Err(e) => {
            let ResolveError::AmbiguousRoute { route, key, other } = &e;
            assert_eq!(route, "users::7");
            assert_eq!(key, "{kind}::7");
            assert_eq!(other, "users::{id}");
            assert_eq!(
                e.message(),
                "Multiple mocks match route 'users::7': '{kind}::7' and 'users::{id}'"
            );
        }
        Ok(_) => panic!("expected an error"),
    }
}

#[test]
fn build_response() {
    let r = response(201, Some("héllo"));
    assert_eq!(r.build(), "HTTP/1.1 201 Created\r\nContent-Length: 6\r\n\r\nhéllo");
    let r = response(404, None);
    assert_eq!(r.build(), "HTTP/1.1 404 Not found\r\nContent-Length: 0\r\n\r\n");
    let r = response(418, None);
    assert!(r.build().starts_with("HTTP/1.1 418 Unknown\r\n"));
    assert_eq!(default_status(), 200);
}

#[test]
fn build_keeps_own_headers_and_cleans_values() {
    let mut r = response(200, Some("x"));
    r.headers.insert("X-A".into(), "a\r\nb".into());
    r.headers.insert("Content-Length".into(), "99".into());
    assert_eq!(r.build(), "HTTP/1.1 200 OK\r\nX-A: ab\r\nContent-Length: 99\r\n\r\nx");
}

#[test]
fn handler_serves_mock_with_options() {
    let mut m = mock(None, "ok");
    m.response.options = ResponseOptions { delay: Some("150ms".into()), connection_close: Some(true) };
    let reply = HttpHandler::respond(&m).unwrap();
    assert_eq!(reply.bytes, "HTTP/1.1 200 OK\r\nContent-Length: 2\r\n\r\nok");
    let d = reply.delay.unwrap();
    assert_eq!((d.secs, d.nanos), (0, 150_000_000));
    assert!(reply.shutdown);

    m.response.options.delay = Some("soon".into());
    assert!(matches!(HttpHandler::respond(&m), Err(HandleError::InvalidDelay { ref text, .. }) if text == "soon"));
    m.response.options.delay = Some("0".into());
    let d = HttpHandler::respond(&m).unwrap().delay.unwrap();
    assert_eq!((d.secs, d.nanos), (0, 0));
}

#[test]
fn delays_that_could_overflow_are_refused() {
    let mut m = mock(None, "ok");
    m.response.options.delay = Some("18446744073709551615s 1000000000ns".into());
    assert!(matches!(
        HttpHandler::respond(&m),
        Err(HandleError::DelayTooLong(ref t)) if t == "18446744073709551615s 1000000000ns"
    ));
    m.response.options.delay = Some("600000000000y".into());
    assert!(matches!(HttpHandler::respond(&m), Err(HandleError::DelayTooLong(_))));
}

#[test]
fn long_delays_within_range_are_served() {
    let mut m = mock(None, "ok");
    let cases: [(&str, u64, u32); 8] = [
        ("100000000000ms", 100_000_000, 0),
        ("000000000001s", 1, 0),
        ("1.000000000000s", 1, 0),
        ("123456s 123456ns", 123_456, 123_456),
        ("12345678901ns", 12, 345_678_901),
        ("1h 30m", 5400, 0),
        ("600000000000s", 600_000_000_000, 0),
        ("500000000000y", 15_778_800_000_000_000_000, 0),
    ];
    for (text, secs, nanos) in cases {
        m.response.options.delay = Some(text.into());
        let d = HttpHandler::respond(&m).unwrap().delay.unwrap();
        assert_eq!((d.secs, d.nanos), (secs, nanos), "{}", text);
    }
}

#[test]
fn delay_range_check() {
    assert!(delay_in_range("1h 30m"));
    assert!(delay_in_range("soon"));
    assert!(delay_in_range("18446744073709551613s"));
    assert!(!delay_in_range("18446744073709551614s"));
    assert!(!delay_in_range("18446744073709551615s 1000000000ns"));
    assert!(delay_in_range("584542046089y"));
    assert!(!delay_in_range("584542046090y"));
}

#[test]
fn handler_reports_mismatch_and_missing_mock() {
    let mocks = StrMap::from_pairs(vec![("users".to_string(), mock(Some("POST"), "x"))]);
    let (reply, served) = HttpHandler::handle(&request("GET", "/users"), &mocks).unwrap();
    assert!(matches!(served, Served::Mismatch(_)));
    let msg = "Method mismatch: expected 'POST', got 'GET'";
    assert_eq!(
        reply.bytes,
        format!(
            "HTTP/1.1 422 Unprocessable Entity\r\nContent-Type: text/plain\r\nContent-Length: {}\r\n\r\n{}",
            msg.len(),
            msg
        )
    );
    let (reply, served) = HttpHandler::handle(&request("GET", "/nope"), &mocks).unwrap();
    assert!(matches!(served, Served::NoMock));
    assert_eq!(
        reply.bytes,
        "HTTP/1.1 404 Not Found\r\nContent-Length: 13\r\nContent-Type: text/plain\r\n\r\n404 Not Found"
    );
    assert_eq!(
        HttpHandler::no_mock_message(&request("GET", "/nope")),
        "No mock matched for path /nope"
    );
}

#[test]
fn mismatch_messages_use_debug_rendering() {
    let e = MatchError::QueryMismatch {
        key: "id".into(),
        expected: "1".into(),
        found: Some(vec!["2".into(), "a\"b".into()]),
    };
    assert_eq!(
        HttpHandler::mismatch_message(&e),
        "Query mismatch on 'id': expected '1', got 'Some([\"2\", \"a\\\"b\"])'"
    );
    let e = MatchError::HeaderMismatch { key: "h".into(), expected: "v".into(), found: None };
    assert_eq!(HttpHandler::mismatch_message(&e), "Header mismatch on 'h': expected 'v', got 'None'");
    let e = MatchError::HeaderMismatch { key: "h".into(), expected: "v".into(), found: Some("w".into()) };
    assert_eq!(
        HttpHandler::mismatch_message(&e),
        "Header mismatch on 'h': expected 'v', got 'Some(\"w\")'"
    );
    let e = MatchError::BodyMismatch { expected: "a".into(), found: "b".into() };
    assert_eq!(HttpHandler::mismatch_message(&e), "Body mismatch: expected 'a', got 'b'");
}
