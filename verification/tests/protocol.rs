use raven::cli::{Cli, ConfigError, MockSource};
use raven::mock_engine::{MatchBlock, MockBlock, ResponseBlock, ResponseOptions};
use raven::resolver::{Protocol, ProtocolError};
use raven::strmap::StrMap;

#[test]
fn detects_http_and_websocket() {
    assert!(Protocol::detect_http("GET / HTTP/1.1\r\n"));
    assert!(!Protocol::detect_http("FETCH / HTTP/1.1\r\n"));
    assert!(!Protocol::detect_http("GET / SPDY\r\n"));
    assert!(!Protocol::detect_http("GET"));
    assert!(Protocol::detect_websocket("GET /ws HTTP/1.1\r\nUpgrade: WebSocket\r\n\r\n"));
    assert!(!Protocol::detect_websocket("GET /ws HTTP/1.1\r\n\r\n"));
}

#[test]
fn classifies_first_bytes() {
    assert_eq!(Protocol::from_peek(b"POST /x HTTP/1.1\r\n"), Ok(Protocol::Http));
    assert_eq!(
        Protocol::from_peek(b"GET /x HTTP/1.1\r\nupgrade: websocket\r\n"),
        Ok(Protocol::WebSocket)
    );
    assert_eq!(Protocol::from_peek(b"\x01\x02hello"), Ok(Protocol::Custom));
    assert_eq!(Protocol::from_peek(b"GET \xff"), Err(ProtocolError::InvalidUtf8));
}

fn cli(mock: Option<&str>, mocks: Option<&str>) -> Cli {
    Cli {
        port: 8080,
        host: "127.0.0.1".into(),
        mocks: mocks.map(|s| s.to_string()),
        mock: mock.map(|s| s.to_string()),
        watch: false,
    }
}

#[test]
fn mock_source_choice() {
    assert!(matches!(cli(Some("f.toml"), Some("d")).mock_source(), Ok(MockSource::File(ref f)) if f == "f.toml"));
    assert!(matches!(cli(None, Some("d")).mock_source(), Ok(MockSource::Dir(ref d)) if d == "d"));
    let err = cli(None, None).mock_source().unwrap_err();
    assert!(matches!(err, ConfigError::NoMockSource));
    assert_eq!(err.message(), "You must provide etiher --mock <file> or --mocks <dir>");
}

fn block(body: &str) -> MockBlock {
    MockBlock {
        kind: None,
        matcher: MatchBlock::default(),
        response: ResponseBlock {
            status: 200,
            headers: StrMap::new(),
            body: Some(body.into()),
            options: ResponseOptions { delay: None, connection_close: None },
        },
    }
}

#[test]
fn mock_names_follow_directories() {
    assert_eq!(Cli::mock_namespace(&vec!["game".into(), "new".into()], "hello"), "game::new");
    assert_eq!(Cli::mock_namespace(&vec![], "user"), "user");
    assert_eq!(Cli::mock_key("game::new", "goodbye"), "game::new::goodbye");

    let mut all = StrMap::new();
    let file = StrMap::from_pairs(vec![("goodbye".to_string(), block("bye")), ("hi".to_string(), block("hi"))]);
    Cli::register_mocks(&mut all, "game::new", file);
    assert_eq!(all.len(), 2);
    assert_eq!(all.key_at(0), "game::new::goodbye");
    assert_eq!(all.get("game::new::hi").unwrap().response.body.as_deref(), Some("hi"));
}

#[test]
fn strmap_insert_then_get() {
    let mut m: StrMap<u32> = StrMap::new();
    m.insert("a".into(), 1);
    m.insert("b".into(), 2);
    m.insert("a".into(), 3);
    assert_eq!(m.len(), 2);
    assert_eq!(m.get("a"), Some(&3));
    assert_eq!(m.key_at(0), "a");
    assert_eq!(m.get("c"), None);
    let mut other: StrMap<u32> = StrMap::new();
    other.insert("c".into(), 4);
    m.extend(other);
    assert_eq!(m.get("c"), Some(&4));
}
