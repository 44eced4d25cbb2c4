use raven::logger::MatchError;
use raven::mock_engine::MatchBlock;
use raven::request::HttpRequest;
use raven::strmap::StrMap;

fn base_request() -> HttpRequest {
    HttpRequest {
        method: "GET".into(),
        path: "/users?id=42".into(),
        version: "HTTP/1.1".into(),
        headers: StrMap::from_pairs(vec![("content-type".into(), "application/json".into())]),
        body: "{\"ok\":true}".into(),
        query: StrMap::new(),
    }
}

fn with_query(pairs: Vec<(&str, Vec<&str>)>) -> HttpRequest {
    let mut req = base_request();
    req.query = StrMap::from_pairs(
        pairs
            .into_iter()
            .map(|(k, vs)| (k.to_string(), vs.into_iter().map(|v| v.to_string()).collect()))
            .collect(),
    );
    req
}

#[test]
fn method_match_ok() {
    let matcher = MatchBlock {
        method: Some("GET".into()),
        ..Default::default()
    };

    assert!(matcher.matches(&base_request()).is_ok())
}

#[test]
fn method_mismatch() {
    let mut req = base_request();
    req.method = "POST".into();

    let matcher = MatchBlock {
        method: Some("GET".into()),
        ..Default::default()
    };

    let err = matcher.matches(&req).unwrap_err();
    assert!(matches!(err, MatchError::MethodMismatch { .. }));
}

#[test]
fn query_mismatch() {
    let matcher = MatchBlock {
        query: StrMap::from_pairs(vec![("id".into(), "43".into())]),
        ..Default::default()
    };

    assert!(matcher.matches(&base_request()).is_err());
}

#[test]
fn unconstrained_block_matches_anything() {
    let matcher = MatchBlock::default();
    assert!(matcher.matches(&base_request()).is_ok());
}

#[test]
fn method_mismatch_reports_both_methods() {
    let mut req = base_request();
    req.method = "POST".into();
    let matcher = MatchBlock { method: Some("GET".into()), ..Default::default() };
    match matcher.matches(&req) {
        Err(MatchError::MethodMismatch { expected, found }) => {
            assert_eq!(expected, "GET");
            assert_eq!(found, "POST");
        }
        other => panic!("unexpected {:?}", other),
    }
}

#[test]
fn missing_query_key_reports_none() {
    let matcher = MatchBlock {
        query: StrMap::from_pairs(vec![("id".into(), "43".into())]),
        ..Default::default()
    };
    match matcher.matches(&base_request()) {
        Err(MatchError::QueryMismatch { key, expected, found }) => {
            assert_eq!(key, "id");
            assert_eq!(expected, "43");
            assert_eq!(found, None);
        }
        other => panic!("unexpected {:?}", other),
    }
}

#[test]
fn query_value_among_several_matches() {
    let req = with_query(vec![("id", vec!["1", "43"])]);
    let matcher = MatchBlock {
        query: StrMap::from_pairs(vec![("id".into(), "43".into())]),
        ..Default::default()
    };
    assert!(matcher.matches(&req).is_ok());
}

#[test]
fn wrong_query_value_reports_values() {
    let req = with_query(vec![("id", vec!["1", "2"])]);
    let matcher = MatchBlock {
        query: StrMap::from_pairs(vec![("id".into(), "43".into())]),
        ..Default::default()
    };
    match matcher.matches(&req) {
        Err(MatchError::QueryMismatch { found, .. }) => {
            assert_eq!(found, Some(vec!["1".to_string(), "2".to_string()]));
        }
        other => panic!("unexpected {:?}", other),
    }
}

#[test]
fn header_constraints() {
    let ok = MatchBlock {
        header: StrMap::from_pairs(vec![("content-type".into(), "application/json".into())]),
        ..Default::default()
    };
    assert!(ok.matches(&base_request()).is_ok());

    let missing = MatchBlock {
        header: StrMap::from_pairs(vec![("x-token".into(), "abc".into())]),
        ..Default::default()
    };
    match missing.matches(&base_request()) {
        Err(MatchError::HeaderMismatch { key, expected, found }) => {
            assert_eq!(key, "x-token");
            assert_eq!(expected, "abc");
            assert_eq!(found, None);
        }
        other => panic!("unexpected {:?}", other),
    }

    let wrong = MatchBlock {
        header: StrMap::from_pairs(vec![("content-type".into(), "text/plain".into())]),
        ..Default::default()
    };
    match wrong.matches(&base_request()) {
        Err(MatchError::HeaderMismatch { found, .. }) => {
            assert_eq!(found, Some("application/json".to_string()));
        }
        other => panic!("unexpected {:?}", other),
    }
}

#[test]
fn body_constraint() {
    let ok = MatchBlock { body: Some("{\"ok\":true}".into()), ..Default::default() };
    assert!(ok.matches(&base_request()).is_ok());
    let wrong = MatchBlock { body: Some("{}".into()), ..Default::default() };
    match wrong.matches(&base_request()) {
        Err(MatchError::BodyMismatch { expected, found }) => {
            assert_eq!(expected, "{}");
            assert_eq!(found, "{\"ok\":true}");
        }
        other => panic!("unexpected {:?}", other),
    }
}

#[test]
fn method_is_checked_before_query() {
    let mut req = base_request();
    req.method = "PUT".into();
    let matcher = MatchBlock {
        method: Some("GET".into()),
        query: StrMap::from_pairs(vec![("id".into(), "43".into())]),
        ..Default::default()
    };
    assert!(matches!(matcher.matches(&req), Err(MatchError::MethodMismatch { .. })));
}

#[test]
fn labels() {
    let e = MatchError::BodyMismatch { expected: "a".into(), found: "b".into() };
    assert_eq!(e.label(), "BODY");
    let e = MatchError::MethodMismatch { expected: "a".into(), found: "b".into() };
    assert_eq!(e.label(), "METHOD");
    let e = MatchError::QueryMismatch { key: "k".into(), expected: "a".into(), found: None };
    assert_eq!(e.label(), "QUERY");
    let e = MatchError::HeaderMismatch { key: "k".into(), expected: "a".into(), found: None };
    assert_eq!(e.label(), "HEADER");
}
