use raven::handler::match_wildcard;

#[test]
fn exact_match_no_params() {
    let result = match_wildcard("user::profile", "user::profile");
    assert!(result.is_some());
    assert!(result.unwrap().is_empty());
}

#[test]
fn wildcard_single_param() {
    let params = match_wildcard("user::42", "user::{id}").unwrap();
    assert_eq!(params.get("id"), Some(&"42".to_string()));
}

#[test]
fn multiple_params() {
    let params = match_wildcard("game::1::level::3", "game::{game_id}::level::{lvl}").unwrap();

    assert_eq!(params.get("game_id").unwrap(), "1");
    assert_eq!(params.get("lvl").unwrap(), "3");
}

#[test]
fn mismatch_literal() {
    assert!(match_wildcard("user::42", "admin::{id}").is_none());
}

#[test]
fn segment_count_must_agree() {
    assert!(match_wildcard("user::42::extra", "user::{id}").is_none());
    assert!(match_wildcard("user", "user::{id}").is_none());
}

#[test]
fn repeated_placeholder_keeps_last_value() {
    let params = match_wildcard("a::b", "{x}::{x}").unwrap();
    assert_eq!(params.len(), 1);
    assert_eq!(params.get("x").unwrap(), "b");
}

#[test]
fn empty_placeholder_name() {
    let params = match_wildcard("a", "{}").unwrap();
    assert_eq!(params.get("").unwrap(), "a");
}

#[test]
fn lone_brace_is_literal() {
    assert!(match_wildcard("a", "{").is_none());
    assert!(match_wildcard("{", "{").is_some());
}
