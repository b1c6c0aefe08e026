use rust_load_balancer::proxy::forward::{first_hop, forwarded_for, upstream_uri};
use rust_load_balancer::proxy::{ErrorResponse, ProxyError};
use rust_load_balancer::retry::RetryDecision;

#[test]
fn the_first_hop_is_the_first_entry_without_blanks() {
    assert_eq!(first_hop("203.0.113.7, 10.0.0.1"), Some("203.0.113.7".to_string()));
    assert_eq!(first_hop("203.0.113.7"), Some("203.0.113.7".to_string()));
    assert_eq!(first_hop("  a  ,b"), Some("a".to_string()));
    assert_eq!(first_hop("\t x y\t , z"), Some("x y".to_string()));
    assert_eq!(first_hop("a,"), Some("a".to_string()));
    assert_eq!(first_hop("2001:db8::1 ,10.0.0.1,10.0.0.2"), Some("2001:db8::1".to_string()));
    assert_eq!(first_hop("\u{e9}t\u{e9}, b"), Some("\u{e9}t\u{e9}".to_string()));
}

#[test]
fn an_empty_first_entry_gives_no_hop() {
    assert_eq!(first_hop(""), None);
    assert_eq!(first_hop("   "), None);
    assert_eq!(first_hop(","), None);
    assert_eq!(first_hop(" \t, 10.0.0.1"), None);
}

#[test]
fn the_client_is_appended_to_the_forwarding_chain() {
    assert_eq!(forwarded_for(Some("10.0.0.1"), Some("203.0.113.7")), "10.0.0.1, 203.0.113.7");
    assert_eq!(forwarded_for(None, Some("203.0.113.7")), "203.0.113.7");
    assert_eq!(forwarded_for(Some("10.0.0.1, 10.0.0.2"), None), "10.0.0.1, 10.0.0.2");
    assert_eq!(forwarded_for(None, None), "unknown");
}

#[test]
fn the_upstream_uri_keeps_path_and_query() {
    assert_eq!(
        upstream_uri("http://b1:8001/", Some("/x?y=1&z=2")),
        Ok("http://b1:8001/x?y=1&z=2".to_string())
    );
    assert_eq!(upstream_uri("http://b1:8001/", None), Ok("http://b1:8001/".to_string()));
    assert_eq!(
        upstream_uri("https://backend.example.com/ignored/base?q=1", Some("/api/items")),
        Ok("https://backend.example.com/api/items".to_string())
    );
    assert_eq!(upstream_uri("http://10.0.0.5:9000", Some("/")), Ok("http://10.0.0.5:9000/".to_string()));
}

#[test]
fn a_backend_url_that_is_no_uri_is_an_invalid_uri() {
    match upstream_uri("http://exa mple.com/", Some("/x")) {
        Err(ProxyError::InvalidUri(why)) => assert!(why.starts_with("Invalid backend URL: ")),
        other => panic!("unexpected: {:?}", other),
    }
    match upstream_uri("", Some("/x")) {
        Err(ProxyError::InvalidUri(why)) => assert!(why.starts_with("Invalid backend URL: ")),
        other => panic!("unexpected: {:?}", other),
    }
}

#[test]
fn a_backend_url_without_scheme_or_authority_is_an_invalid_uri() {
    assert_eq!(
        upstream_uri("/only/a/path", Some("/x")),
        Err(ProxyError::InvalidUri(
            "Invalid backend URL: missing scheme or authority".to_string()
        ))
    );
    assert_eq!(
        upstream_uri("b1:8001", Some("/x")),
        Err(ProxyError::InvalidUri(
            "Invalid backend URL: missing scheme or authority".to_string()
        ))
    );
}

#[test]
fn parts_that_make_no_uri_are_an_invalid_uri() {
    match upstream_uri("http://b1:8001/", Some("/a b")) {
        Err(ProxyError::InvalidUri(why)) => assert!(why.starts_with("Failed to build URI: ")),
        other => panic!("unexpected: {:?}", other),
    }
}

#[test]
fn errors_map_to_statuses_and_bodies() {
    let cases = vec![
        (ProxyError::NoHealthyBackends, 503u16, "No healthy backends available", "No healthy backends available"),
        (ProxyError::BackendError("reset".to_string()), 502, "Backend error", "Backend error: reset"),
        (ProxyError::Timeout, 504, "Gateway timeout", "Request timeout"),
        (
            ProxyError::CircuitBreakerOpen("b1:8001".to_string()),
            503,
            "Service temporarily unavailable",
            "Circuit breaker open for backend: b1:8001",
        ),
        (
            ProxyError::ConnectionLimitReached("b1:8001".to_string()),
            503,
            "Backend overloaded",
            "Connection limit reached for backend: b1:8001",
        ),
        (ProxyError::InvalidUri("bad".to_string()), 400, "Invalid request URI", "Invalid URI: bad"),
        (ProxyError::RequestError("short body".to_string()), 400, "Invalid request", "Request error: short body"),
    ];
    for (error, status, body, text) in cases {
        assert_eq!(error.status_code(), status);
        assert_eq!(error.body(), body);
        assert_eq!(error.message(), text);
        let response = error.to_response();
        assert_eq!(
            response,
            ErrorResponse { status, x_error: text.to_string(), body: body.to_string() }
        );
        assert_eq!(ErrorResponse::from(error), response);
    }
}

#[test]
fn the_retry_policy_of_the_dispatcher() {
    assert_eq!(ProxyError::NoHealthyBackends.retry_decision(), RetryDecision::Retry);
    assert_eq!(ProxyError::BackendError("x".to_string()).retry_decision(), RetryDecision::Retry);
    assert_eq!(ProxyError::Timeout.retry_decision(), RetryDecision::Retry);
    assert_eq!(
        ProxyError::CircuitBreakerOpen("b".to_string()).retry_decision(),
        RetryDecision::NoRetry
    );
    assert_eq!(
        ProxyError::ConnectionLimitReached("b".to_string()).retry_decision(),
        RetryDecision::NoRetry
    );
    assert_eq!(ProxyError::InvalidUri("x".to_string()).retry_decision(), RetryDecision::NoRetry);
    assert_eq!(ProxyError::RequestError("x".to_string()).retry_decision(), RetryDecision::NoRetry);
}
