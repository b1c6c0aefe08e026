use rust_load_balancer::circuit_breaker::CircuitBreakerState;
use rust_load_balancer::config::{
    BackendConfig, CircuitBreakerConfig, Config, HealthCheckConfig, LoadBalancerAlgorithm,
    LoadBalancerConfig, MetricsConfig, RetryConfig,
};
use rust_load_balancer::health::{CheckerAction, CheckerEvent, ProbeError, ProbeOutcome};
use rust_load_balancer::metrics::{MetricEvent, MetricsCollector};
use rust_load_balancer::proxy::forward::upstream_uri;
use rust_load_balancer::proxy::proxy::{
    Admission, AttemptResult, NextMove, ProbeTarget, UpstreamOutcome,
};
use rust_load_balancer::proxy::{BackendPool, Proxy, ProxyError};
use url::Url;

fn entries(urls: &[&str], max_connections: usize) -> Vec<BackendConfig> {
    urls.iter()
        .map(|u| BackendConfig { url: Url::parse(u).unwrap(), weight: 1, max_connections })
        .collect()
}

fn config(algorithm: LoadBalancerAlgorithm, breaker: CircuitBreakerConfig, retry: RetryConfig) -> Config {
    Config {
        load_balancer: LoadBalancerConfig { algorithm },
        backends: Vec::new(),
        health_check: HealthCheckConfig {
            interval_secs: 1,
            timeout_secs: 1,
            unhealthy_threshold: 2,
            healthy_threshold: 2,
            path: "/health".to_string(),
        },
        circuit_breaker: breaker,
        retry,
        metrics: MetricsConfig { enabled: false, port: 9090, path: "/metrics".to_string() },
    }
}

fn proxy_over(urls: &[&str], max_connections: usize) -> Proxy {
    proxy_with(
        urls,
        max_connections,
        CircuitBreakerConfig { failure_threshold: 3, success_threshold: 2, timeout_secs: 1 },
        RetryConfig { max_attempts: 3, backoff_base_ms: 10, backoff_max_ms: 100 },
    )
}

fn proxy_with(
    urls: &[&str],
    max_connections: usize,
    breaker: CircuitBreakerConfig,
    retry: RetryConfig,
) -> Proxy {
    let pool = BackendPool::new(entries(urls, max_connections));
    Proxy::new(config(LoadBalancerAlgorithm::RoundRobin, breaker, retry), pool, MetricsCollector::new())
}

fn serve(proxy: &mut Proxy, status: u16) -> String {
    let admission = proxy.start_attempt(None).unwrap();
    let id = admission.backend_id.clone();
    assert_eq!(
        proxy.finish_attempt(&id, UpstreamOutcome::Response(status), 1),
        AttemptResult::Response(status)
    );
    id
}

fn wait_millis(ms: u64) {
    let start = std::time::Instant::now();
    while start.elapsed() < std::time::Duration::from_millis(ms) {
        std::hint::spin_loop();
    }
}

#[test]
fn requests_go_round_the_healthy_backends() {
    let mut proxy = proxy_over(&["http://b1:8001", "http://b2:8002", "http://b3:8003"], 10);
    let mut seen = Vec::new();
    for _ in 0..9 {
        seen.push(serve(&mut proxy, 200));
    }
    assert_eq!(
        seen,
        vec![
            "b1:8001", "b2:8002", "b3:8003", "b1:8001", "b2:8002", "b3:8003", "b1:8001",
            "b2:8002", "b3:8003"
        ]
    );
    for slot in 0..3 {
        let m = proxy.backend_pool().backend_at(slot).get_metrics();
        assert_eq!(m.total_requests, 3);
        assert_eq!(m.failed_requests, 0);
        assert_eq!(m.active_connections, 0);
    }
}

#[test]
fn an_unhealthy_backend_gets_no_requests() {
    let mut proxy = proxy_over(&["http://b1:8001", "http://b2:8002"], 10);
    for _ in 0..2 {
        let mut results = Vec::new();
        results.push(Ok(proxy.record_probe("b1:8001", ProbeOutcome::Status(500), 1).unwrap().0));
        results.push(Ok(proxy.record_probe("b2:8002", ProbeOutcome::Status(200), 1).unwrap().0));
        let summary = proxy.finish_health_round(&results);
        assert_eq!(summary.healthy, 1);
        assert_eq!(summary.unhealthy, 1);
        assert_eq!(summary.healthy_backends, 1);
        assert_eq!(summary.total_backends, 2);
    }
    for _ in 0..4 {
        assert_eq!(serve(&mut proxy, 200), "b2:8002");
    }
}

#[test]
fn without_a_healthy_backend_the_client_gets_a_503() {
    let mut proxy = proxy_over(&["http://b1:8001"], 10);
    proxy.record_probe("b1:8001", ProbeOutcome::TimedOut, 1);
    proxy.finish_health_round(&Vec::new());
    let error = proxy.start_attempt(None).unwrap_err();
    assert_eq!(error, ProxyError::NoHealthyBackends);
    assert_eq!(error.to_response().status, 503);
    assert_eq!(error.to_response().body, "No healthy backends available");
    let mut empty = proxy_over(&[], 10);
    assert_eq!(empty.start_attempt(Some("203.0.113.7")), Err(ProxyError::NoHealthyBackends));
}

#[test]
fn the_circuit_opens_and_recovers() {
    let mut proxy = proxy_over(&["http://b1:8001"], 10);
    for _ in 0..3 {
        assert_eq!(serve(&mut proxy, 500), "b1:8001");
    }
    assert_eq!(
        proxy.circuit_breaker("b1:8001").unwrap().get_state(),
        CircuitBreakerState::Open
    );
    // The fourth request is turned away without a forwarded call.
    let error = proxy.start_attempt(None).unwrap_err();
    assert_eq!(error, ProxyError::CircuitBreakerOpen("b1:8001".to_string()));
    assert_eq!(error.to_response().status, 503);
    let m = proxy.backend_pool().backend_at(0).get_metrics();
    assert_eq!(m.total_requests, 3);
    assert_eq!(m.active_connections, 0);

    wait_millis(1100);
    assert_eq!(serve(&mut proxy, 200), "b1:8001");
    assert_eq!(
        proxy.circuit_breaker("b1:8001").unwrap().get_state(),
        CircuitBreakerState::HalfOpen
    );
    assert_eq!(serve(&mut proxy, 200), "b1:8001");
    assert_eq!(
        proxy.circuit_breaker("b1:8001").unwrap().get_state(),
        CircuitBreakerState::Closed
    );
    assert_eq!(proxy.backend_pool().backend_at(0).get_metrics().total_requests, 5);
}

#[test]
fn the_connection_cap_turns_requests_away() {
    let mut proxy = proxy_over(&["http://b1:8001"], 2);
    let mut admitted = Vec::new();
    let mut rejected = Vec::new();
    for _ in 0..5 {
        match proxy.start_attempt(None) {
            Ok(admission) => admitted.push(admission),
            Err(error) => rejected.push(error),
        }
        assert!(proxy.backend_pool().backend_at(0).active_connections() <= 2);
    }
    assert_eq!(
        admitted,
        vec![
            Admission {
                backend_id: "b1:8001".to_string(),
                backend_url: "http://b1:8001/".to_string()
            },
            Admission {
                backend_id: "b1:8001".to_string(),
                backend_url: "http://b1:8001/".to_string()
            },
        ]
    );
    assert_eq!(rejected.len(), 3);
    for error in &rejected {
        assert_eq!(*error, ProxyError::ConnectionLimitReached("b1:8001".to_string()));
        assert_eq!(error.to_response().status, 503);
    }
    assert_eq!(proxy.backend_pool().backend_at(0).active_connections(), 2);
    proxy.finish_attempt("b1:8001", UpstreamOutcome::Response(200), 500);
    assert_eq!(proxy.backend_pool().backend_at(0).active_connections(), 1);
    assert!(proxy.start_attempt(None).is_ok());
    assert!(proxy.start_attempt(None).is_err());
}

#[test]
fn a_transient_failure_is_retried() {
    let mut proxy = proxy_over(&["http://b1:8001"], 10);
    let first = proxy.start_attempt(None).unwrap();
    let result = proxy.finish_attempt(&first.backend_id, UpstreamOutcome::Response(502), 1);
    assert_eq!(result, AttemptResult::Response(502));
    match proxy.after_attempt(1, result) {
        NextMove::RetryAfter(ms) => assert!(10 <= ms && ms <= 12),
        other => panic!("unexpected: {:?}", other),
    }
    let second = proxy.start_attempt(None).unwrap();
    let result = proxy.finish_attempt(&second.backend_id, UpstreamOutcome::Response(200), 1);
    assert_eq!(proxy.after_attempt(2, result), NextMove::Respond(200));
    let m = proxy.backend_pool().backend_at(0).get_metrics();
    assert_eq!(m.total_requests, 2);
    assert_eq!(m.failed_requests, 1);
    assert_eq!(m.active_connections, 0);
}

#[test]
fn the_last_attempt_hands_on_what_it_got() {
    let proxy = proxy_over(&["http://b1:8001"], 10);
    assert_eq!(proxy.after_attempt(3, AttemptResult::Response(503)), NextMove::Respond(503));
    assert_eq!(
        proxy.after_attempt(3, AttemptResult::Failed(ProxyError::Timeout)),
        NextMove::Fail(ProxyError::Timeout)
    );
    assert_eq!(
        proxy.after_attempt(7, AttemptResult::Failed(ProxyError::NoHealthyBackends)),
        NextMove::Fail(ProxyError::NoHealthyBackends)
    );
    match proxy.after_attempt(2, AttemptResult::Failed(ProxyError::BackendError("reset".to_string()))) {
        NextMove::RetryAfter(ms) => assert!(20 <= ms && ms <= 25),
        other => panic!("unexpected: {:?}", other),
    }
}

#[test]
fn responses_that_are_not_retried_go_to_the_client() {
    let proxy = proxy_over(&["http://b1:8001"], 10);
    assert_eq!(proxy.after_attempt(1, AttemptResult::Response(200)), NextMove::Respond(200));
    assert_eq!(proxy.after_attempt(1, AttemptResult::Response(302)), NextMove::Respond(302));
    assert_eq!(proxy.after_attempt(1, AttemptResult::Response(404)), NextMove::Respond(404));
    assert_eq!(proxy.after_attempt(1, AttemptResult::Response(400)), NextMove::Respond(400));
    for code in [408u16, 429, 500, 503] {
        match proxy.after_attempt(1, AttemptResult::Response(code)) {
            NextMove::RetryAfter(ms) => assert!(10 <= ms && ms <= 12),
            other => panic!("unexpected: {:?}", other),
        }
    }
}

#[test]
fn an_invalid_uri_is_surfaced_at_once() {
    let mut proxy = proxy_over(&["mailto:someone@example.com"], 10);
    let admission = proxy.start_attempt(None).unwrap();
    assert_eq!(admission.backend_id, "unknown:80");
    let why = match upstream_uri(&admission.backend_url, Some("/x")) {
        Err(ProxyError::InvalidUri(why)) => why,
        other => panic!("unexpected: {:?}", other),
    };
    let result = proxy.finish_attempt(&admission.backend_id, UpstreamOutcome::InvalidUri(why), 0);
    let next = proxy.after_attempt(1, result);
    let error = match next {
        NextMove::Fail(error) => error,
        other => panic!("unexpected: {:?}", other),
    };
    let response = error.to_response();
    assert_eq!(response.status, 400);
    assert!(response.x_error.starts_with("Invalid URI: "));
    assert_eq!(response.body, "Invalid request URI");
    // The slot was given back and the failure counted.
    let m = proxy.backend_pool().backend_at(0).get_metrics();
    assert_eq!(m.active_connections, 0);
    assert_eq!(m.total_requests, 1);
    assert_eq!(m.failed_requests, 1);
}

#[test]
fn every_outcome_gives_the_slot_back() {
    let mut proxy = proxy_with(
        &["http://b1:8001"],
        3,
        CircuitBreakerConfig { failure_threshold: 100, success_threshold: 1, timeout_secs: 1 },
        RetryConfig { max_attempts: 1, backoff_base_ms: 1, backoff_max_ms: 1 },
    );
    let outcomes = vec![
        UpstreamOutcome::Response(200),
        UpstreamOutcome::Response(503),
        UpstreamOutcome::TransportError("connection reset".to_string()),
        UpstreamOutcome::TimedOut,
        UpstreamOutcome::InvalidUri("bad".to_string()),
    ];
    let expected = vec![
        AttemptResult::Response(200),
        AttemptResult::Response(503),
        AttemptResult::Failed(ProxyError::BackendError("connection reset".to_string())),
        AttemptResult::Failed(ProxyError::Timeout),
        AttemptResult::Failed(ProxyError::InvalidUri("bad".to_string())),
    ];
    for (outcome, result) in outcomes.into_iter().zip(expected) {
        let before = proxy.backend_pool().backend_at(0).active_connections();
        let admission = proxy.start_attempt(None).unwrap();
        assert_eq!(proxy.backend_pool().backend_at(0).active_connections(), before + 1);
        assert_eq!(proxy.finish_attempt(&admission.backend_id, outcome, 2), result);
        assert_eq!(proxy.backend_pool().backend_at(0).active_connections(), before);
    }
    let m = proxy.backend_pool().backend_at(0).get_metrics();
    assert_eq!(m.total_requests, 5);
    assert_eq!(m.failed_requests, 4);
}

#[test]
fn finishing_on_a_backend_that_left_the_pool() {
    let mut proxy = proxy_over(&["http://b1:8001", "http://b2:8002"], 3);
    let admission = proxy.start_attempt(None).unwrap();
    assert!(proxy.remove_backend(&admission.backend_id));
    assert!(proxy.circuit_breaker("b1:8001").is_none());
    proxy.metrics_mut().drain();
    let result = proxy.finish_attempt(&admission.backend_id, UpstreamOutcome::Response(200), 2);
    assert_eq!(result, AttemptResult::Response(200));
    // A breaker lives no longer than its backend.
    assert!(proxy.circuit_breaker("b1:8001").is_none());
    assert_eq!(
        proxy.metrics_mut().drain(),
        vec![MetricEvent::BackendRequest {
            backend: "b1:8001".to_string(),
            status: "success".to_string(),
            duration_ms: 2
        }]
    );
    assert_eq!(proxy.backend_pool().len(), 1);
    assert_eq!(proxy.backend_pool().backend_at(0).get_metrics().total_requests, 0);
    assert_eq!(serve(&mut proxy, 200), "b2:8002");
}

#[test]
fn a_request_is_noted_when_it_comes_in() {
    let mut proxy = proxy_over(&["http://b1:8001"], 3);
    let a = proxy.begin_request(Some("203.0.113.7, 10.0.0.1"), Some("192.0.2.1:4000"));
    let b = proxy.begin_request(None, None);
    let c = proxy.begin_request(Some(" , 10.0.0.1"), None);
    let d = proxy.begin_request(None, Some("192.0.2.1:4000"));
    let e = proxy.begin_request(Some(" , 10.0.0.1"), Some("192.0.2.1:4000"));
    assert_eq!(a.client_addr, Some("203.0.113.7".to_string()));
    assert_eq!(b.client_addr, None);
    assert_eq!(c.client_addr, None);
    assert_eq!(d.client_addr, Some("192.0.2.1:4000".to_string()));
    assert_eq!(e.client_addr, Some("192.0.2.1:4000".to_string()));
    for ctx in [&a, &b, &c] {
        assert_eq!(ctx.request_id.len(), 36);
        assert_eq!(ctx.request_id.matches('-').count(), 4);
    }
    assert_ne!(a.request_id, b.request_id);
    assert_ne!(b.request_id, c.request_id);
    assert_ne!(a.request_id, c.request_id);
}

#[test]
fn the_sink_is_told_of_a_request() {
    let mut proxy = proxy_over(&["http://b1:8001"], 3);
    assert_eq!(
        proxy.metrics_mut().drain(),
        vec![MetricEvent::BackendCounts { healthy: 0, total: 1 }]
    );
    proxy.begin_request(None, None);
    let admission = proxy.start_attempt(None).unwrap();
    proxy.finish_attempt(&admission.backend_id, UpstreamOutcome::Response(200), 7);
    proxy.end_request("GET", Some(200), Some("b1:8001"), 9);
    assert_eq!(
        proxy.metrics_mut().drain(),
        vec![
            MetricEvent::ConnectionOpened,
            MetricEvent::BackendConnections { backend: "b1:8001".to_string(), count: 1 },
            MetricEvent::BackendRequest {
                backend: "b1:8001".to_string(),
                status: "success".to_string(),
                duration_ms: 7
            },
            MetricEvent::BackendConnections { backend: "b1:8001".to_string(), count: 0 },
            MetricEvent::CircuitBreakerState { backend: "b1:8001".to_string(), value: 0 },
            MetricEvent::ConnectionClosed,
            MetricEvent::Request {
                method: "GET".to_string(),
                status_code: "200".to_string(),
                backend: "b1:8001".to_string(),
                duration_ms: 9
            },
        ]
    );
}

#[test]
fn the_sink_is_told_of_a_failed_request() {
    let mut proxy = proxy_with(
        &["http://b1:8001"],
        3,
        CircuitBreakerConfig { failure_threshold: 1, success_threshold: 1, timeout_secs: 60 },
        RetryConfig { max_attempts: 1, backoff_base_ms: 1, backoff_max_ms: 1 },
    );
    proxy.metrics_mut().drain();
    let admission = proxy.start_attempt(None).unwrap();
    proxy.finish_attempt(&admission.backend_id, UpstreamOutcome::Response(302), 7);
    proxy.finish_attempt("b1:8001", UpstreamOutcome::TimedOut, 8);
    proxy.end_request("POST", None, None, 20);
    proxy.end_request("POST", Some(502), None, 21);
    assert_eq!(
        proxy.metrics_mut().drain(),
        vec![
            MetricEvent::BackendConnections { backend: "b1:8001".to_string(), count: 1 },
            MetricEvent::BackendRequest {
                backend: "b1:8001".to_string(),
                status: "failure".to_string(),
                duration_ms: 7
            },
            MetricEvent::BackendConnections { backend: "b1:8001".to_string(), count: 0 },
            MetricEvent::CircuitBreakerState { backend: "b1:8001".to_string(), value: 0 },
            MetricEvent::BackendRequest {
                backend: "b1:8001".to_string(),
                status: "failure".to_string(),
                duration_ms: 8
            },
            MetricEvent::BackendConnections { backend: "b1:8001".to_string(), count: 0 },
            MetricEvent::CircuitBreakerState { backend: "b1:8001".to_string(), value: 1 },
            MetricEvent::ConnectionClosed,
            MetricEvent::Request {
                method: "POST".to_string(),
                status_code: "503".to_string(),
                backend: "none".to_string(),
                duration_ms: 20
            },
            MetricEvent::ConnectionClosed,
            MetricEvent::Request {
                method: "POST".to_string(),
                status_code: "502".to_string(),
                backend: "unknown".to_string(),
                duration_ms: 21
            },
        ]
    );
}

#[test]
fn a_round_of_probes_is_planned_and_recorded() {
    let mut proxy = proxy_over(&["http://b1:8001", "mailto:someone@example.com"], 3);
    assert_eq!(
        proxy.probe_targets(),
        vec![
            ProbeTarget {
                backend_id: "b1:8001".to_string(),
                url: Ok("http://b1:8001/health".to_string())
            },
            ProbeTarget { backend_id: "unknown:80".to_string(), url: Err(ProbeError::InvalidUrl) },
        ]
    );
    proxy.metrics_mut().drain();
    let found = proxy.record_probe("b1:8001", ProbeOutcome::Status(200), 4).unwrap();
    assert!(found.0.healthy);
    assert_eq!(found.1, None);
    assert!(proxy.record_probe("b9:8009", ProbeOutcome::Status(200), 4).is_none());
    let results = vec![Ok(found.0), Err(ProbeError::InvalidUrl)];
    let summary = proxy.finish_health_round(&results);
    assert_eq!(summary.healthy, 1);
    assert_eq!(summary.unhealthy, 1);
    assert_eq!(
        proxy.metrics_mut().drain(),
        vec![
            MetricEvent::BackendHealth { backend: "b1:8001".to_string(), value: 1 },
            MetricEvent::BackendCounts { healthy: 1, total: 2 },
        ]
    );
    assert_eq!(serve(&mut proxy, 200), "b1:8001");
    assert_eq!(serve(&mut proxy, 200), "b1:8001");
}

#[test]
fn the_health_loop_ends_on_shutdown() {
    let mut proxy = proxy_over(&["http://b1:8001"], 3);
    assert_eq!(proxy.health_event(CheckerEvent::Tick), CheckerAction::RunRound);
    assert_eq!(proxy.health_event(CheckerEvent::ShutdownChanged(false)), CheckerAction::Wait);
    assert_eq!(proxy.health_event(CheckerEvent::ShutdownChanged(true)), CheckerAction::Stop);
    assert_eq!(proxy.health_event(CheckerEvent::Tick), CheckerAction::Stop);
}

#[test]
fn backends_come_and_go_while_the_proxy_runs() {
    let mut proxy = proxy_over(&["http://b1:8001"], 3);
    proxy.add_backend(BackendConfig {
        url: Url::parse("http://b2:8002").unwrap(),
        weight: 1,
        max_connections: 3,
    });
    assert_eq!(proxy.backend_pool().len(), 2);
    // The added backend waits for a healthy probe and a rebuild.
    assert_eq!(serve(&mut proxy, 200), "b1:8001");
    assert_eq!(serve(&mut proxy, 200), "b1:8001");
    proxy.record_probe("b1:8001", ProbeOutcome::Status(200), 1);
    proxy.record_probe("b2:8002", ProbeOutcome::Status(200), 1);
    proxy.finish_health_round(&Vec::new());
    let a = serve(&mut proxy, 200);
    let b = serve(&mut proxy, 200);
    assert_ne!(a, b);
    assert!(proxy.remove_backend("b1:8001"));
    assert!(!proxy.remove_backend("b1:8001"));
    assert_eq!(serve(&mut proxy, 200), "b2:8002");
    assert_eq!(serve(&mut proxy, 200), "b2:8002");
}

#[test]
fn the_retry_strategy_is_the_configured_one() {
    let proxy = proxy_over(&["http://b1:8001"], 3);
    assert_eq!(proxy.retry_strategy().capped(1), 10);
    assert_eq!(proxy.retry_strategy().capped(9), 100);
}
