use rust_load_balancer::circuit_breaker::CircuitBreakerState;
use rust_load_balancer::config::{
    BackendConfig, CircuitBreakerConfig, Config, HealthCheckConfig, LoadBalancerAlgorithm,
    LoadBalancerConfig, MetricsConfig, RetryConfig,
};
use rust_load_balancer::health::ProbeOutcome;
use rust_load_balancer::metrics::MetricsCollector;
use rust_load_balancer::proxy::forward::upstream_uri;
use rust_load_balancer::proxy::proxy::{Admission, Handled, RequestContext, UpstreamOutcome};
use rust_load_balancer::proxy::{BackendPool, Proxy, ProxyError};
use std::sync::atomic::{AtomicU32, AtomicU64, Ordering};
use url::Url;

fn proxy_on(
    urls: &[&str],
    max_connections: usize,
    algorithm: LoadBalancerAlgorithm,
    max_attempts: u32,
) -> Proxy {
    let pool = BackendPool::new(
        urls.iter()
            .map(|u| BackendConfig { url: Url::parse(u).unwrap(), weight: 1, max_connections })
            .collect(),
    );
    let config = Config {
        load_balancer: LoadBalancerConfig { algorithm },
        backends: Vec::new(),
        health_check: HealthCheckConfig {
            interval_secs: 1,
            timeout_secs: 1,
            unhealthy_threshold: 2,
            healthy_threshold: 2,
            path: "/health".to_string(),
        },
        circuit_breaker: CircuitBreakerConfig {
            failure_threshold: 3,
            success_threshold: 2,
            timeout_secs: 1,
        },
        retry: RetryConfig { max_attempts, backoff_base_ms: 10, backoff_max_ms: 100 },
        metrics: MetricsConfig { enabled: false, port: 9090, path: "/metrics".to_string() },
    };
    Proxy::new(config, pool, MetricsCollector::new())
}

fn answer(status: u16) -> impl Fn(&Admission, &RequestContext) -> (UpstreamOutcome, u64) {
    move |_admission, _ctx| (UpstreamOutcome::Response(status), 1)
}

fn served_by(handled: &Handled) -> String {
    match &handled.result {
        Ok((_, backend)) => backend.clone(),
        Err(e) => panic!("not served: {:?}", e),
    }
}

#[test]
fn nine_requests_go_round_three_backends() {
    let mut proxy = proxy_on(
        &["http://b1:8001", "http://b2:8002", "http://b3:8003"],
        10,
        LoadBalancerAlgorithm::RoundRobin,
        3,
    );
    let mut seen = Vec::new();
    for _ in 0..9 {
        let handled = proxy.handle("GET", None, None, answer(200), |_ms| {});
        assert_eq!(handled.attempts, 1);
        assert_eq!(handled.request_id.len(), 36);
        assert_eq!(handled.result, Ok((200, served_by(&handled))));
        seen.push(served_by(&handled));
    }
    assert_eq!(
        seen,
        vec![
            "b1:8001", "b2:8002", "b3:8003", "b1:8001", "b2:8002", "b3:8003", "b1:8001",
            "b2:8002", "b3:8003"
        ]
    );
}

#[test]
fn requests_avoid_the_backend_whose_probes_fail() {
    let mut proxy =
        proxy_on(&["http://b1:8001", "http://b2:8002"], 10, LoadBalancerAlgorithm::RoundRobin, 3);
    for _ in 0..2 {
        proxy.record_probe("b1:8001", ProbeOutcome::Status(500), 1);
        proxy.record_probe("b2:8002", ProbeOutcome::Status(200), 1);
        proxy.finish_health_round(&Vec::new());
    }
    for _ in 0..4 {
        let handled = proxy.handle("GET", None, None, answer(200), |_ms| {});
        assert_eq!(handled.result, Ok((200, "b2:8002".to_string())));
    }
}

#[test]
fn an_open_circuit_answers_503_without_forwarding() {
    let mut proxy = proxy_on(&["http://b1:8001"], 10, LoadBalancerAlgorithm::RoundRobin, 1);
    let forwarded = AtomicU32::new(0);
    for _ in 0..3 {
        let handled = proxy.handle(
            "GET",
            None,
            None,
            |_a: &Admission, _c: &RequestContext| {
                forwarded.fetch_add(1, Ordering::SeqCst);
                (UpstreamOutcome::Response(500), 1)
            },
            |_ms| {},
        );
        assert_eq!(handled.result, Ok((500, "b1:8001".to_string())));
    }
    assert_eq!(forwarded.load(Ordering::SeqCst), 3);
    let handled = proxy.handle(
        "GET",
        None,
        None,
        |_a: &Admission, _c: &RequestContext| {
            forwarded.fetch_add(1, Ordering::SeqCst);
            (UpstreamOutcome::Response(200), 1)
        },
        |_ms| {},
    );
    assert_eq!(handled.result, Err(ProxyError::CircuitBreakerOpen("b1:8001".to_string())));
    assert_eq!(handled.attempts, 1);
    assert_eq!(forwarded.load(Ordering::SeqCst), 3);
    match handled.result {
        Err(e) => assert_eq!(e.to_response().status, 503),
        Ok(_) => panic!("the circuit is open"),
    }

    let start = std::time::Instant::now();
    while start.elapsed() < std::time::Duration::from_millis(1100) {
        std::hint::spin_loop();
    }
    for _ in 0..2 {
        let handled = proxy.handle("GET", None, None, answer(200), |_ms| {});
        assert_eq!(handled.result, Ok((200, "b1:8001".to_string())));
    }
    assert_eq!(
        proxy.circuit_breaker("b1:8001").unwrap().get_state(),
        CircuitBreakerState::Closed
    );
}

#[test]
fn a_502_is_retried_and_the_200_is_handed_on() {
    let mut proxy = proxy_on(&["http://b1:8001"], 10, LoadBalancerAlgorithm::RoundRobin, 3);
    let calls = AtomicU32::new(0);
    let waited = AtomicU64::new(0);
    let handled = proxy.handle(
        "GET",
        None,
        None,
        |_a: &Admission, _c: &RequestContext| {
            if calls.fetch_add(1, Ordering::SeqCst) == 0 {
                (UpstreamOutcome::Response(502), 1)
            } else {
                (UpstreamOutcome::Response(200), 1)
            }
        },
        |ms| {
            waited.fetch_add(ms, Ordering::SeqCst);
        },
    );
    assert_eq!(handled.result, Ok((200, "b1:8001".to_string())));
    assert_eq!(handled.attempts, 2);
    assert_eq!(calls.load(Ordering::SeqCst), 2);
    let pause = waited.load(Ordering::SeqCst);
    assert!(10 <= pause && pause <= 12);
    let m = proxy.backend_pool().backend_at(0).get_metrics();
    assert_eq!(m.total_requests, 2);
    assert_eq!(m.failed_requests, 1);
    assert_eq!(m.active_connections, 0);
}

#[test]
fn an_invalid_uri_is_answered_with_a_400_after_one_attempt() {
    let mut proxy =
        proxy_on(&["mailto:someone@example.com"], 10, LoadBalancerAlgorithm::RoundRobin, 3);
    let calls = AtomicU32::new(0);
    let handled = proxy.handle(
        "GET",
        None,
        None,
        |admission: &Admission, _c: &RequestContext| {
            calls.fetch_add(1, Ordering::SeqCst);
            match upstream_uri(&admission.backend_url, Some("/x")) {
                Ok(_) => (UpstreamOutcome::Response(200), 0),
                Err(ProxyError::InvalidUri(why)) => (UpstreamOutcome::InvalidUri(why), 0),
                Err(other) => (UpstreamOutcome::TransportError(other.message()), 0),
            }
        },
        |_ms| {},
    );
    assert_eq!(handled.attempts, 1);
    assert_eq!(calls.load(Ordering::SeqCst), 1);
    let error = handled.result.unwrap_err();
    let response = error.to_response();
    assert_eq!(response.status, 400);
    assert!(response.x_error.starts_with("Invalid URI: "));
}

#[test]
fn a_failing_backend_uses_up_the_attempts() {
    let mut proxy = proxy_on(&["http://b1:8001"], 10, LoadBalancerAlgorithm::RoundRobin, 3);
    let calls = AtomicU32::new(0);
    let pauses = AtomicU32::new(0);
    let handled = proxy.handle(
        "POST",
        None,
        None,
        |_a: &Admission, _c: &RequestContext| {
            calls.fetch_add(1, Ordering::SeqCst);
            (UpstreamOutcome::TransportError("connection reset".to_string()), 2)
        },
        |_ms| {
            pauses.fetch_add(1, Ordering::SeqCst);
        },
    );
    assert_eq!(handled.result, Err(ProxyError::BackendError("connection reset".to_string())));
    assert_eq!(handled.attempts, 3);
    assert_eq!(calls.load(Ordering::SeqCst), 3);
    assert_eq!(pauses.load(Ordering::SeqCst), 2);
    assert_eq!(proxy.backend_pool().backend_at(0).active_connections(), 0);
}

#[test]
fn the_client_address_reaches_the_hash() {
    let mut proxy = proxy_on(
        &["http://b1:8001", "http://b2:8002", "http://b3:8003"],
        10,
        LoadBalancerAlgorithm::IpHash,
        1,
    );
    let check = |_a: &Admission, ctx: &RequestContext| {
        assert_eq!(ctx.client_addr, Some("203.0.113.7".to_string()));
        (UpstreamOutcome::Response(200), 1)
    };
    let first = served_by(&proxy.handle("GET", Some("203.0.113.7, 10.0.0.1"), None, check, |_| {}));
    for _ in 0..5 {
        let again = proxy.handle("GET", Some(" 203.0.113.7 "), Some("192.0.2.9"), check, |_| {});
        assert_eq!(served_by(&again), first);
    }
}

#[test]
fn least_connections_spreads_held_connections() {
    let mut proxy = proxy_on(
        &["http://b1:8001", "http://b2:8002"],
        10,
        LoadBalancerAlgorithm::LeastConnections,
        1,
    );
    let a = proxy.start_attempt(None).unwrap();
    let b = proxy.start_attempt(None).unwrap();
    let c = proxy.start_attempt(None).unwrap();
    assert_eq!(a.backend_id, "b1:8001");
    assert_eq!(b.backend_id, "b2:8002");
    assert_eq!(c.backend_id, "b1:8001");
    proxy.finish_attempt("b1:8001", UpstreamOutcome::Response(200), 1);
    proxy.finish_attempt("b1:8001", UpstreamOutcome::Response(200), 1);
    let handled = proxy.handle("GET", None, None, answer(204), |_ms| {});
    assert_eq!(handled.result, Ok((204, "b1:8001".to_string())));
}

#[test]
fn a_backend_outside_the_view_counts_nothing() {
    let mut proxy =
        proxy_on(&["http://b1:8001", "http://b2:8002"], 10, LoadBalancerAlgorithm::RoundRobin, 3);
    for _ in 0..2 {
        proxy.record_probe("b1:8001", ProbeOutcome::Status(500), 1);
        proxy.record_probe("b2:8002", ProbeOutcome::Status(200), 1);
        proxy.finish_health_round(&Vec::new());
    }
    let before = proxy.backend_pool().backend_at(0).get_metrics();
    for _ in 0..4 {
        let handled = proxy.handle("GET", None, None, answer(200), |_ms| {});
        assert_eq!(handled.result, Ok((200, "b2:8002".to_string())));
        assert_eq!(handled.attempts, 1);
    }
    assert_eq!(proxy.backend_pool().backend_at(0).get_metrics(), before);
    let served = proxy.backend_pool().backend_at(1).get_metrics();
    assert_eq!(served.total_requests, 4);
    assert_eq!(served.failed_requests, 0);
    assert_eq!(served.active_connections, 0);
}

#[test]
fn forward_is_handed_the_identifier_of_the_request() {
    let mut proxy = proxy_on(&["http://b1:8001"], 10, LoadBalancerAlgorithm::RoundRobin, 3);
    let seen = std::sync::Mutex::new(Vec::new());
    let handled = proxy.handle(
        "GET",
        None,
        None,
        |admission: &Admission, ctx: &RequestContext| {
            seen.lock().unwrap().push((admission.backend_id.clone(), ctx.request_id.clone()));
            if seen.lock().unwrap().len() < 2 {
                (UpstreamOutcome::Response(503), 1)
            } else {
                (UpstreamOutcome::Response(200), 1)
            }
        },
        |_ms| {},
    );
    assert_eq!(handled.attempts, 2);
    let seen = seen.lock().unwrap();
    assert_eq!(
        *seen,
        vec![
            ("b1:8001".to_string(), handled.request_id.clone()),
            ("b1:8001".to_string(), handled.request_id.clone())
        ]
    );
}

#[test]
fn a_request_without_a_healthy_backend_reports_each_attempt() {
    let mut proxy = proxy_on(&[], 10, LoadBalancerAlgorithm::RoundRobin, 3);
    proxy.metrics_mut().drain();
    let pauses = AtomicU32::new(0);
    let handled = proxy.handle("GET", None, None, answer(200), |_ms| {
        pauses.fetch_add(1, Ordering::SeqCst);
    });
    assert_eq!(handled.result, Err(ProxyError::NoHealthyBackends));
    assert_eq!(handled.attempts, 3);
    assert_eq!(pauses.load(Ordering::SeqCst), 2);
    let events = proxy.metrics_mut().drain();
    assert_eq!(events.len(), 3);
    assert_eq!(events[0], rust_load_balancer::metrics::MetricEvent::ConnectionOpened);
    assert_eq!(events[1], rust_load_balancer::metrics::MetricEvent::ConnectionClosed);
    match &events[2] {
        rust_load_balancer::metrics::MetricEvent::Request {
            method,
            status_code,
            backend,
            duration_ms,
        } => {
            assert_eq!(method, "GET");
            assert_eq!(status_code, "503");
            assert_eq!(backend, "none");
            assert!(30 <= *duration_ms && *duration_ms <= 37);
        }
        other => panic!("unexpected: {:?}", other),
    }
}
