use rust_load_balancer::circuit_breaker::CircuitBreakerState;
use rust_load_balancer::metrics::collector::to_gauge;
use rust_load_balancer::metrics::{MetricEvent, MetricsCollector, Timer};

#[test]
fn reports_wait_in_order_until_they_are_taken() {
    let mut m = MetricsCollector::new();
    assert!(m.drain().is_empty());
    m.increment_active_connections();
    m.record_request("GET", 200, "b1:8001", 15);
    m.decrement_active_connections();
    let events = m.drain();
    assert_eq!(
        events,
        vec![
            MetricEvent::ConnectionOpened,
            MetricEvent::Request {
                method: "GET".to_string(),
                status_code: "200".to_string(),
                backend: "b1:8001".to_string(),
                duration_ms: 15
            },
            MetricEvent::ConnectionClosed,
        ]
    );
    assert!(m.drain().is_empty());
}

#[test]
fn backend_requests_are_labelled_by_outcome() {
    let mut m = MetricsCollector::new();
    m.record_backend_request("b1:8001", true, 3);
    m.record_backend_request("b1:8001", false, 4);
    assert_eq!(
        m.drain(),
        vec![
            MetricEvent::BackendRequest {
                backend: "b1:8001".to_string(),
                status: "success".to_string(),
                duration_ms: 3
            },
            MetricEvent::BackendRequest {
                backend: "b1:8001".to_string(),
                status: "failure".to_string(),
                duration_ms: 4
            },
        ]
    );
}

#[test]
fn gauges_take_their_values() {
    let mut m = MetricsCollector::new();
    m.update_backend_connections("b1:8001", 7);
    m.update_backend_health("b1:8001", true);
    m.update_backend_health("b2:8002", false);
    m.update_circuit_breaker_state("b1:8001", CircuitBreakerState::Closed);
    m.update_circuit_breaker_state("b1:8001", CircuitBreakerState::Open);
    m.update_circuit_breaker_state("b1:8001", CircuitBreakerState::HalfOpen);
    m.update_backend_counts(2, 3);
    assert_eq!(
        m.drain(),
        vec![
            MetricEvent::BackendConnections { backend: "b1:8001".to_string(), count: 7 },
            MetricEvent::BackendHealth { backend: "b1:8001".to_string(), value: 1 },
            MetricEvent::BackendHealth { backend: "b2:8002".to_string(), value: 0 },
            MetricEvent::CircuitBreakerState { backend: "b1:8001".to_string(), value: 0 },
            MetricEvent::CircuitBreakerState { backend: "b1:8001".to_string(), value: 1 },
            MetricEvent::CircuitBreakerState { backend: "b1:8001".to_string(), value: 2 },
            MetricEvent::BackendCounts { healthy: 2, total: 3 },
        ]
    );
}

#[test]
fn counts_become_gauge_values() {
    assert_eq!(to_gauge(0), 0);
    assert_eq!(to_gauge(41), 41);
    assert_eq!(to_gauge(usize::MAX), i64::MAX);
}

#[test]
fn a_timer_reads_the_time_since_its_start() {
    let t = Timer::new();
    let first = t.elapsed();
    let start = std::time::Instant::now();
    while start.elapsed() < std::time::Duration::from_millis(20) {
        std::hint::spin_loop();
    }
    let second = t.elapsed();
    assert!(second >= first);
    assert!(second >= std::time::Duration::from_millis(20));
    assert!(second < std::time::Duration::from_secs(10));
}
