use rust_load_balancer::circuit_breaker::{
    CircuitBreaker, CircuitBreakerManager, CircuitBreakerMetrics, CircuitBreakerState,
};
use rust_load_balancer::config::CircuitBreakerConfig;
use tokio::time::Instant;

fn config(failure_threshold: u32, success_threshold: u32, timeout_secs: u64) -> CircuitBreakerConfig {
    CircuitBreakerConfig { failure_threshold, success_threshold, timeout_secs }
}

#[test]
fn test_circuit_breaker_opens_on_failures() {
    let mut b = CircuitBreaker::new(config(3, 2, 1));
    assert_eq!(b.get_state(), CircuitBreakerState::Closed);
    b.record_failure_at(Instant::now());
    b.record_failure_at(Instant::now());
    assert_eq!(b.get_state(), CircuitBreakerState::Closed);
    assert!(b.permit_after(0));
    b.record_failure_at(Instant::now());
    assert_eq!(b.get_state(), CircuitBreakerState::Open);
    assert!(!b.permit_after(0));
    assert_eq!(b.get_state(), CircuitBreakerState::Open);
}

#[test]
fn breaker_opens_and_recovers() {
    let mut b = CircuitBreaker::new(config(3, 2, 1));
    for _ in 0..3 {
        assert!(b.permit_after(0));
        b.record_failure_at(Instant::now());
    }
    assert_eq!(b.get_state(), CircuitBreakerState::Open);
    assert!(!b.permit_after(0));
    // The cool-down of one second is over.
    assert!(b.permit_after(1));
    assert_eq!(b.get_state(), CircuitBreakerState::HalfOpen);
    b.record_success();
    assert_eq!(b.get_state(), CircuitBreakerState::HalfOpen);
    assert!(b.permit_after(0));
    b.record_success();
    assert_eq!(b.get_state(), CircuitBreakerState::Closed);
    let m = b.get_metrics();
    assert_eq!(m.failure_count, 0);
    assert_eq!(m.success_count, 0);
    assert_eq!(m.total_requests, 5);
    assert_eq!(m.failed_requests, 3);
}

#[test]
fn a_success_starts_the_failure_count_over() {
    let mut b = CircuitBreaker::new(config(3, 2, 1));
    b.record_failure_at(Instant::now());
    b.record_failure_at(Instant::now());
    assert_eq!(b.get_metrics().failure_count, 2);
    b.record_success();
    assert_eq!(b.get_metrics().failure_count, 0);
    b.record_failure_at(Instant::now());
    b.record_failure_at(Instant::now());
    assert_eq!(b.get_state(), CircuitBreakerState::Closed);
    b.record_failure_at(Instant::now());
    assert_eq!(b.get_state(), CircuitBreakerState::Open);
}

#[test]
fn a_failure_on_trial_reopens() {
    let mut b = CircuitBreaker::new(config(1, 3, 5));
    b.record_failure_at(Instant::now());
    assert_eq!(b.get_state(), CircuitBreakerState::Open);
    assert!(!b.permit_after(4));
    assert!(b.permit_after(5));
    assert_eq!(b.get_state(), CircuitBreakerState::HalfOpen);
    b.record_success();
    b.record_success();
    assert_eq!(b.get_metrics().success_count, 2);
    b.record_failure_at(Instant::now());
    assert_eq!(b.get_state(), CircuitBreakerState::Open);
    assert_eq!(b.get_metrics().success_count, 0);
    assert!(!b.permit_after(0));
}

#[test]
fn trial_admits_every_request() {
    let mut b = CircuitBreaker::new(config(1, 5, 0));
    b.record_failure_at(Instant::now());
    assert!(b.permit_after(0));
    assert_eq!(b.get_state(), CircuitBreakerState::HalfOpen);
    for _ in 0..10 {
        assert!(b.permit_after(0));
    }
    assert_eq!(b.get_state(), CircuitBreakerState::HalfOpen);
}

#[test]
fn a_late_success_closes_an_open_breaker() {
    let mut b = CircuitBreaker::new(config(1, 2, 60));
    b.record_failure_at(Instant::now());
    assert_eq!(b.get_state(), CircuitBreakerState::Open);
    b.record_success();
    assert_eq!(b.get_state(), CircuitBreakerState::Closed);
    assert!(b.permit_after(0));
}

#[test]
fn a_late_failure_keeps_the_breaker_open() {
    let mut b = CircuitBreaker::new(config(1, 2, 60));
    b.record_failure_at(Instant::now());
    b.record_failure_at(Instant::now());
    assert_eq!(b.get_state(), CircuitBreakerState::Open);
    assert_eq!(
        b.get_metrics(),
        CircuitBreakerMetrics {
            total_requests: 2,
            failed_requests: 2,
            failure_count: 1,
            success_count: 0
        }
    );
}

#[test]
fn the_clock_decides_when_the_cool_down_is_over() {
    let mut long = CircuitBreaker::new(config(1, 1, 3600));
    long.record_failure();
    assert_eq!(long.get_state(), CircuitBreakerState::Open);
    assert!(!long.call_permitted());
    assert_eq!(long.get_state(), CircuitBreakerState::Open);

    let mut none = CircuitBreaker::new(config(1, 1, 0));
    none.record_failure();
    assert_eq!(none.get_state(), CircuitBreakerState::Open);
    assert!(none.call_permitted());
    assert_eq!(none.get_state(), CircuitBreakerState::HalfOpen);
}

#[test]
fn a_closed_breaker_permits_without_the_clock() {
    let mut b = CircuitBreaker::new(config(3, 2, 1));
    assert!(b.call_permitted());
    assert_eq!(b.get_state(), CircuitBreakerState::Closed);
}

#[test]
fn the_cool_down_runs_on_the_real_clock() {
    let mut b = CircuitBreaker::new(config(1, 1, 1));
    b.record_failure();
    assert!(!b.call_permitted());
    let start = std::time::Instant::now();
    while start.elapsed() < std::time::Duration::from_millis(1100) {
        std::hint::spin_loop();
    }
    assert!(b.call_permitted());
    assert_eq!(b.get_state(), CircuitBreakerState::HalfOpen);
    b.record_success();
    assert_eq!(b.get_state(), CircuitBreakerState::Closed);
}

#[test]
fn manager_makes_a_breaker_once_per_backend() {
    let mut m = CircuitBreakerManager::new(config(2, 1, 60));
    assert!(m.get("a:80").is_none());
    m.get_or_create("a:80").record_failure_at(Instant::now());
    assert_eq!(m.get_or_create("a:80").get_metrics().failure_count, 1);
    assert_eq!(m.get_or_create("b:80").get_metrics().failure_count, 0);
    m.get_or_create("a:80").record_failure_at(Instant::now());
    assert_eq!(m.get("a:80").unwrap().get_state(), CircuitBreakerState::Open);
    assert_eq!(m.get("b:80").unwrap().get_state(), CircuitBreakerState::Closed);
}

#[test]
fn manager_forgets_a_removed_breaker() {
    let mut m = CircuitBreakerManager::new(config(1, 1, 60));
    m.get_or_create("a:80").record_failure_at(Instant::now());
    m.get_or_create("b:80");
    m.get_or_create("c:80").record_failure_at(Instant::now());
    m.remove("a:80");
    assert!(m.get("a:80").is_none());
    assert_eq!(m.get("c:80").unwrap().get_state(), CircuitBreakerState::Open);
    assert_eq!(m.get("b:80").unwrap().get_state(), CircuitBreakerState::Closed);
    assert_eq!(m.get_or_create("a:80").get_state(), CircuitBreakerState::Closed);
    m.remove("never-there");
    assert!(m.get("c:80").is_some());
}
