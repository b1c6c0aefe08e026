use rust_load_balancer::proxy::{Backend, BackendMetrics, HealthStatus};
use url::Url;

fn backend(url: &str, max: usize) -> Backend {
    Backend::new(Url::parse(url).unwrap(), 1, max)
}

#[test]
fn id_is_host_and_port() {
    assert_eq!(backend("http://localhost:8001", 10).id(), "localhost:8001");
    assert_eq!(backend("http://10.0.0.7:9000/base", 10).id(), "10.0.0.7:9000");
}

#[test]
fn id_uses_the_default_port_of_the_scheme() {
    assert_eq!(backend("http://example.com/", 10).id(), "example.com:80");
    assert_eq!(backend("https://example.com/x", 10).id(), "example.com:443");
}

#[test]
fn id_of_a_url_without_host_or_port() {
    assert_eq!(backend("mailto:someone@example.com", 10).id(), "unknown:80");
    assert_eq!(backend("foo://example.com", 10).id(), "example.com:80");
}

#[test]
fn new_backend_is_idle_and_unknown() {
    let b = Backend::new(Url::parse("http://localhost:8001").unwrap(), 7, 10);
    assert_eq!(b.weight(), 7);
    assert_eq!(b.max_connections(), 10);
    assert_eq!(b.url().as_str(), "http://localhost:8001/");
    assert_eq!(b.active_connections(), 0);
    assert!(!b.is_healthy());
    assert_eq!(b.consecutive_failures(), 0);
    assert_eq!(b.consecutive_successes(), 0);
    assert_eq!(b.last_health_check(), None);
    assert_eq!(
        b.get_metrics(),
        BackendMetrics { active_connections: 0, total_requests: 0, failed_requests: 0 }
    );
    assert_ne!(HealthStatus::Unknown, HealthStatus::Healthy);
}

#[test]
fn connections_stop_at_the_cap() {
    let mut b = backend("http://localhost:8001", 2);
    assert!(b.increment_connections());
    assert!(b.increment_connections());
    assert!(!b.increment_connections());
    assert_eq!(b.active_connections(), 2);
    b.decrement_connections();
    assert_eq!(b.active_connections(), 1);
    assert!(b.increment_connections());
    assert!(!b.increment_connections());
    assert_eq!(b.active_connections(), 2);
}

#[test]
fn a_cap_of_zero_admits_nothing() {
    let mut b = backend("http://localhost:8001", 0);
    assert!(!b.increment_connections());
    assert_eq!(b.active_connections(), 0);
}

#[test]
fn release_restores_the_count_before_the_grant() {
    let mut b = backend("http://localhost:8001", 5);
    assert!(b.increment_connections());
    let before = b.active_connections();
    assert!(b.increment_connections());
    b.record_request(false);
    b.decrement_connections();
    assert_eq!(b.active_connections(), before);
}

#[test]
fn requests_and_failures_are_counted() {
    let mut b = backend("http://localhost:8001", 5);
    b.record_request(true);
    b.record_request(false);
    b.record_request(true);
    let m = b.get_metrics();
    assert_eq!(m.total_requests, 3);
    assert_eq!(m.failed_requests, 1);
    assert_eq!(m.active_connections, 0);
}

#[test]
fn probes_drive_status_and_streaks() {
    let mut b = backend("http://localhost:8001", 5);
    b.observe_probe(true, 1_000);
    assert!(b.is_healthy());
    assert_eq!(b.consecutive_successes(), 1);
    assert_eq!(b.consecutive_failures(), 0);
    assert_eq!(b.last_health_check(), Some(1_000));
    b.observe_probe(true, 2_000);
    assert_eq!(b.consecutive_successes(), 2);
    assert!(b.is_stably_healthy(2));
    assert!(!b.is_stably_healthy(3));
    b.observe_probe(false, 3_000);
    assert!(!b.is_healthy());
    assert_eq!(b.consecutive_successes(), 0);
    assert_eq!(b.consecutive_failures(), 1);
    assert_eq!(b.last_health_check(), Some(3_000));
    assert!(b.is_stably_unhealthy(1));
    assert!(!b.is_stably_unhealthy(2));
    b.observe_probe(false, 4_000);
    assert!(b.is_stably_unhealthy(2));
}

#[test]
fn update_health_stamps_the_probe_with_the_clock() {
    let mut b = backend("http://localhost:8001", 5);
    b.update_health(true);
    assert!(b.is_healthy());
    assert_eq!(b.consecutive_successes(), 1);
    let stamp = b.last_health_check().unwrap();
    // Some time after the first day of 2020, in milliseconds.
    assert!(stamp > 1_577_836_800_000);
    b.update_health(false);
    assert!(!b.is_healthy());
    assert!(b.last_health_check().unwrap() >= stamp);
}

#[test]
fn a_threshold_of_zero_is_always_reached() {
    let b = backend("http://localhost:8001", 5);
    assert!(b.is_stably_healthy(0));
    assert!(b.is_stably_unhealthy(0));
}
