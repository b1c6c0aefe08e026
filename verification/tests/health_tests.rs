use rust_load_balancer::config::{BackendConfig, HealthCheckConfig};
use rust_load_balancer::health::{
    CheckerAction, CheckerEvent, HealthCheckResult, HealthChecker, HealthTransition, ProbeError,
    ProbeOutcome, RoundSummary,
};
use rust_load_balancer::proxy::{Backend, BackendPool};
use url::Url;

fn checker(healthy_threshold: u32, unhealthy_threshold: u32, path: &str) -> HealthChecker {
    HealthChecker::new(HealthCheckConfig {
        interval_secs: 1,
        timeout_secs: 1,
        unhealthy_threshold,
        healthy_threshold,
        path: path.to_string(),
    })
}

fn pool_of(urls: &[&str]) -> BackendPool {
    BackendPool::new(
        urls.iter()
            .map(|u| BackendConfig { url: Url::parse(u).unwrap(), weight: 1, max_connections: 2 })
            .collect(),
    )
}

fn healthy(pool: &BackendPool) -> Vec<String> {
    pool.get_healthy_backends().iter().map(|b| b.id().clone()).collect()
}

#[test]
fn only_2xx_is_healthy() {
    assert_eq!(HealthChecker::classify(&ProbeOutcome::Status(200)), (true, None));
    assert_eq!(HealthChecker::classify(&ProbeOutcome::Status(204)), (true, None));
    assert_eq!(HealthChecker::classify(&ProbeOutcome::Status(299)), (true, None));
    assert_eq!(
        HealthChecker::classify(&ProbeOutcome::Status(199)),
        (false, Some("HTTP 199".to_string()))
    );
    assert_eq!(
        HealthChecker::classify(&ProbeOutcome::Status(300)),
        (false, Some("HTTP 300".to_string()))
    );
    assert_eq!(
        HealthChecker::classify(&ProbeOutcome::Status(500)),
        (false, Some("HTTP 500".to_string()))
    );
    assert_eq!(
        HealthChecker::classify(&ProbeOutcome::Failed("connection refused".to_string())),
        (false, Some("connection refused".to_string()))
    );
    assert_eq!(
        HealthChecker::classify(&ProbeOutcome::TimedOut),
        (false, Some("Request timeout".to_string()))
    );
}

#[test]
fn the_probe_url_is_the_health_path_on_the_backend() {
    let c = checker(2, 2, "/health");
    let b = Backend::new(Url::parse("http://localhost:8001").unwrap(), 1, 2);
    assert_eq!(c.probe_url(&b), Ok("http://localhost:8001/health".to_string()));
    let deep = Backend::new(Url::parse("http://localhost:8001/api/v1/").unwrap(), 1, 2);
    assert_eq!(c.probe_url(&deep), Ok("http://localhost:8001/health".to_string()));
    let relative = checker(2, 2, "status");
    assert_eq!(relative.probe_url(&deep), Ok("http://localhost:8001/api/v1/status".to_string()));
}

#[test]
fn a_path_that_does_not_resolve_gives_no_probe_url() {
    let c = checker(2, 2, "/health");
    let b = Backend::new(Url::parse("mailto:someone@example.com").unwrap(), 1, 2);
    assert_eq!(c.probe_url(&b), Err(ProbeError::InvalidUrl));
}

#[test]
fn a_probe_is_recorded_on_the_backend() {
    let c = checker(1, 1, "/health");
    let mut pool = pool_of(&["http://b1:8001", "http://b2:8002"]);
    let (result, crossing) = c.record_probe(&mut pool, 1, ProbeOutcome::Status(200), 12, 777);
    assert_eq!(
        result,
        HealthCheckResult {
            backend_id: "b2:8002".to_string(),
            healthy: true,
            response_time_ms: 12,
            error: None
        }
    );
    assert_eq!(crossing, Some(HealthTransition::BecameHealthy));
    assert!(pool.backend_at(1).is_healthy());
    assert_eq!(pool.backend_at(1).last_health_check(), Some(777));
    assert!(!pool.backend_at(0).is_healthy());

    let (result, crossing) = c.record_probe(&mut pool, 1, ProbeOutcome::Status(503), 3, 778);
    assert_eq!(result.error, Some("HTTP 503".to_string()));
    assert!(!result.healthy);
    assert_eq!(crossing, Some(HealthTransition::BecameUnhealthy));
    assert!(!pool.backend_at(1).is_healthy());
}

#[test]
fn no_crossing_without_a_flip() {
    let c = checker(1, 1, "/health");
    let mut pool = pool_of(&["http://b1:8001"]);
    let (_, first) = c.record_probe(&mut pool, 0, ProbeOutcome::Status(200), 1, 1);
    let (_, second) = c.record_probe(&mut pool, 0, ProbeOutcome::Status(200), 1, 2);
    assert_eq!(first, Some(HealthTransition::BecameHealthy));
    assert_eq!(second, None);
    // An unknown backend that fails was not healthy before: no crossing.
    let mut fresh = pool_of(&["http://b1:8001"]);
    let (_, failed) = c.record_probe(&mut fresh, 0, ProbeOutcome::TimedOut, 1, 1);
    assert_eq!(failed, None);
}

#[test]
fn toggling_below_the_threshold_is_not_reported() {
    let c = checker(3, 3, "/health");
    let mut pool = pool_of(&["http://b1:8001"]);
    let outcomes = [200u16, 500, 200, 200, 500, 500, 200, 500];
    for (at, code) in outcomes.iter().enumerate() {
        let (_, crossing) =
            c.record_probe(&mut pool, 0, ProbeOutcome::Status(*code), 1, at as i64);
        assert_eq!(crossing, None);
    }
}

#[test]
fn check_backend_stamps_the_probe_with_the_clock() {
    let c = checker(1, 1, "/health");
    let mut pool = pool_of(&["http://b1:8001"]);
    let (result, crossing) = c.check_backend(&mut pool, 0, ProbeOutcome::Status(200), 9);
    assert!(result.healthy);
    assert_eq!(result.response_time_ms, 9);
    assert_eq!(crossing, Some(HealthTransition::BecameHealthy));
    assert!(pool.backend_at(0).last_health_check().unwrap() > 1_577_836_800_000);
}

#[test]
fn a_round_is_counted_and_the_view_rebuilt() {
    let c = checker(2, 2, "/health");
    let mut pool = pool_of(&["http://b1:8001", "http://b2:8002", "http://b3:8003"]);
    let mut results = Vec::new();
    results.push(Ok(c.record_probe(&mut pool, 0, ProbeOutcome::Status(200), 1, 1).0));
    results.push(Ok(c.record_probe(&mut pool, 1, ProbeOutcome::Status(500), 1, 1).0));
    results.push(Err(ProbeError::InvalidUrl));
    let summary = c.check_all_backends(&mut pool, &results);
    assert_eq!(
        summary,
        RoundSummary { healthy: 1, unhealthy: 2, healthy_backends: 1, total_backends: 3 }
    );
    assert_eq!(healthy(&pool), vec!["b1:8001"]);
}

#[test]
fn an_empty_round() {
    let c = checker(2, 2, "/health");
    let mut pool = pool_of(&[]);
    let summary = c.check_all_backends(&mut pool, &Vec::new());
    assert_eq!(
        summary,
        RoundSummary { healthy: 0, unhealthy: 0, healthy_backends: 0, total_backends: 0 }
    );
}

#[test]
fn test_health_check_removes_unhealthy_backends() {
    let c = checker(2, 2, "/health");
    let mut pool = pool_of(&["http://b1:8001", "http://b2:8002"]);
    for round in 0..2 {
        let mut results = Vec::new();
        results.push(Ok(c.record_probe(&mut pool, 0, ProbeOutcome::Status(500), 1, round).0));
        results.push(Ok(c.record_probe(&mut pool, 1, ProbeOutcome::Status(200), 1, round).0));
        c.check_all_backends(&mut pool, &results);
    }
    assert_eq!(healthy(&pool), vec!["b2:8002"]);
    assert!(pool.backend_at(0).is_stably_unhealthy(2));
    assert!(pool.backend_at(1).is_stably_healthy(2));
}

#[test]
fn the_checker_stops_on_the_shutdown_signal() {
    let mut c = checker(2, 2, "/health");
    assert_eq!(c.interval_secs(), 1);
    assert_eq!(c.timeout_secs(), 1);
    assert_eq!(c.on_event(CheckerEvent::Tick), CheckerAction::RunRound);
    assert_eq!(c.on_event(CheckerEvent::ShutdownChanged(false)), CheckerAction::Wait);
    assert_eq!(c.on_event(CheckerEvent::Tick), CheckerAction::RunRound);
    assert_eq!(c.on_event(CheckerEvent::ShutdownChanged(true)), CheckerAction::Stop);
    assert_eq!(c.on_event(CheckerEvent::Tick), CheckerAction::Stop);
    assert_eq!(c.on_event(CheckerEvent::ShutdownChanged(false)), CheckerAction::Stop);
}

#[test]
fn shutdown_ends_the_loop_at_the_next_event() {
    let mut c = checker(2, 2, "/health");
    c.shutdown();
    assert_eq!(c.on_event(CheckerEvent::Tick), CheckerAction::Stop);
}

#[test]
fn a_round_probes_every_backend_once_and_rebuilds_the_view() {
    let c = checker(2, 2, "/health");
    let mut pool =
        pool_of(&["http://b1:8001", "http://b2:8002", "mailto:someone@example.com", "http://b4:8004"]);
    let asked = std::sync::Mutex::new(Vec::new());
    let summary = c.run_round(&mut pool, |url: &str| {
        asked.lock().unwrap().push(url.to_string());
        if url == "http://b2:8002/health" {
            (ProbeOutcome::Status(503), 4)
        } else {
            (ProbeOutcome::Status(200), 3)
        }
    });
    assert_eq!(
        *asked.lock().unwrap(),
        vec!["http://b1:8001/health", "http://b2:8002/health", "http://b4:8004/health"]
    );
    assert_eq!(
        summary,
        RoundSummary { healthy: 2, unhealthy: 2, healthy_backends: 2, total_backends: 4 }
    );
    assert_eq!(healthy(&pool), vec!["b1:8001", "b4:8004"]);
    assert!(pool.backend_at(0).is_healthy());
    assert!(!pool.backend_at(1).is_healthy());
    assert_eq!(pool.backend_at(1).consecutive_failures(), 1);
    // No probe was made for the backend without a probe URL.
    assert_eq!(pool.backend_at(2).last_health_check(), None);
    assert!(pool.backend_at(3).last_health_check().is_some());
}

#[test]
fn rounds_follow_the_backends_as_they_change() {
    let c = checker(2, 2, "/health");
    let mut pool = pool_of(&["http://b1:8001", "http://b2:8002"]);
    c.run_round(&mut pool, |_url: &str| (ProbeOutcome::Status(200), 1));
    assert_eq!(healthy(&pool), vec!["b1:8001", "b2:8002"]);
    c.run_round(&mut pool, |url: &str| {
        if url.starts_with("http://b1") {
            (ProbeOutcome::TimedOut, 1000)
        } else {
            (ProbeOutcome::Status(204), 1)
        }
    });
    assert_eq!(healthy(&pool), vec!["b2:8002"]);
    c.run_round(&mut pool, |_url: &str| (ProbeOutcome::Failed("refused".to_string()), 1));
    assert!(healthy(&pool).is_empty());
    assert_eq!(pool.backend_at(0).consecutive_failures(), 2);
    assert_eq!(pool.backend_at(1).consecutive_failures(), 1);
}
