use rust_load_balancer::config::{
    BackendConfig, CircuitBreakerConfig, Config, ConfigError, HealthCheckConfig,
    LoadBalancerAlgorithm, LoadBalancerConfig, MetricsConfig, RetryConfig,
};
use url::Url;

fn valid() -> Config {
    Config {
        load_balancer: LoadBalancerConfig { algorithm: LoadBalancerAlgorithm::RoundRobin },
        backends: vec![
            BackendConfig { url: Url::parse("http://b1:8001").unwrap(), weight: 1, max_connections: 10 },
            BackendConfig { url: Url::parse("http://b2:8002").unwrap(), weight: 2, max_connections: 20 },
            BackendConfig { url: Url::parse("http://b3:8003").unwrap(), weight: 3, max_connections: 30 },
        ],
        health_check: HealthCheckConfig {
            interval_secs: 5,
            timeout_secs: 2,
            unhealthy_threshold: 2,
            healthy_threshold: 2,
            path: "/health".to_string(),
        },
        circuit_breaker: CircuitBreakerConfig {
            failure_threshold: 3,
            success_threshold: 2,
            timeout_secs: 30,
        },
        retry: RetryConfig { max_attempts: 3, backoff_base_ms: 10, backoff_max_ms: 100 },
        metrics: MetricsConfig { enabled: true, port: 9090, path: "/metrics".to_string() },
    }
}

#[test]
fn a_valid_record_passes() {
    assert_eq!(valid().validate(), Ok(()));
    let mut edge = valid();
    edge.backends.clear();
    edge.health_check.timeout_secs = 0;
    edge.circuit_breaker.timeout_secs = 0;
    edge.retry.backoff_base_ms = 0;
    edge.retry.backoff_max_ms = 0;
    assert_eq!(edge.validate(), Ok(()));
}

#[test]
fn each_constraint_names_its_field() {
    let mut c = valid();
    c.backends[1].weight = 0;
    assert_eq!(c.validate(), Err(ConfigError::BackendWeight(1)));
    let mut c = valid();
    c.backends[2].max_connections = 0;
    assert_eq!(c.validate(), Err(ConfigError::BackendMaxConnections(2)));
    let mut c = valid();
    c.health_check.interval_secs = 0;
    assert_eq!(c.validate(), Err(ConfigError::HealthCheckInterval));
    let mut c = valid();
    c.health_check.unhealthy_threshold = 0;
    assert_eq!(c.validate(), Err(ConfigError::UnhealthyThreshold));
    let mut c = valid();
    c.health_check.healthy_threshold = 0;
    assert_eq!(c.validate(), Err(ConfigError::HealthyThreshold));
    let mut c = valid();
    c.circuit_breaker.failure_threshold = 0;
    assert_eq!(c.validate(), Err(ConfigError::FailureThreshold));
    let mut c = valid();
    c.circuit_breaker.success_threshold = 0;
    assert_eq!(c.validate(), Err(ConfigError::SuccessThreshold));
    let mut c = valid();
    c.retry.max_attempts = 0;
    assert_eq!(c.validate(), Err(ConfigError::MaxAttempts));
    let mut c = valid();
    c.retry.backoff_max_ms = 9;
    assert_eq!(c.validate(), Err(ConfigError::BackoffMax));
}

#[test]
fn the_first_offending_field_is_named() {
    let mut c = valid();
    c.retry.max_attempts = 0;
    c.circuit_breaker.success_threshold = 0;
    c.health_check.healthy_threshold = 0;
    assert_eq!(c.validate(), Err(ConfigError::HealthyThreshold));
    c.backends[2].weight = 0;
    c.backends[1].max_connections = 0;
    assert_eq!(c.validate(), Err(ConfigError::BackendMaxConnections(1)));
    c.backends[1].weight = 0;
    assert_eq!(c.validate(), Err(ConfigError::BackendWeight(1)));
    c.backends[0].max_connections = 0;
    assert_eq!(c.validate(), Err(ConfigError::BackendMaxConnections(0)));
}

#[test]
fn sections_are_checked_alone_too() {
    let c = valid();
    assert_eq!(c.health_check.validate(), Ok(()));
    assert_eq!(c.circuit_breaker.validate(), Ok(()));
    assert_eq!(c.retry.validate(), Ok(()));
    let r = RetryConfig { max_attempts: 0, backoff_base_ms: 5, backoff_max_ms: 1 };
    assert_eq!(r.validate(), Err(ConfigError::MaxAttempts));
    let r = RetryConfig { max_attempts: 1, backoff_base_ms: 5, backoff_max_ms: 1 };
    assert_eq!(r.validate(), Err(ConfigError::BackoffMax));
}

#[test]
fn fields_are_named_by_their_path() {
    assert_eq!(ConfigError::BackendWeight(0).field(), "backends[0].weight");
    assert_eq!(ConfigError::BackendWeight(12).field(), "backends[12].weight");
    assert_eq!(ConfigError::BackendMaxConnections(3).field(), "backends[3].max_connections");
    assert_eq!(ConfigError::HealthCheckInterval.field(), "health_check.interval_secs");
    assert_eq!(ConfigError::UnhealthyThreshold.field(), "health_check.unhealthy_threshold");
    assert_eq!(ConfigError::HealthyThreshold.field(), "health_check.healthy_threshold");
    assert_eq!(ConfigError::FailureThreshold.field(), "circuit_breaker.failure_threshold");
    assert_eq!(ConfigError::SuccessThreshold.field(), "circuit_breaker.success_threshold");
    assert_eq!(ConfigError::MaxAttempts.field(), "retry.max_attempts");
    assert_eq!(ConfigError::BackoffMax.field(), "retry.backoff_max_ms");
}
