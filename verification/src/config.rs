//! The configuration record that the proxy is built from, and its validation.

use vstd::prelude::*;
use url::Url;
use crate::text::{decimal, decimal_string, join3};

verus! {

/// The selection strategy of the load balancer.
#[derive(Debug, Clone, Copy, PartialEq, Eq, Structural)]
pub enum LoadBalancerAlgorithm {
    RoundRobin,
    LeastConnections,
    Weighted,
    Random,
    IpHash,
}

#[derive(Debug, Clone, Copy, PartialEq, Eq, Structural)]
pub struct LoadBalancerConfig {
    pub algorithm: LoadBalancerAlgorithm,
}

/// One upstream endpoint as configured.
#[derive(Debug)]
pub struct BackendConfig {
    pub url: Url,
    pub weight: u32,
    pub max_connections: usize,
}

#[derive(Debug)]
pub struct HealthCheckConfig {
    pub interval_secs: u64,
    pub timeout_secs: u64,
    pub unhealthy_threshold: u32,
    pub healthy_threshold: u32,
    pub path: String,
}

#[derive(Debug, Clone, Copy, PartialEq, Eq, Structural)]
pub struct CircuitBreakerConfig {
    pub failure_threshold: u32,
    pub success_threshold: u32,
    pub timeout_secs: u64,
}

#[derive(Debug, Clone, Copy, PartialEq, Eq, Structural)]
pub struct RetryConfig {
    pub max_attempts: u32,
    pub backoff_base_ms: u64,
    pub backoff_max_ms: u64,
}

#[derive(Debug)]
pub struct MetricsConfig {
    pub enabled: bool,
    pub port: u16,
    pub path: String,
}

#[derive(Debug)]
pub struct Config {
    pub load_balancer: LoadBalancerConfig,
    pub backends: Vec<BackendConfig>,
    pub health_check: HealthCheckConfig,
    pub circuit_breaker: CircuitBreakerConfig,
    pub retry: RetryConfig,
    pub metrics: MetricsConfig,
}

/// The field that made validation fail. Backend fields carry the position
/// of the backend in the configured list.
#[derive(Debug, Clone, Copy, PartialEq, Eq, Structural)]
pub enum ConfigError {
    BackendWeight(usize),
    BackendMaxConnections(usize),
    HealthCheckInterval,
    UnhealthyThreshold,
    HealthyThreshold,
    FailureThreshold,
    SuccessThreshold,
    MaxAttempts,
    BackoffMax,
}

impl BackendConfig {
    /// Weight and connection cap are both at least one.
    pub open spec fn valid(&self) -> bool {
        self.weight >= 1 && self.max_connections >= 1
    }

    /// The fault of this entry, were it at position `i`: the weight is
    /// looked at before the connection cap.
    pub open spec fn fault_at(&self, i: usize) -> ConfigError {
        if self.weight < 1 {
            ConfigError::BackendWeight(i)
        } else {
            ConfigError::BackendMaxConnections(i)
        }
    }
}

impl HealthCheckConfig {
    pub open spec fn fault(&self) -> Option<ConfigError> {
        if self.interval_secs == 0 {
            Some(ConfigError::HealthCheckInterval)
        } else if self.unhealthy_threshold < 1 {
            Some(ConfigError::UnhealthyThreshold)
        } else if self.healthy_threshold < 1 {
            Some(ConfigError::HealthyThreshold)
        } else {
            None
        }
    }

    pub fn validate(&self) -> (r: Result<(), ConfigError>)
        ensures
            r == (match self.fault() {
                Some(e) => Err::<(), ConfigError>(e),
                None => Ok(()),
            }),
    {
        if self.interval_secs == 0 {
            Err(ConfigError::HealthCheckInterval)
        } else if self.unhealthy_threshold < 1 {
            Err(ConfigError::UnhealthyThreshold)
        } else if self.healthy_threshold < 1 {
            Err(ConfigError::HealthyThreshold)
        } else {
            Ok(())
        }
    }
}

impl CircuitBreakerConfig {
    pub open spec fn fault(&self) -> Option<ConfigError> {
        if self.failure_threshold < 1 {
            Some(ConfigError::FailureThreshold)
        } else if self.success_threshold < 1 {
            Some(ConfigError::SuccessThreshold)
        } else {
            None
        }
    }

    pub fn validate(&self) -> (r: Result<(), ConfigError>)
        ensures
            r == (match self.fault() {
                Some(e) => Err::<(), ConfigError>(e),
                None => Ok(()),
            }),
    {
        if self.failure_threshold < 1 {
            Err(ConfigError::FailureThreshold)
        } else if self.success_threshold < 1 {
            Err(ConfigError::SuccessThreshold)
        } else {
            Ok(())
        }
    }
}

impl RetryConfig {
    pub open spec fn fault(&self) -> Option<ConfigError> {
        if self.max_attempts < 1 {
            Some(ConfigError::MaxAttempts)
        } else if self.backoff_max_ms < self.backoff_base_ms {
            Some(ConfigError::BackoffMax)
        } else {
            None
        }
    }

    pub fn validate(&self) -> (r: Result<(), ConfigError>)
        ensures
            r == (match self.fault() {
                Some(e) => Err::<(), ConfigError>(e),
                None => Ok(()),
            }),
    {
        if self.max_attempts < 1 {
            Err(ConfigError::MaxAttempts)
        } else if self.backoff_max_ms < self.backoff_base_ms {
            Err(ConfigError::BackoffMax)
        } else {
            Ok(())
        }
    }
}

/// `i` is the position of the first backend entry that is not valid.
pub open spec fn first_invalid_backend(backends: Seq<BackendConfig>, i: int) -> bool {
    &&& 0 <= i < backends.len()
    &&& !backends[i].valid()
    &&& forall|j: int| 0 <= j < i ==> (#[trigger] backends[j]).valid()
}

impl Config {
    /// Every backend entry is valid.
    pub open spec fn backends_valid(&self) -> bool {
        forall|j: int| 0 <= j < self.backends@.len() ==> (#[trigger] self.backends@[j]).valid()
    }

    /// The fault of the sections that follow the backend list, in the
    /// order health check, circuit breaker, retry.
    pub open spec fn section_fault(&self) -> Option<ConfigError> {
        if self.health_check.fault() is Some {
            self.health_check.fault()
        } else if self.circuit_breaker.fault() is Some {
            self.circuit_breaker.fault()
        } else {
            self.retry.fault()
        }
    }

    /// The record meets every constraint.
    pub open spec fn valid(&self) -> bool {
        self.backends_valid() && self.section_fault() is None
    }

    /// `e` names the first offending field: backends come first, in list
    /// order, then the sections.
    pub open spec fn first_fault(&self, e: ConfigError) -> bool {
        if self.backends_valid() {
            self.section_fault() == Some(e)
        } else {
            exists|i: int|
                first_invalid_backend(self.backends@, i) && e == (#[trigger] self.backends@[i]).fault_at(
                    i as usize,
                )
        }
    }

    /// Checks the record and names the first offending field.
    pub fn validate(&self) -> (r: Result<(), ConfigError>)
        ensures
            r is Ok <==> self.valid(),
            r is Err ==> self.first_fault(r->Err_0),
    {
        let n = self.backends.len();
        let mut i: usize = 0;
        while i < n
            invariant
                n == self.backends@.len(),
                i <= n,
                forall|j: int| 0 <= j < i ==> (#[trigger] self.backends@[j]).valid(),
            decreases n - i,
        {
            let b = &self.backends[i];
            if b.weight < 1 {
                assert(first_invalid_backend(self.backends@, i as int));
                return Err(ConfigError::BackendWeight(i));
            }
            if b.max_connections < 1 {
                assert(first_invalid_backend(self.backends@, i as int));
                return Err(ConfigError::BackendMaxConnections(i));
            }
            i = i + 1;
        }
        match self.health_check.validate() {
            Err(e) => {
                return Err(e);
            },
            Ok(_) => {},
        }
        match self.circuit_breaker.validate() {
            Err(e) => {
                return Err(e);
            },
            Ok(_) => {},
        }
        self.retry.validate()
    }
}

impl ConfigError {
    /// The dotted name of the field, with the backend's position in
    /// square brackets where there is one.
    pub open spec fn field_name(&self) -> Seq<char> {
        match *self {
            ConfigError::BackendWeight(i) => "backends["@ + decimal(i as nat) + "].weight"@,
            ConfigError::BackendMaxConnections(i) => "backends["@ + decimal(i as nat)
                + "].max_connections"@,
            ConfigError::HealthCheckInterval => "health_check.interval_secs"@,
            ConfigError::UnhealthyThreshold => "health_check.unhealthy_threshold"@,
            ConfigError::HealthyThreshold => "health_check.healthy_threshold"@,
            ConfigError::FailureThreshold => "circuit_breaker.failure_threshold"@,
            ConfigError::SuccessThreshold => "circuit_breaker.success_threshold"@,
            ConfigError::MaxAttempts => "retry.max_attempts"@,
            ConfigError::BackoffMax => "retry.backoff_max_ms"@,
        }
    }

    /// The name of the offending field.
    pub fn field(&self) -> (s: String)
        ensures
            s@ == self.field_name(),
    {
        match *self {
            ConfigError::BackendWeight(i) => {
                let n = decimal_string(i as u64);
                join3("backends[", n.as_str(), "].weight")
            },
            ConfigError::BackendMaxConnections(i) => {
                let n = decimal_string(i as u64);
                join3("backends[", n.as_str(), "].max_connections")
            },
            ConfigError::HealthCheckInterval => "health_check.interval_secs".to_string(),
            ConfigError::UnhealthyThreshold => "health_check.unhealthy_threshold".to_string(),
            ConfigError::HealthyThreshold => "health_check.healthy_threshold".to_string(),
            ConfigError::FailureThreshold => "circuit_breaker.failure_threshold".to_string(),
            ConfigError::SuccessThreshold => "circuit_breaker.success_threshold".to_string(),
            ConfigError::MaxAttempts => "retry.max_attempts".to_string(),
            ConfigError::BackoffMax => "retry.backoff_max_ms".to_string(),
        }
    }
}

/// At most one fault is the first: `first_fault` names a single field.
pub proof fn lemma_first_fault_unique(cfg: Config, a: ConfigError, b: ConfigError)
    requires
        cfg.first_fault(a),
        cfg.first_fault(b),
    ensures
        a == b,
{
    if !cfg.backends_valid() {
        let i = choose|i: int|
            first_invalid_backend(cfg.backends@, i) && a == (#[trigger] cfg.backends@[i]).fault_at(
                i as usize,
            );
        let j = choose|j: int|
            first_invalid_backend(cfg.backends@, j) && b == (#[trigger] cfg.backends@[j]).fault_at(
                j as usize,
            );
        if i < j {
            assert(cfg.backends@[i].valid());
        } else if j < i {
            assert(cfg.backends@[j].valid());
        }
    }
}

} // verus!
