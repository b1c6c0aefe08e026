//! Per-backend circuit breakers.

pub mod breaker;
pub mod manager;

pub use breaker::{BreakerView, CircuitBreaker, CircuitBreakerMetrics, CircuitBreakerState};
pub use manager::CircuitBreakerManager;
