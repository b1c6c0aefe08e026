//! Control plane of an HTTP reverse proxy and load balancer: the backend
//! pool, health tracking, per-backend circuit breakers, selection
//! strategies, bounded retries and the dispatcher that composes them.

pub mod circuit_breaker;
pub mod config;
pub mod health;
pub mod load_balancer;
pub mod metrics;
pub mod outside;
pub mod proxy;
pub mod registry;
pub mod retry;
pub mod text;
