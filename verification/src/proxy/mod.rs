//! Backends, the pool that holds them, and the dispatcher.

pub mod backend;
pub mod error;
pub mod forward;
pub mod pool;
pub mod proxy;

pub use backend::{Backend, BackendMetrics, BackendView, HealthStatus};
pub use error::{ErrorResponse, ProxyError};
pub use pool::BackendPool;
pub use proxy::Proxy;
