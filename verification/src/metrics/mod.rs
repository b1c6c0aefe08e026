//! What the proxy reports to its metrics sink.

pub mod collector;

pub use collector::{MetricEvent, MetricsCollector, Timer};
