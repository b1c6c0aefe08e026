//! Health probing: what a probe's outcome means for a backend and for
//! the healthy view.

pub mod checker;

pub use checker::{
    CheckerAction, CheckerEvent, HealthCheckResult, HealthChecker, HealthTransition, ProbeError,
    ProbeOutcome, RoundSummary,
};
pub use crate::proxy::backend::HealthStatus;
