//! Bounded retries with exponential backoff.

pub mod strategy;

pub use strategy::{RetryDecision, RetryError, RetryStep, RetryStrategy};
