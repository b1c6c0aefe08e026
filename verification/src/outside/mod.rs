//! The calls that leave this crate, each behind a small function whose
//! contract is taken on trust from the called crate's documentation.

pub mod clock;
pub mod http;
pub mod ids;
pub mod index;
pub mod random;
pub mod urls;
