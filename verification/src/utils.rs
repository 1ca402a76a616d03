//! Helpers shared by the rate limiter.

pub mod url;
