//! Fixed-window request rate limiting: per-route policies, a counter store
//! with lazy expiry, and the decision taken on each request.

pub mod limiter;
pub mod rate_limiter;
pub mod stores;
pub mod utils;
pub mod verdict;
pub mod window;

pub use limiter::{
    counter_key, rate_limit_middleware, Configuration, DefaultConfiguration, Request,
};
pub use rate_limiter::{Options, RateLimiter};
pub use stores::{Store, StoreError};
pub use verdict::{decide, rejection_message, Verdict, TOO_MANY_REQUESTS};
