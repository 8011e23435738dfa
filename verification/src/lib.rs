//! Rate limiting over a shared Redis store, written without I/O of its own.
//!
//! Every limiter operation is an [`exchange::Exchange`]: a short conversation
//! with the store in which the library says which pipeline to send next and the
//! caller hands back what the store answered. The five admission algorithms
//! (fixed window, sliding log, sliding window, leaky bucket, token bucket) are
//! the modules of the same names; each has a `laws` module that says what its
//! operations come to. The laws are proved against the model of the store in
//! [`store`], for operations one after the other ([`history`]) and, where an
//! algorithm guards against it, for operations that overlap
//! ([`interleaving`]).

pub mod error;
pub mod clock;
pub mod text;
pub mod keys;
pub mod pipeline;
pub mod command;
pub mod store;
pub mod exchange;
pub mod history;
pub mod interleaving;
pub mod fixed_window;
pub mod token_bucket;
pub mod sliding_window;
pub mod sliding_log;
pub mod leaky_bucket;
pub mod rate_limiter_redis;
pub mod rate_limiter_redis_trait;
pub mod token_bucket_rate_limiter_redis;
