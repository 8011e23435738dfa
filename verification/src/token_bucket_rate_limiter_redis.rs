//! The token bucket as a limiter of its own.

use vstd::prelude::*;
use crate::error::LimiterError;
use crate::exchange::{Exchange, Progress, Stage};
use crate::rate_limiter_redis_trait::RateLimiterRedisTrait;
use crate::keys::accepted;
use crate::token_bucket::{fetch, laws, plan_of, record, Phase};

verus! {

/// A token-bucket limiter with a configured rate.
pub struct TokenBucketRateLimiter {
    /// Tokens per second; a full bucket holds this times the window's seconds.
    pub limit_per_sec: u64,
}

impl TokenBucketRateLimiter {
    /// Whether a caller whose `fetch` reported `remaining` tokens may take one.
    pub fn can_make_request(&self, remaining: u64) -> (allow: bool)
        ensures
            allow == (remaining > 0),
    {
        remaining > 0
    }
}

impl RateLimiterRedisTrait for TokenBucketRateLimiter {
    open spec fn limit(&self) -> u64 {
        self.limit_per_sec
    }

    open spec fn recording(
        &self,
        key_prefix: Seq<char>,
        resource: Seq<char>,
        subject: Seq<char>,
        size_secs: u64,
        now_ms: u64,
    ) -> Progress {
        Progress {
            plan: plan_of(self.limit_per_sec, key_prefix, resource, subject, size_secs, now_ms),
            stage: Stage::TokenBucket(Phase::Stamp),
        }
    }

    open spec fn fetching(
        &self,
        key_prefix: Seq<char>,
        resource: Seq<char>,
        subject: Seq<char>,
        size_secs: u64,
        now_ms: u64,
    ) -> Progress {
        Progress {
            plan: plan_of(self.limit_per_sec, key_prefix, resource, subject, size_secs, now_ms),
            stage: Stage::TokenBucket(Phase::FetchStamp { lenient: true }),
        }
    }

    /// Begins an attempt to take one token.
    fn record(
        &self,
        key_prefix: &str,
        resource: &str,
        subject: &str,
        size_secs: u64,
        now_ms: u64,
    ) -> (r: Result<Exchange, LimiterError>)
        ensures
            accepted(
                self.limit_per_sec,
                size_secs,
                key_prefix@,
                resource@,
                subject@,
            ) ==> laws::records(r->Ok_0@),
    {
        record(self.limit_per_sec, key_prefix, resource, subject, size_secs, now_ms)
    }

    /// Begins a read of the tokens that are left; a bucket with a filling time
    /// and no count is reported as full.
    fn fetch(
        &self,
        key_prefix: &str,
        resource: &str,
        subject: &str,
        size_secs: u64,
        now_ms: u64,
    ) -> (r: Result<Exchange, LimiterError>)
        ensures
            accepted(
                self.limit_per_sec,
                size_secs,
                key_prefix@,
                resource@,
                subject@,
            ) ==> laws::fetches(r->Ok_0@, true),
    {
        fetch(self.limit_per_sec, key_prefix, resource, subject, size_secs, now_ms, true)
    }
}

} // verus!
