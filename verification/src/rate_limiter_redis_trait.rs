//! The interface every limiter variant offers: `record` and `fetch`.

use vstd::prelude::*;
use crate::keys::accepted;
use crate::error::LimiterError;
use crate::exchange::{Exchange, Progress};

verus! {

/// A limiter of one algorithm. Both operations begin an exchange with the
/// store; a variant says by its two spec functions where its exchanges start.
pub trait RateLimiterRedisTrait {
    /// The configured rate, in units per second.
    spec fn limit(&self) -> u64;

    /// Where a `record` starts.
    spec fn recording(
        &self,
        key_prefix: Seq<char>,
        resource: Seq<char>,
        subject: Seq<char>,
        size_secs: u64,
        now_ms: u64,
    ) -> Progress;

    /// Where a `fetch` starts.
    spec fn fetching(
        &self,
        key_prefix: Seq<char>,
        resource: Seq<char>,
        subject: Seq<char>,
        size_secs: u64,
        now_ms: u64,
    ) -> Progress;

    /// Begins an attempt to consume one unit. Fails with `Configuration`
    /// exactly when the limit and the window are not usable or a part of
    /// the key holds a `:`.
    fn record(
        &self,
        key_prefix: &str,
        resource: &str,
        subject: &str,
        size_secs: u64,
        now_ms: u64,
    ) -> (r: Result<Exchange, LimiterError>)
        ensures
            accepted(
                self.limit(),
                size_secs,
                key_prefix@,
                resource@,
                subject@,
            ) ==> r is Ok && r->Ok_0@ == self.recording(
                key_prefix@,
                resource@,
                subject@,
                size_secs,
                now_ms,
            ),
            !accepted(
                self.limit(),
                size_secs,
                key_prefix@,
                resource@,
                subject@,
            ) ==> r is Err && r->Err_0
                == LimiterError::Configuration,
    ;

    /// Begins a read of the current consumption. Fails with `Configuration`
    /// exactly when the limit and the window are not usable or a part of
    /// the key holds a `:`.
    fn fetch(
        &self,
        key_prefix: &str,
        resource: &str,
        subject: &str,
        size_secs: u64,
        now_ms: u64,
    ) -> (r: Result<Exchange, LimiterError>)
        ensures
            accepted(
                self.limit(),
                size_secs,
                key_prefix@,
                resource@,
                subject@,
            ) ==> r is Ok && r->Ok_0@ == self.fetching(
                key_prefix@,
                resource@,
                subject@,
                size_secs,
                now_ms,
            ),
            !accepted(
                self.limit(),
                size_secs,
                key_prefix@,
                resource@,
                subject@,
            ) ==> r is Err && r->Err_0
                == LimiterError::Configuration,
    ;
}

} // verus!
