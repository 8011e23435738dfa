//! The limiter: a per-second limit, and one pair of operations for each
//! algorithm.
//!
//! Every method begins an [`Exchange`] and leaves the talking to the caller.
//! The window is given in whole seconds and the clock reading in milliseconds
//! since the epoch; the capacity of a window is the limit times the window's
//! seconds.

use vstd::prelude::*;
use crate::clock::{capacity, capacity_of, usable};
use crate::keys::{accepted, nameable};
use crate::error::{Fault, LimiterError};
use crate::exchange::{Exchange, Progress, Stage};
use crate::fixed_window;
use crate::leaky_bucket;
use crate::sliding_log;
use crate::sliding_window;
use crate::token_bucket;

verus! {

/// A limiter with a configured rate.
pub struct RateLimiterRedis {
    /// Units per second; the capacity of a window is this times its seconds.
    pub limit_per_sec: u64,
}

impl RateLimiterRedis {
    /// A limiter for a rate, given how the attempt to connect to the store
    /// went.
    ///
    /// Where the connection failed no limiter is built and the fault is
    /// reported as the error of its kind. Where it succeeded, a rate of zero
    /// is refused with `Configuration` and any other rate gives the limiter.
    pub fn open(connected: Result<(), Fault>, limit_per_sec: u64) -> (r: Result<
        Self,
        LimiterError,
    >)
        ensures
            connected is Err ==> r is Err && r->Err_0 == LimiterError::of_fault(connected->Err_0),
            connected is Ok && limit_per_sec == 0 ==> r is Err && r->Err_0
                == LimiterError::Configuration,
            connected is Ok && limit_per_sec > 0 ==> r is Ok && r->Ok_0.limit_per_sec
                == limit_per_sec,
    {
        match connected {
            Err(fault) => Err(LimiterError::from_fault(fault)),
            Ok(()) => if limit_per_sec == 0 {
                Err(LimiterError::Configuration)
            } else {
                Ok(RateLimiterRedis { limit_per_sec })
            },
        }
    }

    /// Whether a caller that has consumed `consumed` units, as a `fetch`
    /// reported, may still take one: the count is below the capacity.
    pub fn can_make_request(&self, consumed: u64, size_secs: u64) -> (r: Result<
        bool,
        LimiterError,
    >)
        ensures
            usable(self.limit_per_sec, size_secs) ==> r is Ok && r->Ok_0 == (consumed
                < capacity_of(self.limit_per_sec as int, size_secs as int)),
            !usable(self.limit_per_sec, size_secs) ==> r is Err && r->Err_0
                == LimiterError::Configuration,
    {
        match capacity(self.limit_per_sec, size_secs) {
            Ok(most) => Ok(consumed < most),
            Err(e) => Err(e),
        }
    }

    /// Begins a fixed-window `record`: an attempt to take one unit in the window
    /// that holds `now_ms`.
    ///
    /// Fails with `Configuration` exactly when the limit and the window are not
    /// usable or a part of the key holds a `:`. Played to its end with one
    /// caller at a time, the exchange allows
    /// the call where the window's counter is below the capacity, and counts
    /// it; refuses the call where the counter is full; and fails with `Command`
    /// where the counter cannot be read.
    pub fn record_fixed_window(
        &self,
        key_prefix: &str,
        resource: &str,
        subject: &str,
        size_secs: u64,
        now_ms: u64,
    ) -> (r: Result<Exchange, LimiterError>)
        ensures
            accepted(
                self.limit_per_sec,
                size_secs,
                key_prefix@,
                resource@,
                subject@,
            ) ==> r is Ok && r->Ok_0@ == (Progress {
                plan: fixed_window::plan_of(
                    self.limit_per_sec,
                    key_prefix@,
                    resource@,
                    subject@,
                    size_secs,
                    now_ms,
                ),
                stage: Stage::FixedWindow(fixed_window::Phase::Read),
            }),
            !accepted(
                self.limit_per_sec,
                size_secs,
                key_prefix@,
                resource@,
                subject@,
            ) ==> r is Err && r->Err_0
                == LimiterError::Configuration,
            accepted(
                self.limit_per_sec,
                size_secs,
                key_prefix@,
                resource@,
                subject@,
            ) ==> fixed_window::laws::records(r->Ok_0@),
    {
        fixed_window::record(self.limit_per_sec, key_prefix, resource, subject, size_secs, now_ms)
    }

    /// Begins a fixed-window `fetch`: a read of what the window that holds
    /// `now_ms` has counted, 0 where it has no counter.
    pub fn fetch_fixed_window(
        &self,
        key_prefix: &str,
        resource: &str,
        subject: &str,
        size_secs: u64,
        now_ms: u64,
    ) -> (r: Result<Exchange, LimiterError>)
        ensures
            accepted(
                self.limit_per_sec,
                size_secs,
                key_prefix@,
                resource@,
                subject@,
            ) ==> r is Ok && r->Ok_0@ == (Progress {
                plan: fixed_window::plan_of(
                    self.limit_per_sec,
                    key_prefix@,
                    resource@,
                    subject@,
                    size_secs,
                    now_ms,
                ),
                stage: Stage::FixedWindow(fixed_window::Phase::Fetch),
            }),
            !accepted(
                self.limit_per_sec,
                size_secs,
                key_prefix@,
                resource@,
                subject@,
            ) ==> r is Err && r->Err_0
                == LimiterError::Configuration,
            accepted(
                self.limit_per_sec,
                size_secs,
                key_prefix@,
                resource@,
                subject@,
            ) ==> fixed_window::laws::fetches(r->Ok_0@),
    {
        fixed_window::fetch(self.limit_per_sec, key_prefix, resource, subject, size_secs, now_ms)
    }

    /// Begins a sliding-log `record`: an attempt to enter `now_ms` in the
    /// subject's ledger.
    ///
    /// Fails with `Configuration` exactly when the limit and the window are not
    /// usable or a part of the key holds a `:`. Played to its end with one
    /// caller at a time, the exchange refuses
    /// the call where the ledger holds as many entries as the capacity;
    /// otherwise it allows the call, removes the entries older than one window
    /// and adds the call's time.
    pub fn record_sliding_log(
        &self,
        key_prefix: &str,
        resource: &str,
        subject: &str,
        size_secs: u64,
        now_ms: u64,
    ) -> (r: Result<Exchange, LimiterError>)
        ensures
            accepted(
                self.limit_per_sec,
                size_secs,
                key_prefix@,
                resource@,
                subject@,
            ) ==> r is Ok && r->Ok_0@ == (Progress {
                plan: sliding_log::plan_of(
                    self.limit_per_sec,
                    key_prefix@,
                    resource@,
                    subject@,
                    size_secs,
                    now_ms,
                ),
                stage: Stage::SlidingLog(sliding_log::Phase::Count),
            }),
            !accepted(
                self.limit_per_sec,
                size_secs,
                key_prefix@,
                resource@,
                subject@,
            ) ==> r is Err && r->Err_0
                == LimiterError::Configuration,
            accepted(
                self.limit_per_sec,
                size_secs,
                key_prefix@,
                resource@,
                subject@,
            ) ==> sliding_log::laws::records(r->Ok_0@),
    {
        sliding_log::record(self.limit_per_sec, key_prefix, resource, subject, size_secs, now_ms)
    }

    /// Begins a sliding-log `fetch`: a count of the ledger as it stands. It
    /// needs no window; it fails with `Configuration` exactly where a part of
    /// the key holds a `:`.
    pub fn fetch_sliding_log(
        &self,
        key_prefix: &str,
        resource: &str,
        subject: &str,
        now_ms: u64,
    ) -> (r: Result<Exchange, LimiterError>)
        ensures
            nameable(key_prefix@, resource@, subject@) ==> r is Ok && r->Ok_0@ == (Progress {
                plan: sliding_log::fetch_plan_of(key_prefix@, resource@, subject@, now_ms),
                stage: Stage::SlidingLog(sliding_log::Phase::Fetch),
            }),
            !nameable(key_prefix@, resource@, subject@) ==> r is Err && r->Err_0
                == LimiterError::Configuration,
            nameable(key_prefix@, resource@, subject@) ==> sliding_log::laws::fetches(r->Ok_0@),
    {
        sliding_log::fetch(key_prefix, resource, subject, now_ms)
    }

    /// Begins a sliding-window `record`: an attempt to take one unit, judged by
    /// the current window's count plus the weighted share of the previous
    /// window's.
    ///
    /// Fails with `Configuration` exactly when the limit and the window are not
    /// usable or a part of the key holds a `:`. Played to its end with one
    /// caller at a time, the exchange refuses
    /// the call where the estimate has reached the capacity and otherwise
    /// allows it and counts it in the current window.
    pub fn record_sliding_window(
        &self,
        key_prefix: &str,
        resource: &str,
        subject: &str,
        size_secs: u64,
        now_ms: u64,
    ) -> (r: Result<Exchange, LimiterError>)
        ensures
            accepted(
                self.limit_per_sec,
                size_secs,
                key_prefix@,
                resource@,
                subject@,
            ) ==> r is Ok && r->Ok_0@ == (Progress {
                plan: sliding_window::plan_of(
                    self.limit_per_sec,
                    key_prefix@,
                    resource@,
                    subject@,
                    size_secs,
                    now_ms,
                ),
                stage: Stage::SlidingWindow(sliding_window::Phase::Read),
            }),
            !accepted(
                self.limit_per_sec,
                size_secs,
                key_prefix@,
                resource@,
                subject@,
            ) ==> r is Err && r->Err_0
                == LimiterError::Configuration,
            accepted(
                self.limit_per_sec,
                size_secs,
                key_prefix@,
                resource@,
                subject@,
            ) ==> sliding_window::laws::records(r->Ok_0@),
    {
        sliding_window::record(
            self.limit_per_sec,
            key_prefix,
            resource,
            subject,
            size_secs,
            now_ms,
        )
    }

    /// Begins a sliding-window `fetch`: a read of the estimate at `now_ms`.
    pub fn fetch_sliding_window(
        &self,
        key_prefix: &str,
        resource: &str,
        subject: &str,
        size_secs: u64,
        now_ms: u64,
    ) -> (r: Result<Exchange, LimiterError>)
        ensures
            accepted(
                self.limit_per_sec,
                size_secs,
                key_prefix@,
                resource@,
                subject@,
            ) ==> r is Ok && r->Ok_0@ == (Progress {
                plan: sliding_window::plan_of(
                    self.limit_per_sec,
                    key_prefix@,
                    resource@,
                    subject@,
                    size_secs,
                    now_ms,
                ),
                stage: Stage::SlidingWindow(sliding_window::Phase::Fetch),
            }),
            !accepted(
                self.limit_per_sec,
                size_secs,
                key_prefix@,
                resource@,
                subject@,
            ) ==> r is Err && r->Err_0
                == LimiterError::Configuration,
            accepted(
                self.limit_per_sec,
                size_secs,
                key_prefix@,
                resource@,
                subject@,
            ) ==> sliding_window::laws::fetches(r->Ok_0@),
    {
        sliding_window::fetch(
            self.limit_per_sec,
            key_prefix,
            resource,
            subject,
            size_secs,
            now_ms,
        )
    }

    /// Begins a leak step of the leaky bucket: the markers of the window that
    /// holds `now_ms` are kept and the others dropped.
    ///
    /// Fails with `Configuration` exactly when the limit and the window are not
    /// usable or a part of the key holds a `:`. Played to its end with one
    /// caller at a time, the exchange reads
    /// the queue and trims it to the markers of the current window, removing
    /// the key where none is left; it fails with `Command`, changing nothing,
    /// where the key holds no list or its markers of the current window do not
    /// lie together.
    pub fn consume_leaky_bucket(
        &self,
        key_prefix: &str,
        resource: &str,
        subject: &str,
        size_secs: u64,
        now_ms: u64,
    ) -> (r: Result<Exchange, LimiterError>)
        ensures
            accepted(
                self.limit_per_sec,
                size_secs,
                key_prefix@,
                resource@,
                subject@,
            ) ==> r is Ok && r->Ok_0@ == (Progress {
                plan: leaky_bucket::plan_of(
                    self.limit_per_sec,
                    key_prefix@,
                    resource@,
                    subject@,
                    size_secs,
                    now_ms,
                ),
                stage: Stage::LeakyBucket(leaky_bucket::Phase::Scan),
            }),
            !accepted(
                self.limit_per_sec,
                size_secs,
                key_prefix@,
                resource@,
                subject@,
            ) ==> r is Err && r->Err_0
                == LimiterError::Configuration,
            accepted(
                self.limit_per_sec,
                size_secs,
                key_prefix@,
                resource@,
                subject@,
            ) ==> leaky_bucket::laws::consumes(r->Ok_0@),
    {
        leaky_bucket::consume(self.limit_per_sec, key_prefix, resource, subject, size_secs, now_ms)
    }

    /// Begins a leaky-bucket `record`: an attempt to append the call's time to
    /// the subject's queue.
    ///
    /// Fails with `Configuration` exactly when the limit and the window are not
    /// usable or a part of the key holds a `:`. Played to its end with one
    /// caller at a time, the exchange refuses
    /// the call where the queue is as long as the capacity and otherwise
    /// allows it and appends its marker.
    pub fn record_leaky_bucket(
        &self,
        key_prefix: &str,
        resource: &str,
        subject: &str,
        size_secs: u64,
        now_ms: u64,
    ) -> (r: Result<Exchange, LimiterError>)
        ensures
            accepted(
                self.limit_per_sec,
                size_secs,
                key_prefix@,
                resource@,
                subject@,
            ) ==> r is Ok && r->Ok_0@ == (Progress {
                plan: leaky_bucket::plan_of(
                    self.limit_per_sec,
                    key_prefix@,
                    resource@,
                    subject@,
                    size_secs,
                    now_ms,
                ),
                stage: Stage::LeakyBucket(leaky_bucket::Phase::Length),
            }),
            !accepted(
                self.limit_per_sec,
                size_secs,
                key_prefix@,
                resource@,
                subject@,
            ) ==> r is Err && r->Err_0
                == LimiterError::Configuration,
            accepted(
                self.limit_per_sec,
                size_secs,
                key_prefix@,
                resource@,
                subject@,
            ) ==> leaky_bucket::laws::records(r->Ok_0@),
    {
        leaky_bucket::record(self.limit_per_sec, key_prefix, resource, subject, size_secs, now_ms)
    }

    /// Begins a leaky-bucket `fetch`: a read of the queue's length.
    pub fn fetch_leaky_bucket(
        &self,
        key_prefix: &str,
        resource: &str,
        subject: &str,
        size_secs: u64,
        now_ms: u64,
    ) -> (r: Result<Exchange, LimiterError>)
        ensures
            accepted(
                self.limit_per_sec,
                size_secs,
                key_prefix@,
                resource@,
                subject@,
            ) ==> r is Ok && r->Ok_0@ == (Progress {
                plan: leaky_bucket::plan_of(
                    self.limit_per_sec,
                    key_prefix@,
                    resource@,
                    subject@,
                    size_secs,
                    now_ms,
                ),
                stage: Stage::LeakyBucket(leaky_bucket::Phase::Fetch),
            }),
            !accepted(
                self.limit_per_sec,
                size_secs,
                key_prefix@,
                resource@,
                subject@,
            ) ==> r is Err && r->Err_0
                == LimiterError::Configuration,
            accepted(
                self.limit_per_sec,
                size_secs,
                key_prefix@,
                resource@,
                subject@,
            ) ==> leaky_bucket::laws::fetches(r->Ok_0@),
    {
        leaky_bucket::fetch(self.limit_per_sec, key_prefix, resource, subject, size_secs, now_ms)
    }

    /// Begins a token-bucket `record`: an attempt to take one token.
    ///
    /// Fails with `Configuration` exactly when the limit and the window are not
    /// usable or a part of the key holds a `:`. Played to its end with one
    /// caller at a time, the exchange fills
    /// the bucket where there is none or a window has passed since it was
    /// filled, and takes the call's token from the full bucket; otherwise it
    /// takes one token where one is left and refuses the call where none is.
    pub fn record_token_bucket(
        &self,
        key_prefix: &str,
        resource: &str,
        subject: &str,
        size_secs: u64,
        now_ms: u64,
    ) -> (r: Result<Exchange, LimiterError>)
        ensures
            accepted(
                self.limit_per_sec,
                size_secs,
                key_prefix@,
                resource@,
                subject@,
            ) ==> r is Ok && r->Ok_0@ == (Progress {
                plan: token_bucket::plan_of(
                    self.limit_per_sec,
                    key_prefix@,
                    resource@,
                    subject@,
                    size_secs,
                    now_ms,
                ),
                stage: Stage::TokenBucket(token_bucket::Phase::Stamp),
            }),
            !accepted(
                self.limit_per_sec,
                size_secs,
                key_prefix@,
                resource@,
                subject@,
            ) ==> r is Err && r->Err_0
                == LimiterError::Configuration,
            accepted(
                self.limit_per_sec,
                size_secs,
                key_prefix@,
                resource@,
                subject@,
            ) ==> token_bucket::laws::records(r->Ok_0@),
    {
        token_bucket::record(self.limit_per_sec, key_prefix, resource, subject, size_secs, now_ms)
    }

    /// Begins a token-bucket `fetch`: a read of the tokens that are left, the
    /// capacity where the bucket does not exist or is due for a filling. The
    /// exchange fails with `Command` where the bucket has a filling time and no
    /// count.
    pub fn fetch_token_bucket(
        &self,
        key_prefix: &str,
        resource: &str,
        subject: &str,
        size_secs: u64,
        now_ms: u64,
    ) -> (r: Result<Exchange, LimiterError>)
        ensures
            accepted(
                self.limit_per_sec,
                size_secs,
                key_prefix@,
                resource@,
                subject@,
            ) ==> r is Ok && r->Ok_0@ == (Progress {
                plan: token_bucket::plan_of(
                    self.limit_per_sec,
                    key_prefix@,
                    resource@,
                    subject@,
                    size_secs,
                    now_ms,
                ),
                stage: Stage::TokenBucket(token_bucket::Phase::FetchStamp { lenient: false }),
            }),
            !accepted(
                self.limit_per_sec,
                size_secs,
                key_prefix@,
                resource@,
                subject@,
            ) ==> r is Err && r->Err_0
                == LimiterError::Configuration,
            accepted(
                self.limit_per_sec,
                size_secs,
                key_prefix@,
                resource@,
                subject@,
            ) ==> token_bucket::laws::fetches(r->Ok_0@, false),
    {
        token_bucket::fetch(
            self.limit_per_sec,
            key_prefix,
            resource,
            subject,
            size_secs,
            now_ms,
            false,
        )
    }
}

} // verus!
