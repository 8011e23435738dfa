//! Token bucket: a count of remaining tokens and the time it was last filled.
//!
//! The bucket is filled to its capacity when it is first used and again at the
//! first `record` that comes a full window or more after the last filling: a
//! windowed refill, all at once, not a trickle. Every admitted `record` takes
//! one token. The verdict rests on the value the atomic decrement returns: a
//! caller whose decrement goes below zero puts the token back and is refused.
//! So a standing bucket never gives out more tokens than it holds, however
//! many callers draw on it at once. The filling itself is not guarded in this
//! way: two callers that both find the bucket due for a filling both fill it.

use vstd::prelude::*;
use crate::clock::{capacity, capacity_of, seconds, secs_of, usable};
use crate::command::{carries, Batch, Command, Draft, Order};
use crate::error::LimiterError;
use crate::exchange::{
    counted, malformed, read_single, single, verdict, Exchange, Outcome, Params, Plan,
    Progress, Stage,
};
use crate::keys::{
    accepted, last_set_time_key, last_set_time_key_of, remaining_key, remaining_key_of,
};
use crate::store::Store;

pub mod laws;

verus! {

/// The round trip a token-bucket operation waits for.
#[derive(Debug, Clone, Copy, PartialEq, Eq, Structural)]
pub enum Phase {
    /// `record`: the time of the last filling is being read.
    Stamp,
    /// `record`: a bucket that did not exist is being filled.
    Init,
    /// `record`: a bucket whose window has passed is being filled again.
    Refill,
    /// `record`: the remaining tokens are being read.
    Left,
    /// `record`: one token is being taken.
    Take,
    /// `record`: a token taken from an empty bucket is being put back.
    Undo,
    /// `fetch`: the time of the last filling is being read. A lenient fetch
    /// reports a full bucket where the count is missing; a strict one fails.
    FetchStamp { lenient: bool },
    /// `fetch`: the remaining tokens are being read.
    FetchLeft { lenient: bool },
}

/// A full window or more has passed since the bucket was filled at `last`.
pub open spec fn elapsed(now_secs: int, last: int, window_secs: int) -> bool {
    now_secs - last >= window_secs
}

/// The four commands that fill a bucket, in the order given by `stamp_first`.
pub open spec fn filling(plan: Plan, stamp_first: bool) -> Batch {
    let stamp = Command::Write { key: plan.key, value: secs_of(plan.now_ms as int) };
    let stamp_expiry = Command::Expire { key: plan.key, seconds: plan.window as int };
    let tokens = Command::Write { key: plan.other, value: plan.capacity as int };
    let tokens_expiry = Command::Expire { key: plan.other, seconds: plan.window as int };
    if stamp_first {
        Batch::empty(true).with(stamp, true).with(stamp_expiry, true).with(tokens, true).with(
            tokens_expiry,
            true,
        )
    } else {
        Batch::empty(true).with(tokens, true).with(tokens_expiry, true).with(stamp, true).with(
            stamp_expiry,
            true,
        )
    }
}

/// The batch of each phase.
pub open spec fn request(plan: Plan, phase: Phase) -> Batch {
    match phase {
        Phase::Stamp | Phase::FetchStamp { .. } => Batch::empty(true).with(
            Command::Get { key: plan.key },
            false,
        ),
        Phase::Init => filling(plan, true),
        Phase::Refill => filling(plan, false),
        Phase::Left | Phase::FetchLeft { .. } => Batch::empty(true).with(
            Command::Get { key: plan.other },
            false,
        ),
        Phase::Take => Batch::empty(true).with(
            Command::Decrement { key: plan.other, delta: 1 },
            false,
        ),
        Phase::Undo => Batch::empty(true).with(
            Command::Increment { key: plan.other, delta: 1 },
            false,
        ),
    }
}

/// The stage that follows each phase, by what the store answered.
pub open spec fn react(plan: Plan, phase: Phase, values: Seq<Option<i64>>) -> Stage {
    match phase {
        Phase::Stamp => match single(values) {
            Some(None) => Stage::TokenBucket(Phase::Init),
            Some(Some(last)) => if last < 0 {
                malformed()
            } else if elapsed(secs_of(plan.now_ms as int), last as int, plan.window as int) {
                Stage::TokenBucket(Phase::Refill)
            } else {
                Stage::TokenBucket(Phase::Left)
            },
            None => malformed(),
        },
        Phase::Init | Phase::Refill => if values.len() == 0 {
            Stage::TokenBucket(Phase::Take)
        } else {
            malformed()
        },
        Phase::Left => match single(values) {
            Some(Some(left)) => if left <= 0 {
                verdict(false)
            } else {
                Stage::TokenBucket(Phase::Take)
            },
            _ => malformed(),
        },
        Phase::Take => match single(values) {
            Some(Some(left)) => if left >= 0 {
                verdict(true)
            } else {
                Stage::TokenBucket(Phase::Undo)
            },
            _ => malformed(),
        },
        Phase::Undo => match single(values) {
            Some(Some(_)) => verdict(false),
            _ => malformed(),
        },
        Phase::FetchStamp { lenient } => match single(values) {
            Some(None) => counted(plan.capacity),
            Some(Some(last)) => if last < 0 {
                malformed()
            } else if elapsed(secs_of(plan.now_ms as int), last as int, plan.window as int) {
                counted(plan.capacity)
            } else {
                Stage::TokenBucket(Phase::FetchLeft { lenient })
            },
            None => malformed(),
        },
        Phase::FetchLeft { lenient } => match single(values) {
            Some(Some(left)) => if left < 0 {
                counted(0)
            } else {
                counted(left as u64)
            },
            Some(None) => if lenient {
                counted(plan.capacity)
            } else {
                malformed()
            },
            None => malformed(),
        },
    }
}

/// What a token-bucket operation on a subject at time `now_ms` works with:
/// the subject's two keys and the capacity.
pub open spec fn plan_of(
    limit_per_sec: u64,
    prefix: Seq<char>,
    resource: Seq<char>,
    subject: Seq<char>,
    window_secs: u64,
    now_ms: u64,
) -> Plan {
    Plan {
        key: last_set_time_key_of(prefix, resource, subject),
        other: remaining_key_of(prefix, resource, subject),
        capacity: capacity_of(limit_per_sec as int, window_secs as int) as u64,
        window: window_secs,
        now_ms,
    }
}

/// Validates the limit and window and sets out at `phase`.
fn begin(
    limit_per_sec: u64,
    key_prefix: &str,
    resource: &str,
    subject: &str,
    window_secs: u64,
    now_ms: u64,
    phase: Phase,
) -> (r: Result<Exchange, LimiterError>)
    ensures
        accepted(
            limit_per_sec,
            window_secs,
            key_prefix@,
            resource@,
            subject@,
        ) ==> r is Ok && r->Ok_0@ == (Progress {
            plan: plan_of(limit_per_sec, key_prefix@, resource@, subject@, window_secs, now_ms),
            stage: Stage::TokenBucket(phase),
        }),
        !accepted(
            limit_per_sec,
            window_secs,
            key_prefix@,
            resource@,
            subject@,
        ) ==> r is Err && r->Err_0
            == LimiterError::Configuration,
{
    let capacity = match capacity(limit_per_sec, window_secs) {
        Ok(c) => c,
        Err(e) => {
            return Err(e);
        },
    };
    let key = match last_set_time_key(key_prefix, resource, subject) {
        Ok(text) => text,
        Err(e) => {
            return Err(e);
        },
    };
    let other = match remaining_key(key_prefix, resource, subject) {
        Ok(text) => text,
        Err(e) => {
            return Err(e);
        },
    };
    let params = Params {
        key,
        other,
        capacity,
        window: window_secs,
        now_ms,
    };
    Ok(Exchange::at(params, Stage::TokenBucket(phase)))
}

/// Begins a `record`: an attempt to take one token.
///
/// Fails with `Configuration` exactly when the limit and window are not
/// usable or a part of the key holds a `:`; otherwise the exchange starts by
/// reading the time of the last
/// filling.
pub fn record(
    limit_per_sec: u64,
    key_prefix: &str,
    resource: &str,
    subject: &str,
    window_secs: u64,
    now_ms: u64,
) -> (r: Result<Exchange, LimiterError>)
    ensures
        accepted(
            limit_per_sec,
            window_secs,
            key_prefix@,
            resource@,
            subject@,
        ) ==> r is Ok && r->Ok_0@ == (Progress {
            plan: plan_of(limit_per_sec, key_prefix@, resource@, subject@, window_secs, now_ms),
            stage: Stage::TokenBucket(Phase::Stamp),
        }),
        !accepted(
            limit_per_sec,
            window_secs,
            key_prefix@,
            resource@,
            subject@,
        ) ==> r is Err && r->Err_0
            == LimiterError::Configuration,
        accepted(
            limit_per_sec,
            window_secs,
            key_prefix@,
            resource@,
            subject@,
        ) ==> laws::records(r->Ok_0@),
{
    let begun = begin(
        limit_per_sec,
        key_prefix,
        resource,
        subject,
        window_secs,
        now_ms,
        Phase::Stamp,
    );
    proof {
        if accepted(limit_per_sec, window_secs, key_prefix@, resource@, subject@) {
            let plan = plan_of(
                limit_per_sec,
                key_prefix@,
                resource@,
                subject@,
                window_secs,
                now_ms,
            );
            crate::keys::token_keys_differ(key_prefix@, resource@, subject@);
            assert forall|store: Store| #[trigger]
                begun->Ok_0@.run(store) == laws::recorded(plan, store) by {
                laws::record_effect(plan, store);
            }
        }
    }
    begun
}

/// Begins a `fetch`: a read of the tokens that are left. Where the bucket's
/// count is missing although its filling time is there, a lenient fetch
/// reports a full bucket and a strict one fails with `Command`.
pub fn fetch(
    limit_per_sec: u64,
    key_prefix: &str,
    resource: &str,
    subject: &str,
    window_secs: u64,
    now_ms: u64,
    lenient: bool,
) -> (r: Result<Exchange, LimiterError>)
    ensures
        accepted(
            limit_per_sec,
            window_secs,
            key_prefix@,
            resource@,
            subject@,
        ) ==> r is Ok && r->Ok_0@ == (Progress {
            plan: plan_of(limit_per_sec, key_prefix@, resource@, subject@, window_secs, now_ms),
            stage: Stage::TokenBucket(Phase::FetchStamp { lenient }),
        }),
        !accepted(
            limit_per_sec,
            window_secs,
            key_prefix@,
            resource@,
            subject@,
        ) ==> r is Err && r->Err_0
            == LimiterError::Configuration,
        accepted(
            limit_per_sec,
            window_secs,
            key_prefix@,
            resource@,
            subject@,
        ) ==> laws::fetches(r->Ok_0@, lenient),
{
    let begun = begin(
        limit_per_sec,
        key_prefix,
        resource,
        subject,
        window_secs,
        now_ms,
        Phase::FetchStamp { lenient },
    );
    proof {
        if accepted(limit_per_sec, window_secs, key_prefix@, resource@, subject@) {
            let plan = plan_of(
                limit_per_sec,
                key_prefix@,
                resource@,
                subject@,
                window_secs,
                now_ms,
            );
            assert forall|store: Store| #[trigger]
                begun->Ok_0@.run(store) == laws::fetched(plan, store, lenient) by {
                laws::fetch_effect(plan, store, lenient);
            }
        }
    }
    begun
}

/// The pipeline of a phase.
pub(crate) fn build(params: &Params, phase: Phase) -> (p: redis::Pipeline)
    requires
        params@.valid(),
    ensures
        carries(p, request(params@, phase)),
{
    let stamp = params.key.as_str();
    let tokens = params.other.as_str();
    let now_secs = seconds(params.now_ms);
    let ttl = params.window as usize;
    match phase {
        Phase::Stamp | Phase::FetchStamp { .. } => {
            let mut draft = Draft::new(true);
            draft.add(Order::Get { key: stamp }, false);
            draft.finish()
        },
        Phase::Init => {
            let mut draft = Draft::new(true);
            draft.add(Order::Write { key: stamp, value: now_secs }, true);
            draft.add(Order::Expire { key: stamp, seconds: ttl }, true);
            draft.add(Order::Write { key: tokens, value: params.capacity }, true);
            draft.add(Order::Expire { key: tokens, seconds: ttl }, true);
            draft.finish()
        },
        Phase::Refill => {
            let mut draft = Draft::new(true);
            draft.add(Order::Write { key: tokens, value: params.capacity }, true);
            draft.add(Order::Expire { key: tokens, seconds: ttl }, true);
            draft.add(Order::Write { key: stamp, value: now_secs }, true);
            draft.add(Order::Expire { key: stamp, seconds: ttl }, true);
            draft.finish()
        },
        Phase::Left | Phase::FetchLeft { .. } => {
            let mut draft = Draft::new(true);
            draft.add(Order::Get { key: tokens }, false);
            draft.finish()
        },
        Phase::Take => {
            let mut draft = Draft::new(true);
            draft.add(Order::Decrement { key: tokens, delta: 1 }, false);
            draft.finish()
        },
        Phase::Undo => {
            let mut draft = Draft::new(true);
            draft.add(Order::Increment { key: tokens, delta: 1 }, false);
            draft.finish()
        },
    }
}

/// Whether a full window or more has passed since `last`.
fn has_elapsed(now_ms: u64, last: i64, window_secs: u64) -> (r: bool)
    requires
        last >= 0,
    ensures
        r == elapsed(secs_of(now_ms as int), last as int, window_secs as int),
{
    let now_secs = seconds(now_ms);
    let last = last as u64;
    now_secs >= last && now_secs - last >= window_secs
}

/// The stage after a phase, from the values the store answered with.
pub(crate) fn respond(params: &Params, phase: Phase, values: &Vec<Option<i64>>) -> (stage: Stage)
    ensures
        stage == react(params@, phase, values@),
{
    let failed = Stage::Failed(LimiterError::Command);
    let full = Stage::Done(Outcome::Count(params.capacity));
    match phase {
        Phase::Stamp => match read_single(values) {
            Some(None) => Stage::TokenBucket(Phase::Init),
            Some(Some(last)) => if last < 0 {
                failed
            } else if has_elapsed(params.now_ms, last, params.window) {
                Stage::TokenBucket(Phase::Refill)
            } else {
                Stage::TokenBucket(Phase::Left)
            },
            None => failed,
        },
        Phase::Init | Phase::Refill => if values.len() == 0 {
            Stage::TokenBucket(Phase::Take)
        } else {
            failed
        },
        Phase::Left => match read_single(values) {
            Some(Some(left)) => if left <= 0 {
                Stage::Done(Outcome::Verdict(false))
            } else {
                Stage::TokenBucket(Phase::Take)
            },
            _ => failed,
        },
        Phase::Take => match read_single(values) {
            Some(Some(left)) => if left >= 0 {
                Stage::Done(Outcome::Verdict(true))
            } else {
                Stage::TokenBucket(Phase::Undo)
            },
            _ => failed,
        },
        Phase::Undo => match read_single(values) {
            Some(Some(_)) => Stage::Done(Outcome::Verdict(false)),
            _ => failed,
        },
        Phase::FetchStamp { lenient } => match read_single(values) {
            Some(None) => full,
            Some(Some(last)) => if last < 0 {
                failed
            } else if has_elapsed(params.now_ms, last, params.window) {
                full
            } else {
                Stage::TokenBucket(Phase::FetchLeft { lenient })
            },
            None => failed,
        },
        Phase::FetchLeft { lenient } => match read_single(values) {
            Some(Some(left)) => if left < 0 {
                Stage::Done(Outcome::Count(0))
            } else {
                Stage::Done(Outcome::Count(left as u64))
            },
            Some(None) => if lenient {
                full
            } else {
                failed
            },
            None => failed,
        },
    }
}

} // verus!
