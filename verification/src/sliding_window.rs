//! Sliding window: the current window's counter plus a share of the previous
//! one.
//!
//! The count is estimated as if the previous window's events were spread
//! evenly: of the previous counter, the fraction of the window that still
//! reaches back into it is added to the current counter, rounded to the
//! nearest whole number with halves rounded up.
//!
//! The read of the counters and the increment are two round trips. Callers
//! whose reads fall between another caller's read and its increment can
//! together count more than the capacity; with one caller at a time the
//! capacity holds.

use vstd::prelude::*;
use crate::clock::{
    capacity, capacity_of, epoch, epoch_bounds, epoch_of, seconds, secs_of, usable,
    MAX_WINDOW_SECS,
};
use crate::command::{carries, Batch, Command, Draft, Order};
use crate::error::LimiterError;
use crate::exchange::{
    counted, malformed, read_single, single, verdict, Exchange, Outcome, Params, Plan,
    Progress, Stage,
};
use crate::keys::{accepted, previous_window_key, window_key, window_key_of};
use crate::store::Store;

pub mod laws;

verus! {

/// The round trip a sliding-window operation waits for.
#[derive(Debug, Clone, Copy, PartialEq, Eq, Structural)]
pub enum Phase {
    /// `record`: both counters are being read.
    Read,
    /// `record`: the current counter is being incremented.
    Increment,
    /// `fetch`: both counters are being read.
    Fetch,
}

/// Milliseconds from `now_ms` to the start of the next window.
pub open spec fn remaining_ms(now_ms: int, window_secs: int) -> int {
    (epoch_of(secs_of(now_ms), window_secs) + window_secs) * 1000 - now_ms
}

/// The quotient of two naturals rounded to the nearest whole number, a half
/// rounded up.
pub open spec fn round_half_up(numerator: int, denominator: int) -> int {
    (2 * numerator + denominator) / (2 * denominator)
}

/// The share of the previous window's count that still weighs at `now_ms`:
/// the count times `remaining_ms / window_ms`, rounded.
pub open spec fn weighted(previous: int, now_ms: int, window_secs: int) -> int {
    round_half_up(previous * remaining_ms(now_ms, window_secs), window_secs * 1000)
}

/// The estimated consumption at `now_ms`.
pub open spec fn estimate_of(previous: int, current: int, now_ms: int, window_secs: int) -> int {
    current + weighted(previous, now_ms, window_secs)
}

/// A counter as read from the store: absent counts as 0, and a negative number
/// is no count.
pub open spec fn count_of(value: Option<i64>) -> Option<u64> {
    match value {
        None => Some(0u64),
        Some(n) => if n < 0 {
            None
        } else {
            Some(n as u64)
        },
    }
}

/// The estimate from a reply of two counters, previous first; `None` when the
/// reply is not two counts.
pub open spec fn estimate_from(plan: Plan, values: Seq<Option<i64>>) -> Option<u64> {
    if values.len() != 2 {
        None
    } else {
        match (count_of(values[0]), count_of(values[1])) {
            (Some(previous), Some(current)) => Some(
                estimate_of(
                    previous as int,
                    current as int,
                    plan.now_ms as int,
                    plan.window as int,
                ) as u64,
            ),
            _ => None,
        }
    }
}

/// The batch of each phase.
pub open spec fn request(plan: Plan, phase: Phase) -> Batch {
    match phase {
        Phase::Read | Phase::Fetch => Batch::empty(true).with(
            Command::Get { key: plan.other },
            false,
        ).with(Command::Get { key: plan.key }, false),
        Phase::Increment => Batch::empty(true).with(
            Command::Increment { key: plan.key, delta: 1 },
            false,
        ).with(Command::Expire { key: plan.key, seconds: 2 * plan.window }, true),
    }
}

/// The stage that follows each phase, by what the store answered.
pub open spec fn react(plan: Plan, phase: Phase, values: Seq<Option<i64>>) -> Stage {
    match phase {
        Phase::Read => match estimate_from(plan, values) {
            Some(estimate) => if estimate >= plan.capacity {
                verdict(false)
            } else {
                Stage::SlidingWindow(Phase::Increment)
            },
            None => malformed(),
        },
        Phase::Increment => match single(values) {
            Some(Some(_)) => verdict(true),
            _ => malformed(),
        },
        Phase::Fetch => match estimate_from(plan, values) {
            Some(estimate) => counted(estimate),
            None => malformed(),
        },
    }
}

/// What a sliding-window operation on a subject at time `now_ms` works with:
/// the counters of the window that holds `now_ms` and of the one before it,
/// and the capacity.
pub open spec fn plan_of(
    limit_per_sec: u64,
    prefix: Seq<char>,
    resource: Seq<char>,
    subject: Seq<char>,
    window_secs: u64,
    now_ms: u64,
) -> Plan {
    let current = epoch_of(secs_of(now_ms as int), window_secs as int);
    Plan {
        key: window_key_of(prefix, resource, subject, current),
        other: window_key_of(prefix, resource, subject, current - window_secs),
        capacity: capacity_of(limit_per_sec as int, window_secs as int) as u64,
        window: window_secs,
        now_ms,
    }
}

/// Validates the limit and window and sets out at `phase`.
fn begin(
    limit_per_sec: u64,
    key_prefix: &str,
    resource: &str,
    subject: &str,
    window_secs: u64,
    now_ms: u64,
    phase: Phase,
) -> (r: Result<Exchange, LimiterError>)
    ensures
        accepted(
            limit_per_sec,
            window_secs,
            key_prefix@,
            resource@,
            subject@,
        ) ==> r is Ok && r->Ok_0@ == (Progress {
            plan: plan_of(limit_per_sec, key_prefix@, resource@, subject@, window_secs, now_ms),
            stage: Stage::SlidingWindow(phase),
        }),
        !accepted(
            limit_per_sec,
            window_secs,
            key_prefix@,
            resource@,
            subject@,
        ) ==> r is Err && r->Err_0
            == LimiterError::Configuration,
{
    let capacity = match capacity(limit_per_sec, window_secs) {
        Ok(c) => c,
        Err(e) => {
            return Err(e);
        },
    };
    let current = epoch(seconds(now_ms), window_secs);
    let key = match window_key(key_prefix, resource, subject, current) {
        Ok(text) => text,
        Err(e) => {
            return Err(e);
        },
    };
    let other = match previous_window_key(key_prefix, resource, subject, current, window_secs) {
        Ok(text) => text,
        Err(e) => {
            return Err(e);
        },
    };
    let params = Params {
        key,
        other,
        capacity,
        window: window_secs,
        now_ms,
    };
    Ok(Exchange::at(params, Stage::SlidingWindow(phase)))
}

/// Begins a `record`: an attempt to take one unit, judged by the estimate.
///
/// Fails with `Configuration` exactly when the limit and window are not
/// usable or a part of the key holds a `:`; otherwise the exchange starts by
/// reading both counters.
pub fn record(
    limit_per_sec: u64,
    key_prefix: &str,
    resource: &str,
    subject: &str,
    window_secs: u64,
    now_ms: u64,
) -> (r: Result<Exchange, LimiterError>)
    ensures
        accepted(
            limit_per_sec,
            window_secs,
            key_prefix@,
            resource@,
            subject@,
        ) ==> r is Ok && r->Ok_0@ == (Progress {
            plan: plan_of(limit_per_sec, key_prefix@, resource@, subject@, window_secs, now_ms),
            stage: Stage::SlidingWindow(Phase::Read),
        }),
        !accepted(
            limit_per_sec,
            window_secs,
            key_prefix@,
            resource@,
            subject@,
        ) ==> r is Err && r->Err_0
            == LimiterError::Configuration,
        accepted(
            limit_per_sec,
            window_secs,
            key_prefix@,
            resource@,
            subject@,
        ) ==> laws::records(r->Ok_0@),
{
    let begun = begin(
        limit_per_sec,
        key_prefix,
        resource,
        subject,
        window_secs,
        now_ms,
        Phase::Read,
    );
    proof {
        if accepted(limit_per_sec, window_secs, key_prefix@, resource@, subject@) {
            let plan = plan_of(
                limit_per_sec,
                key_prefix@,
                resource@,
                subject@,
                window_secs,
                now_ms,
            );
            let current = epoch_of(secs_of(now_ms as int), window_secs as int);
            crate::keys::windows_have_their_own_keys(
                key_prefix@,
                resource@,
                subject@,
                current,
                current - window_secs,
            );
            assert forall|store: Store| #[trigger]
                begun->Ok_0@.run(store) == laws::recorded(plan, store) by {
                laws::record_effect(plan, store);
            }
        }
    }
    begun
}

/// Begins a `fetch`: a read of the estimate.
pub fn fetch(
    limit_per_sec: u64,
    key_prefix: &str,
    resource: &str,
    subject: &str,
    window_secs: u64,
    now_ms: u64,
) -> (r: Result<Exchange, LimiterError>)
    ensures
        accepted(
            limit_per_sec,
            window_secs,
            key_prefix@,
            resource@,
            subject@,
        ) ==> r is Ok && r->Ok_0@ == (Progress {
            plan: plan_of(limit_per_sec, key_prefix@, resource@, subject@, window_secs, now_ms),
            stage: Stage::SlidingWindow(Phase::Fetch),
        }),
        !accepted(
            limit_per_sec,
            window_secs,
            key_prefix@,
            resource@,
            subject@,
        ) ==> r is Err && r->Err_0
            == LimiterError::Configuration,
        accepted(
            limit_per_sec,
            window_secs,
            key_prefix@,
            resource@,
            subject@,
        ) ==> laws::fetches(r->Ok_0@),
{
    let begun = begin(
        limit_per_sec,
        key_prefix,
        resource,
        subject,
        window_secs,
        now_ms,
        Phase::Fetch,
    );
    proof {
        if accepted(limit_per_sec, window_secs, key_prefix@, resource@, subject@) {
            let plan = plan_of(
                limit_per_sec,
                key_prefix@,
                resource@,
                subject@,
                window_secs,
                now_ms,
            );
            assert forall|store: Store| #[trigger]
                begun->Ok_0@.run(store) == laws::fetched(plan, store) by {
                laws::fetch_effect(plan, store);
            }
        }
    }
    begun
}

/// Bounds of the time left in a window: more than nothing, at most the whole
/// window.
pub proof fn remaining_bounds(now_ms: int, window_secs: int)
    requires
        now_ms >= 0,
        window_secs > 0,
    ensures
        0 < remaining_ms(now_ms, window_secs) <= window_secs * 1000,
        remaining_ms(now_ms, window_secs) == (epoch_of(secs_of(now_ms), window_secs) + window_secs
            - secs_of(now_ms)) * 1000 - now_ms % 1000,
{
    let secs = secs_of(now_ms);
    epoch_bounds(secs, window_secs);
    assert(now_ms == 1000 * secs + now_ms % 1000) by {
        vstd::arithmetic::div_mod::lemma_fundamental_div_mod(now_ms, 1000);
    }
}

/// The weighted share never exceeds the previous count, and is never
/// negative.
pub proof fn weighted_bounds(previous: int, now_ms: int, window_secs: int)
    requires
        previous >= 0,
        now_ms >= 0,
        window_secs > 0,
    ensures
        0 <= weighted(previous, now_ms, window_secs) <= previous,
{
    remaining_bounds(now_ms, window_secs);
    let left = remaining_ms(now_ms, window_secs);
    let span = window_secs * 1000;
    let top = 2 * (previous * left) + span;
    assert(0 <= previous * left <= previous * span) by (nonlinear_arith)
        requires
            previous >= 0,
            0 < left <= span,
    ;
    assert(top < (2 * span) * (previous + 1)) by (nonlinear_arith)
        requires
            top == 2 * (previous * left) + span,
            previous * left <= previous * span,
            span > 0,
    ;
    assert(top / (2 * span) < previous + 1) by {
        vstd::arithmetic::div_mod::lemma_div_by_multiple_is_strongly_ordered(
            top,
            (2 * span) * (previous + 1),
            previous + 1,
            2 * span,
        );
        vstd::arithmetic::div_mod::lemma_div_by_multiple(previous + 1, 2 * span);
    }
    assert(top / (2 * span) >= 0) by {
        vstd::arithmetic::div_mod::lemma_div_pos_is_pos(top, 2 * span);
    }
}

/// The estimated consumption from the two counters.
pub(crate) fn estimate(previous: u64, current: u64, now_ms: u64, window_secs: u64) -> (e: u64)
    requires
        0 < window_secs <= MAX_WINDOW_SECS,
        previous <= i64::MAX,
        current <= i64::MAX,
    ensures
        e == estimate_of(previous as int, current as int, now_ms as int, window_secs as int),
{
    let secs = seconds(now_ms);
    let start = epoch(secs, window_secs);
    proof {
        remaining_bounds(now_ms as int, window_secs as int);
        weighted_bounds(previous as int, now_ms as int, window_secs as int);
    }
    let left: u64 = (start + window_secs - secs) * 1000 - now_ms % 1000;
    let span: u64 = window_secs * 1000;
    assert(previous * left <= 0x7fff_ffff_ffff_ffff * 1_073_741_823_000) by (nonlinear_arith)
        requires
            previous <= 0x7fff_ffff_ffff_ffff,
            left <= 1_073_741_823_000,
    ;
    let scaled: u128 = (previous as u128) * (left as u128);
    let share: u128 = (2 * scaled + span as u128) / (2 * span as u128);
    current + share as u64
}

/// The pipeline of a phase.
pub(crate) fn build(params: &Params, phase: Phase) -> (p: redis::Pipeline)
    requires
        params@.valid(),
    ensures
        carries(p, request(params@, phase)),
{
    let current = params.key.as_str();
    let previous = params.other.as_str();
    match phase {
        Phase::Read | Phase::Fetch => {
            let mut draft = Draft::new(true);
            draft.add(Order::Get { key: previous }, false);
            draft.add(Order::Get { key: current }, false);
            draft.finish()
        },
        Phase::Increment => {
            let mut draft = Draft::new(true);
            draft.add(Order::Increment { key: current, delta: 1 }, false);
            draft.add(Order::Expire { key: current, seconds: (2 * params.window) as usize }, true);
            draft.finish()
        },
    }
}

/// A counter out of a reply's value.
fn read_count(value: Option<i64>) -> (r: Option<u64>)
    ensures
        r == count_of(value),
{
    match value {
        None => Some(0),
        Some(n) => if n < 0 {
            None
        } else {
            Some(n as u64)
        },
    }
}

/// The estimate out of a reply of two counters.
fn read_estimate(params: &Params, values: &Vec<Option<i64>>) -> (r: Option<u64>)
    requires
        params@.valid(),
    ensures
        r == estimate_from(params@, values@),
{
    if values.len() != 2 {
        return None;
    }
    match (read_count(values[0]), read_count(values[1])) {
        (Some(previous), Some(current)) => Some(
            estimate(previous, current, params.now_ms, params.window),
        ),
        _ => None,
    }
}

/// The stage after a phase, from the values the store answered with.
pub(crate) fn respond(params: &Params, phase: Phase, values: &Vec<Option<i64>>) -> (stage: Stage)
    requires
        params@.valid(),
    ensures
        stage == react(params@, phase, values@),
{
    let failed = Stage::Failed(LimiterError::Command);
    match phase {
        Phase::Read => match read_estimate(params, values) {
            Some(estimate) => if estimate >= params.capacity {
                Stage::Done(Outcome::Verdict(false))
            } else {
                Stage::SlidingWindow(Phase::Increment)
            },
            None => failed,
        },
        Phase::Increment => match read_single(values) {
            Some(Some(_)) => Stage::Done(Outcome::Verdict(true)),
            _ => failed,
        },
        Phase::Fetch => match read_estimate(params, values) {
            Some(estimate) => Stage::Done(Outcome::Count(estimate)),
            None => failed,
        },
    }
}

} // verus!
