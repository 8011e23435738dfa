//! Sliding log: a ledger of the times of the admitted calls.
//!
//! The ledger is a sorted set whose members and scores are both the call's
//! time in milliseconds. A `record` counts the ledger and refuses when it holds
//! as many entries as the capacity; otherwise it removes the entries older than
//! one window, adds its own time and renews the ledger's expiration, as one
//! atomic batch. A `fetch` only counts: entries that have grown old since the
//! last admitted `record` are still reported until the next one.
//!
//! The count and the write are two round trips. Callers whose counts fall
//! between another caller's count and its write can together add more
//! entries than the capacity; with one caller at a time the capacity holds.

use vstd::prelude::*;
use crate::clock::{capacity, capacity_of, usable};
use crate::command::{carries, Batch, Command, Draft, Order};
use crate::error::LimiterError;
use crate::exchange::{
    counted, malformed, read_single, single, verdict, Exchange, Outcome, Params, Plan,
    Progress, Stage,
};
use crate::keys::{accepted, nameable, subject_key, subject_key_of};
use crate::store::Store;

pub mod laws;

verus! {

/// The round trip a sliding-log operation waits for.
#[derive(Debug, Clone, Copy, PartialEq, Eq, Structural)]
pub enum Phase {
    /// `record`: the ledger is being counted.
    Count,
    /// `record`: old entries are being removed and the new one added.
    Insert,
    /// `fetch`: the ledger is being counted.
    Fetch,
}

/// The score below which a `record` at `now_ms` removes entries: one window
/// before now, or 0 where the window reaches back before the clock's zero.
pub open spec fn cutoff_of(now_ms: int, window_secs: int) -> int {
    if now_ms >= window_secs * 1000 {
        now_ms - window_secs * 1000
    } else {
        0
    }
}

/// The batch of each phase.
pub open spec fn request(plan: Plan, phase: Phase) -> Batch {
    match phase {
        Phase::Count | Phase::Fetch => Batch::empty(false).with(
            Command::Cardinality { key: plan.key },
            false,
        ),
        Phase::Insert => Batch::empty(true).with(
            Command::RemoveBelow {
                key: plan.key,
                bound: cutoff_of(plan.now_ms as int, plan.window as int),
            },
            true,
        ).with(
            Command::Add { key: plan.key, score: plan.now_ms as int, member: plan.now_ms as int },
            true,
        ).with(Command::Expire { key: plan.key, seconds: plan.window as int }, true),
    }
}

/// The stage that follows each phase, by what the store answered.
pub open spec fn react(plan: Plan, phase: Phase, values: Seq<Option<i64>>) -> Stage {
    match phase {
        Phase::Count => match single(values) {
            Some(Some(count)) => if count < 0 {
                malformed()
            } else if count >= plan.capacity {
                verdict(false)
            } else {
                Stage::SlidingLog(Phase::Insert)
            },
            _ => malformed(),
        },
        Phase::Insert => if values.len() == 0 {
            verdict(true)
        } else {
            malformed()
        },
        Phase::Fetch => match single(values) {
            Some(Some(count)) => if count < 0 {
                malformed()
            } else {
                counted(count as u64)
            },
            _ => malformed(),
        },
    }
}

/// What a `record` on a subject at time `now_ms` works with: the subject's
/// ledger and the capacity.
pub open spec fn plan_of(
    limit_per_sec: u64,
    prefix: Seq<char>,
    resource: Seq<char>,
    subject: Seq<char>,
    window_secs: u64,
    now_ms: u64,
) -> Plan {
    Plan {
        key: subject_key_of(prefix, resource, subject),
        other: Seq::empty(),
        capacity: capacity_of(limit_per_sec as int, window_secs as int) as u64,
        window: window_secs,
        now_ms,
    }
}

/// What a `fetch` works with: the subject's ledger. A fetch has no use for a
/// capacity or a window; its plan carries 0 and one second in their places.
pub open spec fn fetch_plan_of(
    prefix: Seq<char>,
    resource: Seq<char>,
    subject: Seq<char>,
    now_ms: u64,
) -> Plan {
    Plan {
        key: subject_key_of(prefix, resource, subject),
        other: Seq::empty(),
        capacity: 0,
        window: 1,
        now_ms,
    }
}

/// Begins a `record`: an attempt to add one entry to the ledger.
///
/// Fails with `Configuration` exactly when the limit and window are not
/// usable or a part of the key holds a `:`; otherwise the exchange starts by
/// counting the ledger.
pub fn record(
    limit_per_sec: u64,
    key_prefix: &str,
    resource: &str,
    subject: &str,
    window_secs: u64,
    now_ms: u64,
) -> (r: Result<Exchange, LimiterError>)
    ensures
        accepted(
            limit_per_sec,
            window_secs,
            key_prefix@,
            resource@,
            subject@,
        ) ==> r is Ok && r->Ok_0@ == (Progress {
            plan: plan_of(limit_per_sec, key_prefix@, resource@, subject@, window_secs, now_ms),
            stage: Stage::SlidingLog(Phase::Count),
        }),
        !accepted(
            limit_per_sec,
            window_secs,
            key_prefix@,
            resource@,
            subject@,
        ) ==> r is Err && r->Err_0
            == LimiterError::Configuration,
        accepted(
            limit_per_sec,
            window_secs,
            key_prefix@,
            resource@,
            subject@,
        ) ==> laws::records(r->Ok_0@),
{
    let capacity = match capacity(limit_per_sec, window_secs) {
        Ok(c) => c,
        Err(e) => {
            return Err(e);
        },
    };
    let key = match subject_key(key_prefix, resource, subject) {
        Ok(text) => text,
        Err(e) => {
            return Err(e);
        },
    };
    let params = Params { key, other: String::new(), capacity, window: window_secs, now_ms };
    let begun = Ok(Exchange::at(params, Stage::SlidingLog(Phase::Count)));
    proof {
        if accepted(limit_per_sec, window_secs, key_prefix@, resource@, subject@) {
            let plan = plan_of(
                limit_per_sec,
                key_prefix@,
                resource@,
                subject@,
                window_secs,
                now_ms,
            );
            assert forall|store: Store| store.well_formed() implies #[trigger] begun->Ok_0@.run(
                store,
            ) == laws::recorded(plan, store) by {
                laws::record_effect(plan, store);
            }
        }
    }
    begun
}

/// Begins a `fetch`: a count of the ledger as it stands. It needs no window;
/// it fails with `Configuration` exactly where a part of the key holds a `:`.
pub fn fetch(key_prefix: &str, resource: &str, subject: &str, now_ms: u64) -> (r: Result<
    Exchange,
    LimiterError,
>)
    ensures
        nameable(key_prefix@, resource@, subject@) ==> r is Ok && r->Ok_0@ == (Progress {
            plan: fetch_plan_of(key_prefix@, resource@, subject@, now_ms),
            stage: Stage::SlidingLog(Phase::Fetch),
        }),
        !nameable(key_prefix@, resource@, subject@) ==> r is Err && r->Err_0
            == LimiterError::Configuration,
        nameable(key_prefix@, resource@, subject@) ==> laws::fetches(r->Ok_0@),
{
    let key = match subject_key(key_prefix, resource, subject) {
        Ok(text) => text,
        Err(e) => {
            return Err(e);
        },
    };
    let params = Params { key, other: String::new(), capacity: 0, window: 1, now_ms };
    let begun = Exchange::at(params, Stage::SlidingLog(Phase::Fetch));
    proof {
        let plan = fetch_plan_of(key_prefix@, resource@, subject@, now_ms);
        assert forall|store: Store| #[trigger] begun@.run(store) == laws::fetched(plan, store) by {
            laws::fetch_effect(plan, store);
        }
    }
    Ok(begun)
}

/// The pipeline of a phase.
pub(crate) fn build(params: &Params, phase: Phase) -> (p: redis::Pipeline)
    requires
        params@.valid(),
    ensures
        carries(p, request(params@, phase)),
{
    let key = params.key.as_str();
    match phase {
        Phase::Count | Phase::Fetch => {
            let mut draft = Draft::new(false);
            draft.add(Order::Cardinality { key }, false);
            draft.finish()
        },
        Phase::Insert => {
            let span = params.window * 1000;
            let bound = if params.now_ms >= span {
                params.now_ms - span
            } else {
                0
            };
            let mut draft = Draft::new(true);
            draft.add(Order::RemoveBelow { key, bound }, true);
            draft.add(Order::Add { key, score: params.now_ms, member: params.now_ms }, true);
            draft.add(Order::Expire { key, seconds: params.window as usize }, true);
            draft.finish()
        },
    }
}

/// The stage after a phase, from the values the store answered with.
pub(crate) fn respond(params: &Params, phase: Phase, values: &Vec<Option<i64>>) -> (stage: Stage)
    ensures
        stage == react(params@, phase, values@),
{
    let failed = Stage::Failed(LimiterError::Command);
    match phase {
        Phase::Count => match read_single(values) {
            Some(Some(count)) => if count < 0 {
                failed
            } else if count as u64 >= params.capacity {
                Stage::Done(Outcome::Verdict(false))
            } else {
                Stage::SlidingLog(Phase::Insert)
            },
            _ => failed,
        },
        Phase::Insert => if values.len() == 0 {
            Stage::Done(Outcome::Verdict(true))
        } else {
            failed
        },
        Phase::Fetch => match read_single(values) {
            Some(Some(count)) => if count < 0 {
                failed
            } else {
                Stage::Done(Outcome::Count(count as u64))
            },
            _ => failed,
        },
    }
}

} // verus!
