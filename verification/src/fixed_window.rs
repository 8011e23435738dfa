//! Fixed window: one counter for each window of a subject.
//!
//! A `record` reads the counter of the current window and refuses at once when
//! it has reached the capacity. Otherwise it makes sure the counter exists,
//! increments it and renews its expiration in one atomic batch, and decides by
//! the value the increment returned: where another caller took the last unit in
//! between, the increment is taken back and the call is refused. A full window
//! is thus refused without a write, and no two callers can both take the last
//! unit.

use vstd::prelude::*;
use crate::clock::{capacity, capacity_of, epoch, epoch_of, seconds, secs_of, usable};
use crate::command::{carries, Batch, Command, Draft, Order};
use crate::error::LimiterError;
use crate::exchange::{
    counted, malformed, read_single, single, verdict, Exchange, Outcome, Params, Plan,
    Progress, Stage,
};
use crate::keys::{accepted, window_key, window_key_of};
use crate::store::Store;

pub mod laws;

verus! {

/// The round trip a fixed-window operation waits for.
#[derive(Debug, Clone, Copy, PartialEq, Eq, Structural)]
pub enum Phase {
    /// `record`: the counter is being read.
    Read,
    /// `record`: the absent counter is being created at 0.
    Init,
    /// `record`: the counter is being incremented and its expiration renewed.
    Increment,
    /// `record`: an increment beyond the capacity is being taken back.
    Undo,
    /// `fetch`: the counter is being read.
    Fetch,
}

/// The batch of each phase.
pub open spec fn request(plan: Plan, phase: Phase) -> Batch {
    match phase {
        Phase::Read => Batch::empty(true).with(Command::Get { key: plan.key }, false),
        Phase::Init => Batch::empty(true).with(
            Command::SetIfAbsent { key: plan.key, value: 0 },
            true,
        ),
        Phase::Increment => Batch::empty(true).with(
            Command::Increment { key: plan.key, delta: 1 },
            false,
        ).with(Command::Expire { key: plan.key, seconds: plan.window as int }, true),
        Phase::Undo => Batch::empty(true).with(
            Command::Decrement { key: plan.key, delta: 1 },
            false,
        ),
        Phase::Fetch => Batch::empty(false).with(Command::Get { key: plan.key }, false),
    }
}

/// The stage that follows each phase, by what the store answered.
pub open spec fn react(plan: Plan, phase: Phase, values: Seq<Option<i64>>) -> Stage {
    match phase {
        Phase::Read => match single(values) {
            Some(None) => if plan.capacity == 0 {
                verdict(false)
            } else {
                Stage::FixedWindow(Phase::Init)
            },
            Some(Some(count)) => if count < 0 {
                malformed()
            } else if count >= plan.capacity {
                verdict(false)
            } else {
                Stage::FixedWindow(Phase::Increment)
            },
            None => malformed(),
        },
        Phase::Init => if values.len() == 0 {
            Stage::FixedWindow(Phase::Increment)
        } else {
            malformed()
        },
        Phase::Increment => match single(values) {
            Some(Some(count)) => if count <= plan.capacity {
                verdict(true)
            } else {
                Stage::FixedWindow(Phase::Undo)
            },
            _ => malformed(),
        },
        Phase::Undo => match single(values) {
            Some(Some(_)) => verdict(false),
            _ => malformed(),
        },
        Phase::Fetch => match single(values) {
            Some(None) => counted(0),
            Some(Some(count)) => if count < 0 {
                malformed()
            } else {
                counted(count as u64)
            },
            None => malformed(),
        },
    }
}

/// What a fixed-window operation on a subject at time `now_ms` works with:
/// the counter of the window that holds `now_ms`, and the capacity.
pub open spec fn plan_of(
    limit_per_sec: u64,
    prefix: Seq<char>,
    resource: Seq<char>,
    subject: Seq<char>,
    window_secs: u64,
    now_ms: u64,
) -> Plan {
    Plan {
        key: window_key_of(
            prefix,
            resource,
            subject,
            epoch_of(secs_of(now_ms as int), window_secs as int),
        ),
        other: Seq::empty(),
        capacity: capacity_of(limit_per_sec as int, window_secs as int) as u64,
        window: window_secs,
        now_ms,
    }
}

/// Validates the limit and window and sets out at `phase`.
fn begin(
    limit_per_sec: u64,
    key_prefix: &str,
    resource: &str,
    subject: &str,
    window_secs: u64,
    now_ms: u64,
    phase: Phase,
) -> (r: Result<Exchange, LimiterError>)
    ensures
        accepted(
            limit_per_sec,
            window_secs,
            key_prefix@,
            resource@,
            subject@,
        ) ==> r is Ok && r->Ok_0@ == (Progress {
            plan: plan_of(limit_per_sec, key_prefix@, resource@, subject@, window_secs, now_ms),
            stage: Stage::FixedWindow(phase),
        }),
        !accepted(
            limit_per_sec,
            window_secs,
            key_prefix@,
            resource@,
            subject@,
        ) ==> r is Err && r->Err_0
            == LimiterError::Configuration,
{
    let capacity = match capacity(limit_per_sec, window_secs) {
        Ok(c) => c,
        Err(e) => {
            return Err(e);
        },
    };
    let start_secs = epoch(seconds(now_ms), window_secs);
    let key = match window_key(key_prefix, resource, subject, start_secs) {
        Ok(text) => text,
        Err(e) => {
            return Err(e);
        },
    };
    let params = Params {
        key,
        other: String::new(),
        capacity,
        window: window_secs,
        now_ms,
    };
    Ok(Exchange::at(params, Stage::FixedWindow(phase)))
}

/// Begins a `record`: an attempt to take one unit in the current window.
///
/// Fails with `Configuration` exactly when the limit and window are not
/// usable or a part of the key holds a `:`; otherwise the exchange starts by
/// reading the window's counter.
pub fn record(
    limit_per_sec: u64,
    key_prefix: &str,
    resource: &str,
    subject: &str,
    window_secs: u64,
    now_ms: u64,
) -> (r: Result<Exchange, LimiterError>)
    ensures
        accepted(
            limit_per_sec,
            window_secs,
            key_prefix@,
            resource@,
            subject@,
        ) ==> r is Ok && r->Ok_0@ == (Progress {
            plan: plan_of(limit_per_sec, key_prefix@, resource@, subject@, window_secs, now_ms),
            stage: Stage::FixedWindow(Phase::Read),
        }),
        !accepted(
            limit_per_sec,
            window_secs,
            key_prefix@,
            resource@,
            subject@,
        ) ==> r is Err && r->Err_0
            == LimiterError::Configuration,
        accepted(
            limit_per_sec,
            window_secs,
            key_prefix@,
            resource@,
            subject@,
        ) ==> laws::records(r->Ok_0@),
{
    let begun = begin(
        limit_per_sec,
        key_prefix,
        resource,
        subject,
        window_secs,
        now_ms,
        Phase::Read,
    );
    proof {
        if accepted(limit_per_sec, window_secs, key_prefix@, resource@, subject@) {
            let plan = plan_of(
                limit_per_sec,
                key_prefix@,
                resource@,
                subject@,
                window_secs,
                now_ms,
            );
            assert forall|store: Store| #[trigger]
                begun->Ok_0@.run(store) == laws::recorded(plan, store) by {
                laws::record_effect(plan, store);
            }
        }
    }
    begun
}

/// Begins a `fetch`: a read of the current window's count.
pub fn fetch(
    limit_per_sec: u64,
    key_prefix: &str,
    resource: &str,
    subject: &str,
    window_secs: u64,
    now_ms: u64,
) -> (r: Result<Exchange, LimiterError>)
    ensures
        accepted(
            limit_per_sec,
            window_secs,
            key_prefix@,
            resource@,
            subject@,
        ) ==> r is Ok && r->Ok_0@ == (Progress {
            plan: plan_of(limit_per_sec, key_prefix@, resource@, subject@, window_secs, now_ms),
            stage: Stage::FixedWindow(Phase::Fetch),
        }),
        !accepted(
            limit_per_sec,
            window_secs,
            key_prefix@,
            resource@,
            subject@,
        ) ==> r is Err && r->Err_0
            == LimiterError::Configuration,
        accepted(
            limit_per_sec,
            window_secs,
            key_prefix@,
            resource@,
            subject@,
        ) ==> laws::fetches(r->Ok_0@),
{
    let begun = begin(
        limit_per_sec,
        key_prefix,
        resource,
        subject,
        window_secs,
        now_ms,
        Phase::Fetch,
    );
    proof {
        if accepted(limit_per_sec, window_secs, key_prefix@, resource@, subject@) {
            let plan = plan_of(
                limit_per_sec,
                key_prefix@,
                resource@,
                subject@,
                window_secs,
                now_ms,
            );
            assert forall|store: Store| #[trigger]
                begun->Ok_0@.run(store) == laws::fetched(plan, store) by {
                laws::fetch_effect(plan, store);
            }
        }
    }
    begun
}

/// The pipeline of a phase.
pub(crate) fn build(params: &Params, phase: Phase) -> (p: redis::Pipeline)
    requires
        params@.valid(),
    ensures
        carries(p, request(params@, phase)),
{
    let key = params.key.as_str();
    match phase {
        Phase::Read => {
            let mut draft = Draft::new(true);
            draft.add(Order::Get { key }, false);
            draft.finish()
        },
        Phase::Init => {
            let mut draft = Draft::new(true);
            draft.add(Order::SetIfAbsent { key, value: 0 }, true);
            draft.finish()
        },
        Phase::Increment => {
            let mut draft = Draft::new(true);
            draft.add(Order::Increment { key, delta: 1 }, false);
            draft.add(Order::Expire { key, seconds: params.window as usize }, true);
            draft.finish()
        },
        Phase::Undo => {
            let mut draft = Draft::new(true);
            draft.add(Order::Decrement { key, delta: 1 }, false);
            draft.finish()
        },
        Phase::Fetch => {
            let mut draft = Draft::new(false);
            draft.add(Order::Get { key }, false);
            draft.finish()
        },
    }
}

/// The stage after a phase, from the values the store answered with.
pub(crate) fn respond(params: &Params, phase: Phase, values: &Vec<Option<i64>>) -> (stage: Stage)
    ensures
        stage == react(params@, phase, values@),
{
    let failed = Stage::Failed(LimiterError::Command);
    match phase {
        Phase::Read => match read_single(values) {
            Some(None) => if params.capacity == 0 {
                Stage::Done(Outcome::Verdict(false))
            } else {
                Stage::FixedWindow(Phase::Init)
            },
            Some(Some(count)) => if count < 0 {
                failed
            } else if count as u64 >= params.capacity {
                Stage::Done(Outcome::Verdict(false))
            } else {
                Stage::FixedWindow(Phase::Increment)
            },
            None => failed,
        },
        Phase::Init => if values.len() == 0 {
            Stage::FixedWindow(Phase::Increment)
        } else {
            failed
        },
        Phase::Increment => match read_single(values) {
            Some(Some(count)) => if count < 0 || count as u64 <= params.capacity {
                Stage::Done(Outcome::Verdict(true))
            } else {
                Stage::FixedWindow(Phase::Undo)
            },
            _ => failed,
        },
        Phase::Undo => match read_single(values) {
            Some(Some(_)) => Stage::Done(Outcome::Verdict(false)),
            _ => failed,
        },
        Phase::Fetch => match read_single(values) {
            Some(None) => Stage::Done(Outcome::Count(0)),
            Some(Some(count)) => if count < 0 {
                failed
            } else {
                Stage::Done(Outcome::Count(count as u64))
            },
            None => failed,
        },
    }
}

} // verus!
