//! Leaky bucket: a queue of arrival markers, drained by a separate leak step.
//!
//! A `record` refuses when the queue is as long as the capacity and otherwise
//! appends the arrival time, in seconds. The queue only gets shorter when
//! `consume` runs: it keeps the markers of the current window and drops the
//! others. Markers are appended in the order of time, so those of one window
//! lie together: the leak reads the queue, finds where the current window's
//! markers begin and end, and trims the queue to that run. A queue whose
//! markers of the current window do not lie together is not one this library
//! writes; the leak leaves it alone and fails. A trim that reaches the tail is
//! sent as one up to the tail, so that markers appended between the reading
//! and the trim are kept. The leak is meant to be run by one caller for each
//! queue: two leak steps at once would each trim by what it read.
//!
//! The read of the length and the push are two round trips. Callers whose
//! reads fall between another caller's read and its push can together make
//! the queue longer than the capacity; with one caller at a time the capacity
//! holds.

use vstd::prelude::*;
use crate::clock::{capacity, capacity_of, epoch, epoch_of, seconds, secs_of, usable};
use crate::command::{carries, Batch, Command, Draft, Order};
use crate::error::LimiterError;
use crate::exchange::{
    counted, malformed, read_single, single, verdict, Exchange, Outcome, Params, Plan,
    Progress, Stage,
};
use crate::keys::{accepted, subject_key, subject_key_of};
use crate::store::Store;

pub mod laws;

verus! {

/// The round trip a leaky-bucket operation waits for.
#[derive(Debug, Clone, Copy, PartialEq, Eq, Structural)]
pub enum Phase {
    /// `record`: the queue's length is being read.
    Length,
    /// `record`: the marker is being appended.
    Push,
    /// `fetch`: the queue's length is being read.
    Fetch,
    /// `consume`: the queue is being read.
    Scan,
    /// `consume`: the queue is being trimmed to the positions `start` to
    /// `stop`, both included; a negative position counts from the tail.
    Trim { start: i64, stop: i64 },
}

/// The first second of the window a leak step keeps: the current epoch.
pub open spec fn trim_start(plan: Plan) -> int {
    epoch_of(secs_of(plan.now_ms as int), plan.window as int)
}

/// The first second past the window a leak step keeps: the next epoch.
pub open spec fn trim_stop(plan: Plan) -> int {
    trim_start(plan) + plan.window
}

/// A marker as read from the queue lies in the window from `lo` up to, but
/// not including, `hi`.
pub open spec fn inside(value: Option<i64>, lo: int, hi: int) -> bool {
    value is Some && lo <= value->0 < hi
}

/// Every element that was read is a number.
pub open spec fn readable(values: Seq<Option<i64>>) -> bool {
    forall|i: int| 0 <= i < values.len() ==> (#[trigger] values[i]) is Some
}

/// The markers of the window are exactly those at the positions `from` to
/// `to`.
pub open spec fn is_run(values: Seq<Option<i64>>, lo: int, hi: int, from: int, to: int) -> bool {
    &&& 0 <= from <= to < values.len()
    &&& forall|i: int|
        0 <= i < values.len() ==> (inside(#[trigger] values[i], lo, hi) <==> from <= i <= to)
}

/// No marker lies in the window.
pub open spec fn none_inside(values: Seq<Option<i64>>, lo: int, hi: int) -> bool {
    forall|i: int| 0 <= i < values.len() ==> !inside(#[trigger] values[i], lo, hi)
}

/// The markers of the window lie together, with no other marker between two
/// of them.
pub open spec fn gathered(values: Seq<Option<i64>>, lo: int, hi: int) -> bool {
    none_inside(values, lo, hi) || exists|from: int, to: int| is_run(values, lo, hi, from, to)
}

/// The run of the window's markers, where there is one.
pub open spec fn run_of(values: Seq<Option<i64>>, lo: int, hi: int) -> (int, int) {
    choose|from: int, to: int| is_run(values, lo, hi, from, to)
}

/// A queue has one run of the window's markers at most.
pub proof fn run_is_unique(
    values: Seq<Option<i64>>,
    lo: int,
    hi: int,
    from: int,
    to: int,
    from2: int,
    to2: int,
)
    requires
        is_run(values, lo, hi, from, to),
        is_run(values, lo, hi, from2, to2),
    ensures
        from == from2,
        to == to2,
{
    assert(inside(values[from], lo, hi));
    assert(inside(values[to], lo, hi));
    assert(inside(values[from2], lo, hi));
    assert(inside(values[to2], lo, hi));
}

/// The stage that follows the reading of the queue: a trim to the run of the
/// window's markers, up to the tail where the run ends there; a trim that
/// empties the queue where no marker lies in the window; a failure where an
/// element is no number, the markers of the window do not lie together, or
/// the queue is longer than a position can say on this machine.
pub open spec fn after_scan(plan: Plan, values: Seq<Option<i64>>) -> Stage {
    let lo = trim_start(plan);
    let hi = trim_stop(plan);
    if !readable(values) || values.len() > isize::MAX || values.len() > i64::MAX {
        malformed()
    } else if none_inside(values, lo, hi) {
        Stage::LeakyBucket(Phase::Trim { start: 1, stop: 0 })
    } else if exists|from: int, to: int| is_run(values, lo, hi, from, to) {
        let (from, to) = run_of(values, lo, hi);
        Stage::LeakyBucket(
            Phase::Trim {
                start: from as i64,
                stop: if to == values.len() - 1 {
                    -1i64
                } else {
                    to as i64
                },
            },
        )
    } else {
        malformed()
    }
}

/// The batch of each phase.
pub open spec fn request(plan: Plan, phase: Phase) -> Batch {
    match phase {
        Phase::Length | Phase::Fetch => Batch::empty(true).with(
            Command::Length { key: plan.key },
            false,
        ),
        Phase::Push => Batch::empty(true).with(
            Command::PushTail { key: plan.key, value: secs_of(plan.now_ms as int) },
            false,
        ).with(Command::Expire { key: plan.key, seconds: plan.window as int }, true),
        Phase::Scan => Batch::empty(false).with(Command::Items { key: plan.key }, false),
        Phase::Trim { start, stop } => Batch::empty(false).with(
            Command::Trim { key: plan.key, start: start as int, stop: stop as int },
            true,
        ),
    }
}

/// A queue length as read from the store: nil counts as 0, a negative number
/// is no length.
pub open spec fn length_of(values: Seq<Option<i64>>) -> Option<u64> {
    match single(values) {
        Some(None) => Some(0u64),
        Some(Some(n)) => if n < 0 {
            None
        } else {
            Some(n as u64)
        },
        None => None,
    }
}

/// The stage that follows each phase, by what the store answered.
pub open spec fn react(plan: Plan, phase: Phase, values: Seq<Option<i64>>) -> Stage {
    match phase {
        Phase::Length => match length_of(values) {
            Some(length) => if length >= plan.capacity {
                verdict(false)
            } else {
                Stage::LeakyBucket(Phase::Push)
            },
            None => malformed(),
        },
        Phase::Push => match single(values) {
            Some(Some(_)) => verdict(true),
            _ => malformed(),
        },
        Phase::Fetch => match length_of(values) {
            Some(length) => counted(length),
            None => malformed(),
        },
        Phase::Scan => after_scan(plan, values),
        Phase::Trim { .. } => if values.len() == 0 {
            Stage::Done(Outcome::Drained)
        } else {
            malformed()
        },
    }
}

/// What a leaky-bucket operation on a subject at time `now_ms` works with:
/// the subject's queue and the capacity.
pub open spec fn plan_of(
    limit_per_sec: u64,
    prefix: Seq<char>,
    resource: Seq<char>,
    subject: Seq<char>,
    window_secs: u64,
    now_ms: u64,
) -> Plan {
    Plan {
        key: subject_key_of(prefix, resource, subject),
        other: Seq::empty(),
        capacity: capacity_of(limit_per_sec as int, window_secs as int) as u64,
        window: window_secs,
        now_ms,
    }
}

/// Validates the limit and window and names the queue.
fn prepare(
    limit_per_sec: u64,
    key_prefix: &str,
    resource: &str,
    subject: &str,
    window_secs: u64,
    now_ms: u64,
) -> (r: Result<Params, LimiterError>)
    ensures
        accepted(
            limit_per_sec,
            window_secs,
            key_prefix@,
            resource@,
            subject@,
        ) ==> r is Ok && r->Ok_0@ == plan_of(
            limit_per_sec,
            key_prefix@,
            resource@,
            subject@,
            window_secs,
            now_ms,
        ),
        !accepted(
            limit_per_sec,
            window_secs,
            key_prefix@,
            resource@,
            subject@,
        ) ==> r is Err && r->Err_0
            == LimiterError::Configuration,
{
    let capacity = match capacity(limit_per_sec, window_secs) {
        Ok(c) => c,
        Err(e) => {
            return Err(e);
        },
    };
    let key = match subject_key(key_prefix, resource, subject) {
        Ok(text) => text,
        Err(e) => {
            return Err(e);
        },
    };
    Ok(
        Params {
            key,
            other: String::new(),
            capacity,
            window: window_secs,
            now_ms,
        },
    )
}

/// Begins a `record`: an attempt to append one marker to the queue.
///
/// Fails with `Configuration` exactly when the limit and window are not
/// usable or a part of the key holds a `:`; otherwise the exchange starts by
/// reading the queue's length.
pub fn record(
    limit_per_sec: u64,
    key_prefix: &str,
    resource: &str,
    subject: &str,
    window_secs: u64,
    now_ms: u64,
) -> (r: Result<Exchange, LimiterError>)
    ensures
        accepted(
            limit_per_sec,
            window_secs,
            key_prefix@,
            resource@,
            subject@,
        ) ==> r is Ok && r->Ok_0@ == (Progress {
            plan: plan_of(limit_per_sec, key_prefix@, resource@, subject@, window_secs, now_ms),
            stage: Stage::LeakyBucket(Phase::Length),
        }),
        !accepted(
            limit_per_sec,
            window_secs,
            key_prefix@,
            resource@,
            subject@,
        ) ==> r is Err && r->Err_0
            == LimiterError::Configuration,
        accepted(
            limit_per_sec,
            window_secs,
            key_prefix@,
            resource@,
            subject@,
        ) ==> laws::records(r->Ok_0@),
{
    let begun = match prepare(limit_per_sec, key_prefix, resource, subject, window_secs, now_ms) {
        Ok(params) => Ok(Exchange::at(params, Stage::LeakyBucket(Phase::Length))),
        Err(e) => Err(e),
    };
    proof {
        if accepted(limit_per_sec, window_secs, key_prefix@, resource@, subject@) {
            let plan = plan_of(
                limit_per_sec,
                key_prefix@,
                resource@,
                subject@,
                window_secs,
                now_ms,
            );
            assert forall|store: Store| #[trigger]
                begun->Ok_0@.run(store) == laws::recorded(plan, store) by {
                laws::record_effect(plan, store);
            }
        }
    }
    begun
}

/// Begins a `fetch`: a read of the queue's length.
pub fn fetch(
    limit_per_sec: u64,
    key_prefix: &str,
    resource: &str,
    subject: &str,
    window_secs: u64,
    now_ms: u64,
) -> (r: Result<Exchange, LimiterError>)
    ensures
        accepted(
            limit_per_sec,
            window_secs,
            key_prefix@,
            resource@,
            subject@,
        ) ==> r is Ok && r->Ok_0@ == (Progress {
            plan: plan_of(limit_per_sec, key_prefix@, resource@, subject@, window_secs, now_ms),
            stage: Stage::LeakyBucket(Phase::Fetch),
        }),
        !accepted(
            limit_per_sec,
            window_secs,
            key_prefix@,
            resource@,
            subject@,
        ) ==> r is Err && r->Err_0
            == LimiterError::Configuration,
        accepted(
            limit_per_sec,
            window_secs,
            key_prefix@,
            resource@,
            subject@,
        ) ==> laws::fetches(r->Ok_0@),
{
    let begun = match prepare(limit_per_sec, key_prefix, resource, subject, window_secs, now_ms) {
        Ok(params) => Ok(Exchange::at(params, Stage::LeakyBucket(Phase::Fetch))),
        Err(e) => Err(e),
    };
    proof {
        if accepted(limit_per_sec, window_secs, key_prefix@, resource@, subject@) {
            let plan = plan_of(
                limit_per_sec,
                key_prefix@,
                resource@,
                subject@,
                window_secs,
                now_ms,
            );
            assert forall|store: Store| #[trigger]
                begun->Ok_0@.run(store) == laws::fetched(plan, store) by {
                laws::fetch_effect(plan, store);
            }
        }
    }
    begun
}

/// Begins a leak step: the markers of the window that holds `now_ms` are kept
/// and the others dropped.
///
/// Fails with `Configuration` exactly when the limit and window are not
/// usable or a part of the key holds a `:`; otherwise the exchange starts by
/// reading the queue.
pub fn consume(
    limit_per_sec: u64,
    key_prefix: &str,
    resource: &str,
    subject: &str,
    window_secs: u64,
    now_ms: u64,
) -> (r: Result<Exchange, LimiterError>)
    ensures
        accepted(
            limit_per_sec,
            window_secs,
            key_prefix@,
            resource@,
            subject@,
        ) ==> r is Ok && r->Ok_0@ == (Progress {
            plan: plan_of(limit_per_sec, key_prefix@, resource@, subject@, window_secs, now_ms),
            stage: Stage::LeakyBucket(Phase::Scan),
        }),
        !accepted(
            limit_per_sec,
            window_secs,
            key_prefix@,
            resource@,
            subject@,
        ) ==> r is Err && r->Err_0
            == LimiterError::Configuration,
        accepted(
            limit_per_sec,
            window_secs,
            key_prefix@,
            resource@,
            subject@,
        ) ==> laws::consumes(r->Ok_0@),
{
    let begun = match prepare(limit_per_sec, key_prefix, resource, subject, window_secs, now_ms) {
        Ok(params) => Ok(Exchange::at(params, Stage::LeakyBucket(Phase::Scan))),
        Err(e) => Err(e),
    };
    proof {
        if begun is Ok {
            let plan = plan_of(
                limit_per_sec,
                key_prefix@,
                resource@,
                subject@,
                window_secs,
                now_ms,
            );
            assert forall|store: Store| #[trigger]
                begun->Ok_0@.run(store) == laws::consumed(plan, store) by {
                laws::consume_effect(plan, store);
            }
        }
    }
    begun
}

/// The positions of a trim can be passed to the store on this machine.
pub open spec fn positions_fit(phase: Phase) -> bool {
    match phase {
        Phase::Trim { start, stop } => isize::MIN <= start <= isize::MAX && isize::MIN <= stop
            <= isize::MAX,
        _ => true,
    }
}

/// The pipeline of a phase.
pub(crate) fn build(params: &Params, phase: Phase) -> (p: redis::Pipeline)
    requires
        params@.valid(),
        positions_fit(phase),
    ensures
        carries(p, request(params@, phase)),
{
    let key = params.key.as_str();
    match phase {
        Phase::Length | Phase::Fetch => {
            let mut draft = Draft::new(true);
            draft.add(Order::Length { key }, false);
            draft.finish()
        },
        Phase::Push => {
            let mut draft = Draft::new(true);
            draft.add(Order::PushTail { key, value: seconds(params.now_ms) }, false);
            draft.add(Order::Expire { key, seconds: params.window as usize }, true);
            draft.finish()
        },
        Phase::Scan => {
            let mut draft = Draft::new(false);
            draft.add(Order::Items { key }, false);
            draft.finish()
        },
        Phase::Trim { start, stop } => {
            let mut draft = Draft::new(false);
            draft.add(Order::Trim { key, start: start as isize, stop: stop as isize }, true);
            draft.finish()
        },
    }
}

/// A queue length out of a reply.
fn read_length(values: &Vec<Option<i64>>) -> (r: Option<u64>)
    ensures
        r == length_of(values@),
{
    match read_single(values) {
        Some(None) => Some(0),
        Some(Some(n)) => if n < 0 {
            None
        } else {
            Some(n as u64)
        },
        None => None,
    }
}

/// Whether a marker lies in the window from `lo` up to, but not including,
/// `hi`.
fn is_inside(value: Option<i64>, lo: u64, hi: u64) -> (r: bool)
    ensures
        r == inside(value, lo as int, hi as int),
{
    match value {
        Some(marker) => marker >= 0 && lo <= marker as u64 && (marker as u64) < hi,
        None => false,
    }
}

/// What a reading of the queue shows of the window's markers.
pub(crate) enum Found {
    /// An element is no number.
    Unreadable,
    /// No marker lies in the window.
    Nothing,
    /// The markers of the window are those from `from` to `to`.
    Run { from: usize, to: usize },
    /// The markers of the window do not lie together.
    Scattered,
}

/// Finds the run of the window's markers in a queue that was read.
pub(crate) fn find_run(values: &Vec<Option<i64>>, lo: u64, hi: u64) -> (found: Found)
    ensures
        match found {
            Found::Unreadable => !readable(values@),
            Found::Nothing => readable(values@) && none_inside(values@, lo as int, hi as int),
            Found::Run { from, to } => readable(values@) && is_run(
                values@,
                lo as int,
                hi as int,
                from as int,
                to as int,
            ),
            Found::Scattered => readable(values@) && !gathered(values@, lo as int, hi as int),
        },
{
    let mut first: Option<usize> = None;
    let mut last: usize = 0;
    let mut solid = true;
    let ghost mut gap: int = 0;
    let mut i: usize = 0;
    while i < values.len()
        invariant
            i <= values.len(),
            forall|j: int| 0 <= j < i ==> (#[trigger] values@[j]) is Some,
            first is None ==> forall|j: int|
                0 <= j < i ==> !inside(#[trigger] values@[j], lo as int, hi as int),
            first is Some ==> {
                &&& first->0 <= last < i
                &&& inside(values@[first->0 as int], lo as int, hi as int)
                &&& inside(values@[last as int], lo as int, hi as int)
                &&& forall|j: int|
                    0 <= j < i && inside(#[trigger] values@[j], lo as int, hi as int) ==> first->0
                        <= j <= last
            },
            first is Some && solid ==> forall|j: int|
                first->0 <= j <= last ==> inside(#[trigger] values@[j], lo as int, hi as int),
            !solid ==> first is Some && first->0 < gap < last && !inside(
                values@[gap],
                lo as int,
                hi as int,
            ),
        decreases values.len() - i,
    {
        let value = values[i];
        if value.is_none() {
            return Found::Unreadable;
        }
        if is_inside(value, lo, hi) {
            match first {
                None => {
                    first = Some(i);
                },
                Some(_) => {
                    if last + 1 != i {
                        proof {
                            if solid {
                                gap = last + 1;
                            }
                        }
                        solid = false;
                    }
                },
            }
            last = i;
        }
        i += 1;
    }
    match first {
        None => Found::Nothing,
        Some(from) => if solid {
            Found::Run { from, to: last }
        } else {
            proof {
                assert(inside(values@[from as int], lo as int, hi as int));
                assert forall|a: int, b: int| !is_run(values@, lo as int, hi as int, a, b) by {
                    if is_run(values@, lo as int, hi as int, a, b) {
                        assert(a <= from <= b);
                        assert(a <= last <= b);
                        assert(inside(values@[gap], lo as int, hi as int));
                    }
                }
            }
            Found::Scattered
        },
    }
}

/// The stage after the queue was read.
fn respond_scan(params: &Params, values: &Vec<Option<i64>>) -> (stage: Stage)
    requires
        params@.valid(),
    ensures
        stage == after_scan(params@, values@),
        stage matches Stage::LeakyBucket(phase) ==> positions_fit(phase),
{
    let failed = Stage::Failed(LimiterError::Command);
    if values.len() > isize::MAX as usize || values.len() as u64 > i64::MAX as u64 {
        return failed;
    }
    let lo = epoch(seconds(params.now_ms), params.window);
    let hi = lo + params.window;
    match find_run(values, lo, hi) {
        Found::Unreadable | Found::Scattered => {
            proof {
                if readable(values@) {
                    assert(values.len() > 0);
                }
            }
            failed
        },
        Found::Nothing => Stage::LeakyBucket(Phase::Trim { start: 1, stop: 0 }),
        Found::Run { from, to } => {
            proof {
                let (a, b) = run_of(values@, lo as int, hi as int);
                assert(is_run(values@, lo as int, hi as int, from as int, to as int));
                assert(is_run(values@, lo as int, hi as int, a, b));
                run_is_unique(values@, lo as int, hi as int, from as int, to as int, a, b);
                assert(inside(values@[from as int], lo as int, hi as int));
            }
            let stop: i64 = if to == values.len() - 1 {
                -1
            } else {
                to as i64
            };
            Stage::LeakyBucket(Phase::Trim { start: from as i64, stop })
        },
    }
}

/// The stage after a phase, from the values the store answered with.
pub(crate) fn respond(params: &Params, phase: Phase, values: &Vec<Option<i64>>) -> (stage: Stage)
    requires
        params@.valid(),
    ensures
        stage == react(params@, phase, values@),
        stage matches Stage::LeakyBucket(next) ==> positions_fit(next),
{
    let failed = Stage::Failed(LimiterError::Command);
    match phase {
        Phase::Length => match read_length(values) {
            Some(length) => if length >= params.capacity {
                Stage::Done(Outcome::Verdict(false))
            } else {
                Stage::LeakyBucket(Phase::Push)
            },
            None => failed,
        },
        Phase::Push => match read_single(values) {
            Some(Some(_)) => Stage::Done(Outcome::Verdict(true)),
            _ => failed,
        },
        Phase::Fetch => match read_length(values) {
            Some(length) => Stage::Done(Outcome::Count(length)),
            None => failed,
        },
        Phase::Scan => respond_scan(params, values),
        Phase::Trim { .. } => if values.len() == 0 {
            Stage::Done(Outcome::Drained)
        } else {
            failed
        },
    }
}

} // verus!
