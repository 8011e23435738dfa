//! Operations one after the other: what the laws of the algorithms speak of.
//!
//! A history is a run of operations of one kind by one caller, each played to
//! its end against the model of the store before the next begins, at times
//! that never go back.

use vstd::prelude::*;
use crate::clock::{epoch_bounds, epoch_of, secs_of};
use crate::command::{Batch, Command, Entry};
use crate::error::LimiterError;
use crate::exchange::{Outcome, Plan, Progress, Stage};
use crate::store::{Answer, Store};

verus! {

/// How an operation ended when played against the model: `None` if it was not
/// over after the four round trips that the longest operation takes.
pub type Ending = Option<Result<Outcome, LimiterError>>;

/// The ending of an admitted `record`.
pub open spec fn allowed() -> Ending {
    Some(Ok(Outcome::Verdict(true)))
}

/// The ending of a refused `record`.
pub open spec fn denied() -> Ending {
    Some(Ok(Outcome::Verdict(false)))
}

/// The ending of an operation that fails with `Command`: the store refused a
/// command, or answered what the operation cannot read.
pub open spec fn failed() -> Ending {
    Some(Err(LimiterError::Command))
}

/// The ending of a `fetch` that reports `count`.
pub open spec fn reported(count: u64) -> Ending {
    Some(Ok(Outcome::Count(count)))
}

/// The operations that `begin` starts at each of `times`, played in order from
/// `store`: the store afterwards and how each ended.
pub open spec fn replay(begin: spec_fn(u64) -> Progress, times: Seq<u64>, store: Store) -> (
    Store,
    Seq<Ending>,
)
    decreases times.len(),
{
    if times.len() == 0 {
        (store, Seq::empty())
    } else {
        let (before, endings) = replay(begin, times.drop_last(), store);
        let (after, ending) = begin(times.last()).run(before);
        (after, endings.push(ending))
    }
}

/// Times that never go back.
pub open spec fn ascending(times: Seq<u64>) -> bool {
    forall|i: int, j: int| 0 <= i <= j < times.len() ==> times[i] <= times[j]
}

/// Times of which each is later than the one before.
pub open spec fn strictly_ascending(times: Seq<u64>) -> bool {
    forall|i: int, j: int| 0 <= i < j < times.len() ==> times[i] < times[j]
}

/// Times that all lie in the window that starts at `epoch` seconds.
pub open spec fn within_window(times: Seq<u64>, window_secs: u64, epoch: int) -> bool {
    forall|i: int|
        0 <= i < times.len() ==> epoch_of(secs_of(#[trigger] times[i] as int), window_secs as int)
            == epoch
}

/// A time in the window that starts at `epoch` seconds lies between the
/// window's first and last millisecond.
pub proof fn window_span(now_ms: u64, window_secs: u64, epoch: int)
    requires
        window_secs > 0,
        epoch_of(secs_of(now_ms as int), window_secs as int) == epoch,
    ensures
        epoch * 1000 <= now_ms < (epoch + window_secs) * 1000,
        epoch >= 0,
{
    let secs = secs_of(now_ms as int);
    epoch_bounds(secs, window_secs as int);
    assert(now_ms == 1000 * secs + now_ms as int % 1000) by {
        vstd::arithmetic::div_mod::lemma_fundamental_div_mod(now_ms as int, 1000);
    }
}

/// A replay of one more operation is the replay of the others and then that
/// one.
pub proof fn replay_last(
    begin: spec_fn(u64) -> Progress,
    times: Seq<u64>,
    store: Store,
)
    requires
        times.len() > 0,
    ensures
        ({
            let (before, endings) = replay(begin, times.drop_last(), store);
            let (after, ending) = begin(times.last()).run(before);
            &&& replay(begin, times, store) == (after, endings.push(ending))
            &&& endings.len() == times.len() - 1
        }),
{
    replay_length(begin, times.drop_last(), store);
}

/// A replay ends each of its operations.
pub proof fn replay_length(begin: spec_fn(u64) -> Progress, times: Seq<u64>, store: Store)
    ensures
        replay(begin, times, store).1.len() == times.len(),
    decreases times.len(),
{
    if times.len() > 0 {
        replay_length(begin, times.drop_last(), store);
    }
}

/// The keys other than a plan's own two hold in `after` what they held in
/// `before`.
pub open spec fn same_elsewhere(before: Store, after: Store, plan: Plan) -> bool {
    forall|key: Seq<char>|
        key != plan.key && key != plan.other ==> (#[trigger] before.slots.dom().contains(key)
            == after.slots.dom().contains(key)) && (before.slots.dom().contains(key)
            ==> before.slots[key] == after.slots[key])
}

/// Every command of a batch works on one of a plan's two keys.
pub open spec fn confined(batch: Batch, plan: Plan) -> bool {
    forall|i: int|
        0 <= i < batch.entries.len() ==> (#[trigger] batch.entries[i]).command.key() == plan.key
            || batch.entries[i].command.key() == plan.other
}

/// A command changes no key but its own.
pub proof fn apply_stays_on_its_key(store: Store, command: Command, now: int)
    ensures
        match store.apply(command, now) {
            Some((after, _)) => forall|key: Seq<char>|
                key != command.key() ==> (#[trigger] store.slots.dom().contains(key)
                    == after.slots.dom().contains(key)) && (store.slots.dom().contains(key)
                    ==> store.slots[key] == after.slots[key]),
            None => true,
        },
{
}

/// A run of entries confined to a plan's keys changes no other key.
pub proof fn sequence_stays_on_its_keys(store: Store, entries: Seq<Entry>, plan: Plan, now: int)
    requires
        confined(Batch { atomic: true, entries }, plan),
    ensures
        match store.sequence(entries, now) {
            Some((after, _)) => same_elsewhere(store, after, plan),
            None => true,
        },
    decreases entries.len(),
{
    if entries.len() > 0 {
        let head = entries.drop_last();
        assert(confined(Batch { atomic: true, entries: head }, plan)) by {
            assert forall|i: int| 0 <= i < head.len() implies (#[trigger] head[i]).command.key()
                == plan.key || head[i].command.key() == plan.other by {
                assert(head[i] == entries[i]);
            }
        }
        sequence_stays_on_its_keys(store, head, plan, now);
        match store.sequence(head, now) {
            Some((middle, _)) => {
                assert(entries.last() == entries[entries.len() - 1]);
                apply_stays_on_its_key(middle, entries.last().command, now);
            },
            None => {},
        }
    }
}

/// The batch of every stage works on the plan's own keys only.
pub proof fn requests_are_confined(progress: Progress)
    ensures
        progress.request() is Some ==> confined(progress.request()->0, progress.plan),
{
}

/// An operation leaves every key but its plan's own two as it was, however
/// far it is played.
pub proof fn run_for_stays_on_its_keys(progress: Progress, store: Store, rounds: nat)
    ensures
        same_elsewhere(store, progress.run_for(store, rounds).0, progress.plan),
        progress.run_for(store, rounds).1.plan == progress.plan,
    decreases rounds,
{
    if progress.request() is Some && rounds > 0 {
        let batch = progress.request()->0;
        let now = progress.plan.now_ms as int;
        requests_are_confined(progress);
        assert(confined(Batch { atomic: true, entries: batch.entries }, progress.plan));
        sequence_stays_on_its_keys(store, batch.entries, progress.plan, now);
        let (next, answer) = store.execute(batch, now);
        run_for_stays_on_its_keys(progress.advance(answer), next, (rounds - 1) as nat);
    }
}

/// An operation played to its end reads and writes its plan's two keys and
/// no other: every other key holds afterwards what it held before.
pub proof fn run_stays_on_its_keys(progress: Progress, store: Store)
    ensures
        same_elsewhere(store, progress.run(store).0, progress.plan),
{
    run_for_stays_on_its_keys(progress, store, 4);
}

/// A key that none of a history's operations works on holds after the history
/// what it held before, and lives or not as before at any time.
pub proof fn replay_leaves_alone(
    begin: spec_fn(u64) -> Progress,
    times: Seq<u64>,
    store: Store,
    key: Seq<char>,
)
    requires
        forall|i: int|
            0 <= i < times.len() ==> (#[trigger] begin(times[i])).plan.key != key && begin(
                times[i],
            ).plan.other != key,
    ensures
        ({
            let after = replay(begin, times, store).0;
            &&& after.slots.dom().contains(key) == store.slots.dom().contains(key)
            &&& store.slots.dom().contains(key) ==> after.slots[key] == store.slots[key]
            &&& forall|now: int| after.live(key, now) == store.live(key, now)
        }),
    decreases times.len(),
{
    if times.len() > 0 {
        let head = times.drop_last();
        assert forall|i: int| 0 <= i < head.len() implies (#[trigger] begin(head[i])).plan.key
            != key && begin(head[i]).plan.other != key by {
            assert(head[i] == times[i]);
        }
        replay_leaves_alone(begin, head, store, key);
        let before = replay(begin, head, store).0;
        assert(times.last() == times[times.len() - 1]);
        run_stays_on_its_keys(begin(times.last()), before);
    }
}

} // verus!
