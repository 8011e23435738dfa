//! Laws of the fixed window: what its operations do to the store, one
//! caller at a time and several at once.

use vstd::prelude::*;
use crate::clock::{capacity_of, epoch_of, secs_of, usable};
use crate::command::{Command, Entry};
use crate::error::{Fault, LimiterError};
use crate::exchange::{malformed, verdict, Outcome, Plan, Progress, Stage};
use crate::history::{
    allowed, ascending, denied, failed, replay, replay_last, replay_leaves_alone, reported,
    window_span, within_window, Ending,
};
use crate::keys::{window_key_of, windows_have_their_own_keys};
use crate::interleaving::{
    admitted, interleave, nothing_yet, refused, setting_out, take_turn, tally, tally_adds,
    tally_after_turn, tally_counts_each, tally_is_monotone,
};
use crate::store::{execute_one, execute_two, fits, Answer, Content, Slot, Store};
use crate::fixed_window::{plan_of, request, Phase};

verus! {

/// Where a `record` of a subject starts at each time.
pub open spec fn recording(
    limit_per_sec: u64,
    prefix: Seq<char>,
    resource: Seq<char>,
    subject: Seq<char>,
    window_secs: u64,
) -> spec_fn(u64) -> Progress {
    |now_ms: u64|
        Progress {
            plan: plan_of(limit_per_sec, prefix, resource, subject, window_secs, now_ms),
            stage: Stage::FixedWindow(Phase::Read),
        }
}

/// Where a `fetch` of a subject starts at each time.
pub open spec fn fetching(
    limit_per_sec: u64,
    prefix: Seq<char>,
    resource: Seq<char>,
    subject: Seq<char>,
    window_secs: u64,
) -> spec_fn(u64) -> Progress {
    |now_ms: u64|
        Progress {
            plan: plan_of(limit_per_sec, prefix, resource, subject, window_secs, now_ms),
            stage: Stage::FixedWindow(Phase::Fetch),
        }
}

/// The counter leaves room for one more call: it holds a number from 0 to
/// below the capacity that can still be incremented.
pub open spec fn has_room(plan: Plan, store: Store) -> bool {
    match store.number(plan.key, plan.now_ms as int) {
        Some(count) => 0 <= count < plan.capacity && count < i64::MAX,
        None => false,
    }
}

/// The counter is full: it holds a readable number at or above the capacity.
pub open spec fn is_full(plan: Plan, store: Store) -> bool {
    match store.number(plan.key, plan.now_ms as int) {
        Some(count) => 0 <= count <= i64::MAX && count >= plan.capacity,
        None => false,
    }
}

/// The counter after an admitted call: one higher, expiring a window from now.
pub open spec fn bumped(plan: Plan, store: Store) -> Store {
    store.put(
        plan.key,
        Slot {
            content: Content::Number(store.number(plan.key, plan.now_ms as int)->0 + 1),
            deadline: Some(plan.now_ms + plan.window * 1000),
        },
    )
}

/// What a `record` comes to: the store afterwards and how the call ends.
pub open spec fn recorded(plan: Plan, store: Store) -> (Store, Ending) {
    if has_room(plan, store) {
        (bumped(plan, store), allowed())
    } else if is_full(plan, store) {
        (store, denied())
    } else {
        (store, failed())
    }
}

/// Played against any store, the operation comes to what `recorded` says.
pub open spec fn records(progress: Progress) -> bool {
    forall|store: Store| #[trigger] progress.run(store) == recorded(progress.plan, store)
}

/// What a `record` does, with one caller at a time.
///
/// Where the window's counter leaves room the call is allowed, the counter is
/// one higher (an absent counter counts as 0) and expires one window from now.
/// Where the counter is full the call is refused. In every other case (the key
/// holds something else, or a number that is negative or out of range) the
/// call fails with `Command`. A call that is not allowed leaves the store as
/// it was.
pub proof fn record_effect(plan: Plan, store: Store)
    requires
        plan.valid(),
    ensures
        (Progress { plan, stage: Stage::FixedWindow(Phase::Read) }).run(store) == recorded(
            plan,
            store,
        ),
{
    let now = plan.now_ms as int;
    let key = plan.key;
    let begun = Progress { plan, stage: Stage::FixedWindow(Phase::Read) };
    let until = now + plan.window * 1000;
    reveal_with_fuel(Progress::run_for, 5);
    let get = Entry { command: Command::Get { key }, ignored: false };
    let init = Entry { command: Command::SetIfAbsent { key, value: 0 }, ignored: true };
    let incr = Entry { command: Command::Increment { key, delta: 1 }, ignored: false };
    let expire = Entry {
        command: Command::Expire { key, seconds: plan.window as int },
        ignored: true,
    };
    execute_one(store, true, get, now);
    if has_room(plan, store) {
        let count = store.number(key, now)->0;
        if store.live(key, now) is None {
            assert(store.execute(begun.request()->0, now) == (store, Answer::Values(seq![None])));
            let second = begun.advance(Answer::Values(seq![None]));
            assert(second.stage == Stage::FixedWindow(Phase::Init));
            execute_one(store, true, init, now);
            let created = store.put(key, Slot { content: Content::Number(0), deadline: None });
            assert(store.execute(second.request()->0, now) == (created, Answer::Values(seq![])));
            let third = second.advance(Answer::Values(seq![]));
            assert(third.stage == Stage::FixedWindow(Phase::Increment));
            execute_two(created, true, incr, expire, now);
            let raised = created.put(key, Slot { content: Content::Number(1), deadline: None });
            let renewed = raised.put(
                key,
                Slot { content: Content::Number(1), deadline: Some(until) },
            );
            assert(renewed.slots =~= bumped(plan, store).slots);
            assert(created.execute(third.request()->0, now) == (
                renewed,
                Answer::Values(seq![Some(1i64)]),
            ));
            let last = third.advance(Answer::Values(seq![Some(1i64)]));
            assert(last.stage == verdict(true));
        } else {
            assert(store.execute(begun.request()->0, now) == (
                store,
                Answer::Values(seq![Some(count as i64)]),
            ));
            let third = begun.advance(Answer::Values(seq![Some(count as i64)]));
            assert(third.stage == Stage::FixedWindow(Phase::Increment));
            execute_two(store, true, incr, expire, now);
            let slot = store.live(key, now)->0;
            let raised = store.put(
                key,
                Slot { content: Content::Number(count + 1), deadline: slot.deadline },
            );
            let renewed = raised.put(
                key,
                Slot { content: Content::Number(count + 1), deadline: Some(until) },
            );
            assert(renewed.slots =~= bumped(plan, store).slots);
            assert(store.execute(third.request()->0, now) == (
                renewed,
                Answer::Values(seq![Some((count + 1) as i64)]),
            ));
            let last = third.advance(Answer::Values(seq![Some((count + 1) as i64)]));
            assert(last.stage == verdict(true));
        }
    } else if is_full(plan, store) {
        let count = store.number(key, now)->0;
        if store.live(key, now) is None {
            assert(store.execute(begun.request()->0, now) == (store, Answer::Values(seq![None])));
            let last = begun.advance(Answer::Values(seq![None]));
            assert(last.stage == verdict(false));
        } else {
            assert(store.execute(begun.request()->0, now) == (
                store,
                Answer::Values(seq![Some(count as i64)]),
            ));
            let last = begun.advance(Answer::Values(seq![Some(count as i64)]));
            assert(last.stage == verdict(false));
        }
    } else {
        match store.apply(get.command, now) {
            None => {
                assert(store.execute(begun.request()->0, now) == (
                    store,
                    Answer::Failed(Fault::Command),
                ));
            },
            Some((_, reply)) => {
                let count = store.number(key, now)->0;
                assert(reply == Some(count as i64));
                assert(store.execute(begun.request()->0, now) == (
                    store,
                    Answer::Values(seq![reply]),
                ));
                let next = begun.advance(Answer::Values(seq![reply]));
                if count >= 0 {
                    assert(count == i64::MAX);
                    assert(next.stage == Stage::FixedWindow(Phase::Increment));
                    execute_two(store, true, incr, expire, now);
                    assert(store.execute(next.request()->0, now) == (
                        store,
                        Answer::Failed(Fault::Command),
                    ));
                } else {
                    assert(next.stage == malformed());
                }
            },
        }
    }
}

/// What a `fetch` comes to: the store, unchanged, and what is reported.
pub open spec fn fetched(plan: Plan, store: Store) -> (Store, Ending) {
    (
        store,
        match store.number(plan.key, plan.now_ms as int) {
            Some(count) => if 0 <= count <= i64::MAX {
                reported(count as u64)
            } else {
                failed()
            },
            None => failed(),
        },
    )
}

/// Played against any store, the operation comes to what `fetched` says.
pub open spec fn fetches(progress: Progress) -> bool {
    forall|store: Store| #[trigger] progress.run(store) == fetched(progress.plan, store)
}

/// What a `fetch` reports, with one caller at a time: the number the window's
/// counter holds, 0 for an absent counter; it fails with `Command` where the
/// key holds anything else. A fetch never changes the store.
pub proof fn fetch_effect(plan: Plan, store: Store)
    requires
        plan.valid(),
    ensures
        (Progress { plan, stage: Stage::FixedWindow(Phase::Fetch) }).run(store) == fetched(
            plan,
            store,
        ),
{
    let now = plan.now_ms as int;
    let begun = Progress { plan, stage: Stage::FixedWindow(Phase::Fetch) };
    reveal_with_fuel(Progress::run_for, 3);
    let get = Entry { command: Command::Get { key: plan.key }, ignored: false };
    execute_one(store, false, get, now);
    match store.apply(get.command, now) {
        None => {
            assert(store.execute(begun.request()->0, now) == (
                store,
                Answer::Failed(Fault::Command),
            ));
        },
        Some((_, reply)) => {
            assert(store.execute(begun.request()->0, now) == (store, Answer::Values(seq![reply])));
        },
    }
}

/// After a run of calls in one window that were all allowed, the counter
/// holds their number above where it began, and lives to the end of the
/// window.
proof fn all_allowed(
    limit_per_sec: u64,
    prefix: Seq<char>,
    resource: Seq<char>,
    subject: Seq<char>,
    window_secs: u64,
    times: Seq<u64>,
    epoch: int,
    store: Store,
)
    requires
        usable(limit_per_sec, window_secs),
        times.len() > 0,
        ascending(times),
        within_window(times, window_secs, epoch),
        forall|i: int|
            0 <= i < times.len() ==> replay(
                recording(limit_per_sec, prefix, resource, subject, window_secs),
                times,
                store,
            ).1[i] == allowed(),
    ensures
        ({
            let after = replay(
                recording(limit_per_sec, prefix, resource, subject, window_secs),
                times,
                store,
            ).0;
            let key = window_key_of(prefix, resource, subject, epoch);
            &&& after.slots.dom().contains(key)
            &&& after.slots[key].deadline == Some(times.last() + window_secs * 1000)
            &&& after.slots[key].content is Number
            &&& after.slots[key].content->Number_0 >= times.len()
        }),
    decreases times.len(),
{
    let begin = recording(limit_per_sec, prefix, resource, subject, window_secs);
    let key = window_key_of(prefix, resource, subject, epoch);
    let head = times.drop_last();
    let last = times.last();
    assert(last == times[times.len() - 1]);
    let plan = plan_of(limit_per_sec, prefix, resource, subject, window_secs, last);
    assert(plan.key == key);
    replay_last(begin, times, store);
    let before = replay(begin, head, store).0;
    assert(begin(last).run(before).1 == allowed()) by {
        assert(replay(begin, times, store).1[times.len() - 1] == allowed());
    }
    record_effect(plan, before);
    assert(has_room(plan, before));
    if head.len() > 0 {
        assert forall|i: int| 0 <= i < head.len() implies replay(begin, head, store).1[i]
            == allowed() by {
            assert(replay(begin, times, store).1[i] == allowed());
        }
        assert(ascending(head)) by {
            assert forall|i: int, j: int| 0 <= i <= j < head.len() implies head[i] <= head[j] by {
                assert(head[i] == times[i] && head[j] == times[j]);
            }
        }
        assert(within_window(head, window_secs, epoch)) by {
            assert forall|i: int| 0 <= i < head.len() implies epoch_of(
                secs_of(#[trigger] head[i] as int),
                window_secs as int,
            ) == epoch by {
                assert(head[i] == times[i]);
            }
        }
        all_allowed(limit_per_sec, prefix, resource, subject, window_secs, head, epoch, store);
        let earlier = head.last();
        assert(earlier == times[times.len() - 2]);
        window_span(earlier, window_secs, epoch);
        window_span(last, window_secs, epoch);
        assert(before.live(key, last as int) == Some(before.slots[key]));
    }
}

/// Within one window, a subject is allowed no more than the capacity.
///
/// For calls of one subject at times that never go back and all lie in one
/// window, one more than the capacity holds: where the first `capacity` of them
/// were all allowed, the next one is refused. This holds from any store.
pub proof fn full_window_refuses(
    limit_per_sec: u64,
    prefix: Seq<char>,
    resource: Seq<char>,
    subject: Seq<char>,
    window_secs: u64,
    times: Seq<u64>,
    epoch: int,
    store: Store,
)
    requires
        usable(limit_per_sec, window_secs),
        times.len() == capacity_of(limit_per_sec as int, window_secs as int) + 1,
        ascending(times),
        within_window(times, window_secs, epoch),
        forall|i: int|
            0 <= i < times.len() - 1 ==> replay(
                recording(limit_per_sec, prefix, resource, subject, window_secs),
                times,
                store,
            ).1[i] == allowed(),
    ensures
        replay(
            recording(limit_per_sec, prefix, resource, subject, window_secs),
            times,
            store,
        ).1.last() == denied(),
{
    let begin = recording(limit_per_sec, prefix, resource, subject, window_secs);
    let capacity = capacity_of(limit_per_sec as int, window_secs as int);
    assert(capacity >= 1) by (nonlinear_arith)
        requires
            capacity == limit_per_sec * window_secs,
            limit_per_sec >= 1,
            window_secs >= 1,
    ;
    let key = window_key_of(prefix, resource, subject, epoch);
    let head = times.drop_last();
    let last = times.last();
    assert(last == times[times.len() - 1]);
    let plan = plan_of(limit_per_sec, prefix, resource, subject, window_secs, last);
    replay_last(begin, times, store);
    let before = replay(begin, head, store).0;
    assert forall|i: int| 0 <= i < head.len() implies replay(begin, head, store).1[i]
        == allowed() by {
        assert(replay(begin, times, store).1[i] == allowed());
    }
    assert(ascending(head)) by {
        assert forall|i: int, j: int| 0 <= i <= j < head.len() implies head[i] <= head[j] by {
            assert(head[i] == times[i] && head[j] == times[j]);
        }
    }
    assert(within_window(head, window_secs, epoch)) by {
        assert forall|i: int| 0 <= i < head.len() implies epoch_of(
            secs_of(#[trigger] head[i] as int),
            window_secs as int,
        ) == epoch by {
            assert(head[i] == times[i]);
        }
    }
    all_allowed(limit_per_sec, prefix, resource, subject, window_secs, head, epoch, store);
    let earlier = head.last();
    assert(earlier == times[times.len() - 2]);
    window_span(earlier, window_secs, epoch);
    window_span(last, window_secs, epoch);
    assert(before.live(key, last as int) == Some(before.slots[key]));
    record_effect(plan, before);
    // The counter cannot have gone past the capacity: the call before this one
    // was allowed, so it found the counter below the capacity.
    let previous_plan = plan_of(limit_per_sec, prefix, resource, subject, window_secs, earlier);
    replay_last(begin, head, store);
    let start = replay(begin, head.drop_last(), store).0;
    assert(begin(earlier).run(start).1 == allowed()) by {
        assert(replay(begin, head, store).1[head.len() - 1] == allowed());
    }
    record_effect(previous_plan, start);
    assert(has_room(previous_plan, start));
    assert(before == bumped(previous_plan, start));
    assert(before.slots[key].content->Number_0 <= i64::MAX);
}

/// The counter at `key`, if there is one, holds no more than `capacity`.
pub open spec fn bounded(store: Store, key: Seq<char>, capacity: int) -> bool {
    store.slots.dom().contains(key) ==> match store.slots[key].content {
        Content::Number(count) => count <= capacity,
        _ => true,
    }
}

/// No sequence of `record` calls counts more than the capacity in any window.
///
/// From a store in which no counter of the subject is above the capacity,
/// after calls of the subject at any times whatever, none is.
pub proof fn counters_stay_within_capacity(
    limit_per_sec: u64,
    prefix: Seq<char>,
    resource: Seq<char>,
    subject: Seq<char>,
    window_secs: u64,
    times: Seq<u64>,
    store: Store,
)
    requires
        usable(limit_per_sec, window_secs),
        forall|epoch: int|
            bounded(
                store,
                #[trigger] window_key_of(prefix, resource, subject, epoch),
                capacity_of(limit_per_sec as int, window_secs as int),
            ),
    ensures
        forall|epoch: int|
            bounded(
                replay(
                    recording(limit_per_sec, prefix, resource, subject, window_secs),
                    times,
                    store,
                ).0,
                #[trigger] window_key_of(prefix, resource, subject, epoch),
                capacity_of(limit_per_sec as int, window_secs as int),
            ),
    decreases times.len(),
{
    if times.len() > 0 {
        let begin = recording(limit_per_sec, prefix, resource, subject, window_secs);
        let capacity = capacity_of(limit_per_sec as int, window_secs as int);
        counters_stay_within_capacity(
            limit_per_sec,
            prefix,
            resource,
            subject,
            window_secs,
            times.drop_last(),
            store,
        );
        replay_last(begin, times, store);
        let before = replay(begin, times.drop_last(), store).0;
        let plan = plan_of(limit_per_sec, prefix, resource, subject, window_secs, times.last());
        record_effect(plan, before);
        let after = begin(times.last()).run(before).0;
        assert forall|epoch: int|
            bounded(
                after,
                #[trigger] window_key_of(prefix, resource, subject, epoch),
                capacity,
            ) by {
            assert(bounded(before, window_key_of(prefix, resource, subject, epoch), capacity));
        }
    }
}

/// A fresh window allows exactly the capacity.
///
/// For calls of one subject at times that never go back and all lie in one
/// window for which the store holds no counter yet: the first `capacity` calls
/// are allowed and every later one is refused.
pub proof fn fresh_window_allows_exactly_capacity(
    limit_per_sec: u64,
    prefix: Seq<char>,
    resource: Seq<char>,
    subject: Seq<char>,
    window_secs: u64,
    times: Seq<u64>,
    epoch: int,
    store: Store,
)
    requires
        usable(limit_per_sec, window_secs),
        capacity_of(limit_per_sec as int, window_secs as int) <= i64::MAX,
        ascending(times),
        within_window(times, window_secs, epoch),
        !store.slots.dom().contains(window_key_of(prefix, resource, subject, epoch)),
    ensures
        ({
            let (after, endings) = replay(
                recording(limit_per_sec, prefix, resource, subject, window_secs),
                times,
                store,
            );
            let capacity = capacity_of(limit_per_sec as int, window_secs as int);
            let key = window_key_of(prefix, resource, subject, epoch);
            let taken = if times.len() <= capacity {
                times.len() as int
            } else {
                capacity
            };
            &&& endings.len() == times.len()
            &&& forall|i: int|
                0 <= i < times.len() ==> #[trigger] endings[i] == if i < capacity {
                    allowed()
                } else {
                    denied()
                }
            &&& times.len() > 0 ==> after.slots.dom().contains(key) && after.slots[key]
                == Slot {
                content: Content::Number(taken),
                deadline: Some(times[taken - 1] + window_secs * 1000),
            }
            &&& times.len() == 0 ==> after == store
        }),
    decreases times.len(),
{
    let begin = recording(limit_per_sec, prefix, resource, subject, window_secs);
    let capacity = capacity_of(limit_per_sec as int, window_secs as int);
    assert(capacity >= 1) by (nonlinear_arith)
        requires
            capacity == limit_per_sec * window_secs,
            limit_per_sec >= 1,
            window_secs >= 1,
    ;
    let key = window_key_of(prefix, resource, subject, epoch);
    if times.len() > 0 {
        let head = times.drop_last();
        let last = times.last();
        let n = times.len() - 1;
        assert(last == times[n]);
        assert(ascending(head)) by {
            assert forall|i: int, j: int| 0 <= i <= j < head.len() implies head[i] <= head[j] by {
                assert(head[i] == times[i] && head[j] == times[j]);
            }
        }
        assert(within_window(head, window_secs, epoch)) by {
            assert forall|i: int| 0 <= i < head.len() implies epoch_of(
                secs_of(#[trigger] head[i] as int),
                window_secs as int,
            ) == epoch by {
                assert(head[i] == times[i]);
            }
        }
        fresh_window_allows_exactly_capacity(
            limit_per_sec,
            prefix,
            resource,
            subject,
            window_secs,
            head,
            epoch,
            store,
        );
        replay_last(begin, times, store);
        let (before, early) = replay(begin, head, store);
        let plan = plan_of(limit_per_sec, prefix, resource, subject, window_secs, last);
        assert(plan.key == key);
        record_effect(plan, before);
        window_span(last, window_secs, epoch);
        if n > 0 {
            let taken = if n <= capacity {
                n
            } else {
                capacity
            };
            assert(head[taken - 1] == times[taken - 1]);
            window_span(times[taken - 1], window_secs, epoch);
            assert(before.live(key, last as int) == Some(before.slots[key]));
        }
        let (after, ending) = begin(last).run(before);
        let endings = early.push(ending);
        assert forall|i: int| 0 <= i < times.len() implies #[trigger] endings[i] == if i
            < capacity {
            allowed()
        } else {
            denied()
        } by {
            if i < n {
                assert(endings[i] == early[i]);
            }
        }
    }
}

/// A new window starts empty.
///
/// After any calls of a subject, at a time one window or more after the last
/// of them, a `fetch` reports 0 and a `record` is allowed, provided the store
/// did not hold a count for that later window to begin with.
pub proof fn new_window_starts_empty(
    limit_per_sec: u64,
    prefix: Seq<char>,
    resource: Seq<char>,
    subject: Seq<char>,
    window_secs: u64,
    times: Seq<u64>,
    later: u64,
    store: Store,
)
    requires
        usable(limit_per_sec, window_secs),
        forall|i: int| 0 <= i < times.len() ==> times[i] + window_secs * 1000 <= later,
        store.number(
            plan_of(limit_per_sec, prefix, resource, subject, window_secs, later).key,
            later as int,
        ) == Some(0int),
    ensures
        ({
            let after = replay(
                recording(limit_per_sec, prefix, resource, subject, window_secs),
                times,
                store,
            ).0;
            &&& fetching(limit_per_sec, prefix, resource, subject, window_secs)(later).run(
                after,
            ).1 == reported(0)
            &&& recording(limit_per_sec, prefix, resource, subject, window_secs)(later).run(
                after,
            ).1 == allowed()
        }),
{
    let begin = recording(limit_per_sec, prefix, resource, subject, window_secs);
    let plan = plan_of(limit_per_sec, prefix, resource, subject, window_secs, later);
    let capacity = capacity_of(limit_per_sec as int, window_secs as int);
    assert(capacity >= 1) by (nonlinear_arith)
        requires
            capacity == limit_per_sec * window_secs,
            limit_per_sec >= 1,
            window_secs >= 1,
    ;
    let later_epoch = epoch_of(secs_of(later as int), window_secs as int);
    window_span(later, window_secs, later_epoch);
    assert forall|i: int| 0 <= i < times.len() implies (#[trigger] begin(times[i])).plan.key
        != plan.key && begin(times[i]).plan.other != plan.key by {
        let t = times[i];
        let e = epoch_of(secs_of(t as int), window_secs as int);
        window_span(t, window_secs, e);
        assert(e != later_epoch) by (nonlinear_arith)
            requires
                e * 1000 <= t,
                t + window_secs * 1000 <= later,
                later < (later_epoch + window_secs) * 1000,
        ;
        windows_have_their_own_keys(prefix, resource, subject, e, later_epoch);
        assert(plan.key.len() > 0);
    }
    replay_leaves_alone(begin, times, store, plan.key);
    let after = replay(begin, times, store).0;
    assert(after.number(plan.key, later as int) == Some(0int));
    fetch_effect(plan, after);
    record_effect(plan, after);
}

/// 1 for an operation whose increment is in the counter: one that has ended
/// allowed, or one that is about to take its increment back.
pub open spec fn holding() -> spec_fn(Stage) -> int {
    |stage: Stage|
        if stage == Stage::Done(Outcome::Verdict(true)) || stage == Stage::FixedWindow(
            Phase::Undo,
        ) {
            1int
        } else {
            0int
        }
}

/// 1 for an operation that is about to take back what it took.
pub open spec fn pending() -> spec_fn(Stage) -> int {
    |stage: Stage|
        if stage == Stage::FixedWindow(Phase::Undo) {
            1int
        } else {
            0int
        }
}

/// 1 for an operation that was refused or is about to be.
pub open spec fn turned_away() -> spec_fn(Stage) -> int {
    |stage: Stage|
        if stage == Stage::Done(Outcome::Verdict(false)) || stage
            == Stage::FixedWindow(Phase::Undo) {
            1int
        } else {
            0int
        }
}

/// What holds of any number of `record` calls of one subject in flight within
/// one window: they all work on the window's counter; the counter holds what
/// it began with plus one for each call that holds an increment, and does not
/// expire within the window; and the calls allowed so far, together with
/// what the counter began with, do not exceed the capacity.
pub open spec fn in_step(
    flights: Seq<Progress>,
    store: Store,
    key: Seq<char>,
    capacity: u64,
    window_secs: u64,
    epoch: int,
    begun_with: int,
) -> bool {
    &&& forall|i: int|
        0 <= i < flights.len() ==> {
            let flight = #[trigger] flights[i];
            &&& flight.plan.key == key
            &&& flight.plan.capacity == capacity
            &&& flight.plan.window == window_secs
            &&& flight.plan.valid()
            &&& epoch * 1000 <= flight.plan.now_ms < (epoch + window_secs) * 1000
            &&& match flight.stage {
                Stage::FixedWindow(phase) => phase != Phase::Fetch,
                Stage::Done(outcome) => outcome is Verdict,
                Stage::Failed(_) => true,
                _ => false,
            }
        }
    &&& begun_with >= 0
    &&& if store.slots.dom().contains(key) {
        &&& store.slots[key].content == Content::Number(begun_with + tally(flights, holding()))
        &&& store.slots[key].deadline is None || store.slots[key].deadline->0 >= (epoch
            + window_secs) * 1000
    } else {
        begun_with + tally(flights, holding()) == 0
    }
    &&& 0 <= tally(flights, admitted()) <= tally(flights, holding())
    &&& tally(flights, holding()) > 0 ==> begun_with + tally(flights, holding()) <= i64::MAX
    &&& tally(flights, admitted()) > 0 ==> begun_with + tally(flights, admitted()) <= capacity
    &&& tally(flights, turned_away()) > 0 ==> begun_with + tally(flights, admitted()) >= capacity
}

/// A turn of any of the calls keeps them in step.
proof fn turn_keeps_step(
    flights: Seq<Progress>,
    store: Store,
    who: int,
    key: Seq<char>,
    capacity: u64,
    window_secs: u64,
    epoch: int,
    begun_with: int,
)
    requires
        in_step(flights, store, key, capacity, window_secs, epoch, begun_with),
    ensures
        in_step(
            take_turn(flights, store, who).0,
            take_turn(flights, store, who).1,
            key,
            capacity,
            window_secs,
            epoch,
            begun_with,
        ),
{
    if 0 <= who < flights.len() && flights[who].request() is Some {
        let flight = flights[who];
        let plan = flight.plan;
        let now = plan.now_ms as int;
        let held = begun_with + tally(flights, holding());
        let batch = flight.request()->0;
        let (next, answer) = store.execute(batch, now);
        let moved = flight.advance(answer);
        let after = flights.update(who, moved);
        tally_after_turn(flights, who, moved, holding());
        tally_after_turn(flights, who, moved, admitted());
        tally_after_turn(flights, who, moved, turned_away());
        tally_adds(flights, admitted(), pending(), holding());
        tally_is_monotone(flights, pending(), turned_away());
        tally_counts_each(flights, who, pending());
        let get = Entry { command: Command::Get { key }, ignored: false };
        let init = Entry { command: Command::SetIfAbsent { key, value: 0 }, ignored: true };
        let incr = Entry { command: Command::Increment { key, delta: 1 }, ignored: false };
        let expire = Entry {
            command: Command::Expire { key, seconds: plan.window as int },
            ignored: true,
        };
        let undo = Entry { command: Command::Decrement { key, delta: 1 }, ignored: false };
        if store.slots.dom().contains(key) {
            assert(store.live(key, now) == Some(store.slots[key]));
        }
        assert forall|i: int| 0 <= i < after.len() && i != who implies after[i]
            == flights[i] by {}
        match flight.stage {
            Stage::FixedWindow(Phase::Read) => {
                execute_one(store, true, get, now);
                assert(next == store);
                assert(holding()(moved.stage) == 0 && admitted()(moved.stage) == 0);
                assert(in_step(after, next, key, capacity, window_secs, epoch, begun_with));
            },
            Stage::FixedWindow(Phase::Init) => {
                execute_one(store, true, init, now);
                assert(answer == Answer::Values(Seq::empty()));
                assert(moved.stage == Stage::FixedWindow(Phase::Increment));
                assert(in_step(after, next, key, capacity, window_secs, epoch, begun_with));
            },
            Stage::FixedWindow(Phase::Increment) => {
                execute_two(store, true, incr, expire, now);
                if fits(held + 1) && (store.slots.dom().contains(key) ==> fits(held)) {
                    let raised = Slot {
                        content: Content::Number(held + 1),
                        deadline: Some(now + plan.window * 1000),
                    };
                    let deadline = if store.slots.dom().contains(key) {
                        store.slots[key].deadline
                    } else {
                        None
                    };
                    let first = store.put(
                        key,
                        Slot { content: Content::Number(held + 1), deadline },
                    );
                    assert(store.apply(incr.command, now) == Some(
                        (first, Some((held + 1) as i64)),
                    ));
                    assert(first.apply(expire.command, now) == Some(
                        (first.put(key, raised), Some(1i64)),
                    ));
                    assert(next == first.put(key, raised));
                    assert(answer == Answer::Values(seq![Some((held + 1) as i64)]));
                    assert(holding()(moved.stage) == 1);
                    assert(next.slots[key] == raised);
                    tally_is_monotone(after, admitted(), holding());
                    tally_counts_each(after, who, admitted());
                    assert(in_step(after, next, key, capacity, window_secs, epoch, begun_with));
                } else {
                    assert(answer == Answer::Failed(Fault::Command));
                    assert(next == store);
                    assert(in_step(after, next, key, capacity, window_secs, epoch, begun_with));
                }
            },
            Stage::FixedWindow(Phase::Undo) => {
                execute_one(store, true, undo, now);
                assert(holding()(flight.stage) == 1);
                tally_counts_each(flights, who, holding());
                let lowered = Slot {
                    content: Content::Number(held - 1),
                    deadline: store.slots[key].deadline,
                };
                assert(next == store.put(key, lowered));
                assert(moved.stage == verdict(false));
                tally_is_monotone(after, admitted(), holding());
                tally_counts_each(after, who, admitted());
                assert(in_step(after, next, key, capacity, window_secs, epoch, begun_with));
            },
            _ => {},
        }
    }
}

/// Any turns keep the calls in step.
proof fn turns_keep_step(
    flights: Seq<Progress>,
    store: Store,
    turns: Seq<int>,
    key: Seq<char>,
    capacity: u64,
    window_secs: u64,
    epoch: int,
    begun_with: int,
)
    requires
        in_step(flights, store, key, capacity, window_secs, epoch, begun_with),
    ensures
        in_step(
            interleave(flights, store, turns).0,
            interleave(flights, store, turns).1,
            key,
            capacity,
            window_secs,
            epoch,
            begun_with,
        ),
    decreases turns.len(),
{
    if turns.len() > 0 {
        turns_keep_step(
            flights,
            store,
            turns.drop_last(),
            key,
            capacity,
            window_secs,
            epoch,
            begun_with,
        );
        let (before, held) = interleave(flights, store, turns.drop_last());
        turn_keeps_step(before, held, turns.last(), key, capacity, window_secs, epoch, begun_with);
    }
}

/// However the batches of concurrent callers interleave, a window admits no
/// more than its capacity.
///
/// Any number of `record` calls of one subject, begun at times in one window,
/// have their batches run in any order whatever, each call any number of
/// turns, some perhaps never finishing. The store holds no counter for the
/// window, or one that counts from 0 up and does not expire within the
/// window. Then at every moment the calls that have ended allowed, together
/// with what the counter began with, number no more than the capacity; and
/// once a call has ended refused they number exactly the capacity, unless the
/// counter began above it: no call is refused while there is room.
pub proof fn no_interleaving_overfills(
    limit_per_sec: u64,
    prefix: Seq<char>,
    resource: Seq<char>,
    subject: Seq<char>,
    window_secs: u64,
    times: Seq<u64>,
    epoch: int,
    turns: Seq<int>,
    store: Store,
)
    requires
        usable(limit_per_sec, window_secs),
        within_window(times, window_secs, epoch),
        store.slots.dom().contains(window_key_of(prefix, resource, subject, epoch)) ==> {
            let slot = store.slots[window_key_of(prefix, resource, subject, epoch)];
            &&& slot.content is Number
            &&& slot.content->Number_0 >= 0
            &&& slot.deadline is None || slot.deadline->0 >= (epoch + window_secs) * 1000
        },
    ensures
        ({
            let key = window_key_of(prefix, resource, subject, epoch);
            let begun_with = if store.slots.dom().contains(key) {
                store.slots[key].content->Number_0
            } else {
                0
            };
            let flights = setting_out(
                recording(limit_per_sec, prefix, resource, subject, window_secs),
                times,
            );
            let allowed = tally(interleave(flights, store, turns).0, admitted());
            let turned = tally(interleave(flights, store, turns).0, refused());
            let capacity = capacity_of(limit_per_sec as int, window_secs as int);
            &&& allowed == 0 || begun_with + allowed <= capacity
            &&& turned > 0 ==> begun_with + allowed >= capacity
        }),
{
    let key = window_key_of(prefix, resource, subject, epoch);
    let capacity = capacity_of(limit_per_sec as int, window_secs as int) as u64;
    let begun_with = if store.slots.dom().contains(key) {
        store.slots[key].content->Number_0
    } else {
        0
    };
    let flights = setting_out(
        recording(limit_per_sec, prefix, resource, subject, window_secs),
        times,
    );
    nothing_yet(flights, holding());
    nothing_yet(flights, admitted());
    nothing_yet(flights, turned_away());
    assert forall|i: int| 0 <= i < flights.len() implies epoch * 1000 <= (
    #[trigger] flights[i]).plan.now_ms < (epoch + window_secs) * 1000 by {
        window_span(times[i], window_secs, epoch);
    }
    assert(in_step(flights, store, key, capacity, window_secs, epoch, begun_with));
    turns_keep_step(flights, store, turns, key, capacity, window_secs, epoch, begun_with);
    tally_is_monotone(interleave(flights, store, turns).0, refused(), turned_away());
}

} // verus!
