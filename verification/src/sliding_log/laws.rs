//! Laws of the sliding log: what its operations do to the store, and what a
//! fetch counts.

use vstd::prelude::*;
use crate::clock::{capacity_of, usable};
use crate::command::{Command, Entry};
use crate::error::{Fault, LimiterError};
use crate::exchange::{verdict, Outcome, Plan, Progress, Stage};
use crate::history::{
    allowed, ascending, denied, failed, replay, replay_last, reported, strictly_ascending,
    Ending,
};
use crate::keys::subject_key_of;
use crate::store::{execute_one, execute_three, fits, kept, Answer, Content, Slot, Store};
use crate::sliding_log::{cutoff_of, fetch_plan_of, plan_of, request, Phase};

verus! {

/// Where a `record` of a subject starts at each time.
pub open spec fn recording(
    limit_per_sec: u64,
    prefix: Seq<char>,
    resource: Seq<char>,
    subject: Seq<char>,
    window_secs: u64,
) -> spec_fn(u64) -> Progress {
    |now_ms: u64|
        Progress {
            plan: plan_of(limit_per_sec, prefix, resource, subject, window_secs, now_ms),
            stage: Stage::SlidingLog(Phase::Count),
        }
}

/// Where a `fetch` of a subject starts at a time.
pub open spec fn fetching(
    prefix: Seq<char>,
    resource: Seq<char>,
    subject: Seq<char>,
    now_ms: u64,
) -> Progress {
    Progress {
        plan: fetch_plan_of(prefix, resource, subject, now_ms),
        stage: Stage::SlidingLog(Phase::Fetch),
    }
}

/// The ledger as the store holds it at `now`, empty where the key is absent;
/// `None` where the key holds anything but a sorted set whose size a reply can
/// carry.
pub open spec fn ledger_at(store: Store, key: Seq<char>, now: int) -> Option<Map<int, int>> {
    match store.ledger(key, now) {
        Some(members) => if fits(members.dom().len() as int) {
            Some(members)
        } else {
            None
        },
        None => None,
    }
}

/// The ledger after an admitted call at `now_ms`: the entries scored below
/// the cutoff are gone and the call's own time is in.
pub open spec fn renewed(members: Map<int, int>, now_ms: int, window_secs: int) -> Map<int, int> {
    kept(members, cutoff_of(now_ms, window_secs)).insert(now_ms, now_ms)
}

/// The store after an admitted call: the renewed ledger, expiring one window
/// from now.
pub open spec fn inserted(plan: Plan, store: Store) -> Store {
    store.put(
        plan.key,
        Slot {
            content: Content::Ledger(
                renewed(
                    store.ledger(plan.key, plan.now_ms as int)->0,
                    plan.now_ms as int,
                    plan.window as int,
                ),
            ),
            deadline: Some(plan.now_ms + plan.window * 1000),
        },
    )
}

/// What is kept of a finite ledger is part of it: finite and no larger.
pub proof fn kept_is_part(members: Map<int, int>, bound: int)
    requires
        members.dom().finite(),
    ensures
        kept(members, bound).dom().finite(),
        kept(members, bound).dom().len() <= members.dom().len(),
        kept(members, bound).dom().subset_of(members.dom()),
{
    vstd::set_lib::lemma_len_subset(kept(members, bound).dom(), members.dom());
}

/// What a `record` comes to: the store afterwards and how the call ends.
pub open spec fn recorded(plan: Plan, store: Store) -> (Store, Ending) {
    match ledger_at(store, plan.key, plan.now_ms as int) {
        Some(members) => if members.dom().len() >= plan.capacity {
            (store, denied())
        } else if fits(
            renewed(members, plan.now_ms as int, plan.window as int).dom().len() as int,
        ) {
            (inserted(plan, store), allowed())
        } else {
            (store, failed())
        },
        None => (store, failed()),
    }
}

/// Played against any store whose sorted sets are finite, the operation comes
/// to what `recorded` says.
pub open spec fn records(progress: Progress) -> bool {
    forall|store: Store|
        store.well_formed() ==> #[trigger] progress.run(store) == recorded(progress.plan, store)
}

/// What a `record` does, with one caller at a time.
///
/// Where the ledger holds fewer entries than the capacity the call is
/// allowed: the entries scored below one window before now are removed, the
/// call's time is added, and the ledger expires one window from now. Where the
/// ledger holds as many entries as the capacity or more the call is refused.
/// Where the key holds no sorted set the call fails with `Command`. A call
/// that is not allowed leaves the store as it was.
pub proof fn record_effect(plan: Plan, store: Store)
    requires
        plan.valid(),
        store.well_formed(),
    ensures
        (Progress { plan, stage: Stage::SlidingLog(Phase::Count) }).run(store) == recorded(
            plan,
            store,
        ),
        recorded(plan, store).0.well_formed(),
{
    let now = plan.now_ms as int;
    let key = plan.key;
    let begun = Progress { plan, stage: Stage::SlidingLog(Phase::Count) };
    reveal_with_fuel(Progress::run_for, 4);
    let count = Entry { command: Command::Cardinality { key }, ignored: false };
    let bound = cutoff_of(now, plan.window as int);
    let remove = Entry { command: Command::RemoveBelow { key, bound }, ignored: true };
    let add = Entry { command: Command::Add { key, score: now, member: now }, ignored: true };
    let expire = Entry {
        command: Command::Expire { key, seconds: plan.window as int },
        ignored: true,
    };
    execute_one(store, false, count, now);
    match ledger_at(store, key, now) {
        Some(members) => {
            let reply = Some(members.dom().len() as i64);
            assert(store.execute(begun.request()->0, now) == (store, Answer::Values(seq![reply])));
            let second = begun.advance(Answer::Values(seq![reply]));
            if members.dom().len() < plan.capacity {
                assert(second.stage == Stage::SlidingLog(Phase::Insert));
                execute_three(store, true, remove, add, expire, now);
                let until = Some(now + plan.window * 1000);
                let fresh = renewed(members, now, plan.window as int);
                let goal = inserted(plan, store);
                assert(members.dom().finite()) by {
                    if store.live(key, now) is Some {
                        assert(store.slots.dom().contains(key));
                    }
                }
                kept_is_part(members, bound);
                let rest = kept(members, bound);
                assert(fresh.dom() =~= rest.dom().insert(now));
                match store.live(key, now) {
                    None => {
                        assert(rest =~= Map::<int, int>::empty());
                        let made = store.put(
                            key,
                            Slot {
                                content: Content::Ledger(Map::empty().insert(now, now)),
                                deadline: None,
                            },
                        );
                        assert(store.apply(remove.command, now) == Some((store, Some(0i64))));
                        assert(store.apply(add.command, now) == Some((made, Some(1i64))));
                        let last = made.put(
                            key,
                            Slot {
                                content: Content::Ledger(Map::empty().insert(now, now)),
                                deadline: until,
                            },
                        );
                        assert(made.apply(expire.command, now) == Some((last, Some(1i64))));
                        assert(Map::<int, int>::empty().insert(now, now) =~= fresh);
                        assert(last.slots =~= goal.slots);
                    },
                    Some(slot) => {
                        let gone = members.dom().len() - rest.dom().len();
                        if rest.dom().len() == 0 {
                            rest.dom().lemma_len0_is_empty();
                            assert(rest =~= Map::<int, int>::empty());
                            let cleared = store.without(key);
                            assert(store.apply(remove.command, now) == Some(
                                (cleared, Some(gone as i64)),
                            ));
                            let made = cleared.put(
                                key,
                                Slot {
                                    content: Content::Ledger(Map::empty().insert(now, now)),
                                    deadline: None,
                                },
                            );
                            assert(cleared.apply(add.command, now) == Some((made, Some(1i64))));
                            let last = made.put(
                                key,
                                Slot {
                                    content: Content::Ledger(Map::empty().insert(now, now)),
                                    deadline: until,
                                },
                            );
                            assert(made.apply(expire.command, now) == Some((last, Some(1i64))));
                            assert(Map::<int, int>::empty().insert(now, now) =~= fresh);
                            assert(last.slots =~= goal.slots);
                        } else {
                            let pruned = store.put(
                                key,
                                Slot { content: Content::Ledger(rest), deadline: slot.deadline },
                            );
                            assert(store.apply(remove.command, now) == Some(
                                (pruned, Some(gone as i64)),
                            ));
                            if fits(fresh.dom().len() as int) {
                                let made = pruned.put(
                                    key,
                                    Slot {
                                        content: Content::Ledger(fresh),
                                        deadline: slot.deadline,
                                    },
                                );
                                let novel: i64 = if rest.dom().contains(now) {
                                    0
                                } else {
                                    1
                                };
                                assert(pruned.apply(add.command, now) == Some(
                                    (made, Some(novel)),
                                ));
                                let last = made.put(
                                    key,
                                    Slot { content: Content::Ledger(fresh), deadline: until },
                                );
                                assert(made.apply(expire.command, now) == Some(
                                    (last, Some(1i64)),
                                ));
                                assert(last.slots =~= goal.slots);
                            } else {
                                assert(pruned.apply(add.command, now) is None);
                            }
                        }
                    },
                }
                if fits(fresh.dom().len() as int) {
                    assert(store.execute(second.request()->0, now) == (
                        goal,
                        Answer::Values(Seq::empty()),
                    ));
                    let last = second.advance(Answer::Values(Seq::empty()));
                    assert(last.stage == verdict(true));
                    assert(goal.well_formed());
                } else {
                    assert(store.execute(second.request()->0, now) == (
                        store,
                        Answer::Failed(Fault::Command),
                    ));
                }
            } else {
                assert(second.stage == verdict(false));
            }
        },
        None => {
            assert(store.execute(begun.request()->0, now) == (
                store,
                Answer::Failed(Fault::Command),
            ));
        },
    }
}

/// What a `fetch` comes to: the store, unchanged, and what is reported.
pub open spec fn fetched(plan: Plan, store: Store) -> (Store, Ending) {
    (
        store,
        match ledger_at(store, plan.key, plan.now_ms as int) {
            Some(members) => reported(members.dom().len() as u64),
            None => failed(),
        },
    )
}

/// Played against any store, the operation comes to what `fetched` says.
pub open spec fn fetches(progress: Progress) -> bool {
    forall|store: Store| #[trigger] progress.run(store) == fetched(progress.plan, store)
}

/// What a `fetch` reports, with one caller at a time: the number of entries
/// in the ledger, 0 where the key is absent; it fails with `Command` where the
/// key holds no sorted set. A fetch never changes the store.
pub proof fn fetch_effect(plan: Plan, store: Store)
    requires
        plan.valid(),
    ensures
        (Progress { plan, stage: Stage::SlidingLog(Phase::Fetch) }).run(store) == fetched(
            plan,
            store,
        ),
{
    let now = plan.now_ms as int;
    let begun = Progress { plan, stage: Stage::SlidingLog(Phase::Fetch) };
    reveal_with_fuel(Progress::run_for, 3);
    let count = Entry { command: Command::Cardinality { key: plan.key }, ignored: false };
    execute_one(store, false, count, now);
    match ledger_at(store, plan.key, now) {
        Some(members) => {
            let reply = Some(members.dom().len() as i64);
            assert(store.execute(begun.request()->0, now) == (store, Answer::Values(seq![reply])));
        },
        None => {
            assert(store.execute(begun.request()->0, now) == (
                store,
                Answer::Failed(Fault::Command),
            ));
        },
    }
}

/// A finite set that holds each of some distinct times holds at least as many
/// members as there are times.
proof fn holds_them_all(members: Set<int>, times: Seq<u64>)
    requires
        members.finite(),
        strictly_ascending(times),
        forall|i: int| 0 <= i < times.len() ==> members.contains(#[trigger] times[i] as int),
    ensures
        members.len() >= times.len(),
    decreases times.len(),
{
    if times.len() > 0 {
        let last = times.last();
        let head = times.drop_last();
        let rest = members.remove(last as int);
        assert(members.contains(times[times.len() - 1] as int));
        assert forall|i: int| 0 <= i < head.len() implies rest.contains(
            #[trigger] head[i] as int,
        ) by {
            assert(head[i] == times[i]);
            assert(times[i] < times[times.len() - 1]);
        }
        assert(strictly_ascending(head)) by {
            assert forall|i: int, j: int| 0 <= i < j < head.len() implies head[i] < head[j] by {
                assert(head[i] == times[i] && head[j] == times[j]);
            }
        }
        holds_them_all(rest, head);
    }
}

/// After a run of calls within one window's length that were all allowed,
/// the ledger holds the time of each of them and lives a window past the
/// last.
proof fn all_allowed(
    limit_per_sec: u64,
    prefix: Seq<char>,
    resource: Seq<char>,
    subject: Seq<char>,
    window_secs: u64,
    times: Seq<u64>,
    horizon: u64,
    store: Store,
)
    requires
        usable(limit_per_sec, window_secs),
        store.well_formed(),
        times.len() > 0,
        strictly_ascending(times),
        times.last() <= horizon,
        horizon - times[0] <= window_secs * 1000,
        forall|i: int|
            0 <= i < times.len() ==> replay(
                recording(limit_per_sec, prefix, resource, subject, window_secs),
                times,
                store,
            ).1[i] == allowed(),
    ensures
        ({
            let after = replay(
                recording(limit_per_sec, prefix, resource, subject, window_secs),
                times,
                store,
            ).0;
            let key = subject_key_of(prefix, resource, subject);
            &&& after.well_formed()
            &&& after.slots.dom().contains(key)
            &&& after.slots[key].deadline == Some(times.last() + window_secs * 1000)
            &&& after.slots[key].content is Ledger
            &&& fits(after.slots[key].content->Ledger_0.dom().len() as int)
            &&& forall|i: int|
                0 <= i < times.len() ==> after.slots[key].content->Ledger_0.dom().contains(
                    #[trigger] times[i] as int,
                ) && after.slots[key].content->Ledger_0[times[i] as int] == times[i]
        }),
    decreases times.len(),
{
    let begin = recording(limit_per_sec, prefix, resource, subject, window_secs);
    let key = subject_key_of(prefix, resource, subject);
    let head = times.drop_last();
    let last = times.last();
    assert(last == times[times.len() - 1]);
    let plan = plan_of(limit_per_sec, prefix, resource, subject, window_secs, last);
    replay_last(begin, times, store);
    let before = replay(begin, head, store).0;
    assert(begin(last).run(before).1 == allowed()) by {
        assert(replay(begin, times, store).1[times.len() - 1] == allowed());
    }
    if head.len() > 0 {
        assert forall|i: int| 0 <= i < head.len() implies replay(begin, head, store).1[i]
            == allowed() by {
            assert(replay(begin, times, store).1[i] == allowed());
        }
        assert(strictly_ascending(head)) by {
            assert forall|i: int, j: int| 0 <= i < j < head.len() implies head[i] < head[j] by {
                assert(head[i] == times[i] && head[j] == times[j]);
            }
        }
        assert(head.last() == times[times.len() - 2]);
        assert(head[0] == times[0]);
        all_allowed(limit_per_sec, prefix, resource, subject, window_secs, head, horizon, store);
        assert(before.live(key, last as int) == Some(before.slots[key]));
        record_effect(plan, before);
        let members = before.slots[key].content->Ledger_0;
        let after = inserted(plan, before);
        let fresh = after.slots[key].content->Ledger_0;
        assert forall|i: int| 0 <= i < times.len() implies fresh.dom().contains(
            #[trigger] times[i] as int,
        ) && fresh[times[i] as int] == times[i] by {
            if i < head.len() {
                assert(head[i] == times[i]);
                assert(times[0] <= times[i]) by {
                    if i > 0 {
                        assert(times[0] < times[i]);
                    }
                }
                assert(members.dom().contains(times[i] as int));
            }
        }
    } else {
        record_effect(plan, store);
    }
}

/// Within one window's length, a subject is allowed no more than the
/// capacity.
///
/// For calls of one subject at times of which each is later than the one
/// before, the last no more than a window after the first, one more than the
/// capacity holds: where the first `capacity` of them were all allowed, the
/// next one is refused. (Two calls in the same millisecond share one entry
/// of the ledger, so the times must differ.)
pub proof fn full_window_refuses(
    limit_per_sec: u64,
    prefix: Seq<char>,
    resource: Seq<char>,
    subject: Seq<char>,
    window_secs: u64,
    times: Seq<u64>,
    store: Store,
)
    requires
        usable(limit_per_sec, window_secs),
        store.well_formed(),
        times.len() == capacity_of(limit_per_sec as int, window_secs as int) + 1,
        strictly_ascending(times),
        times.last() - times[0] <= window_secs * 1000,
        forall|i: int|
            0 <= i < times.len() - 1 ==> replay(
                recording(limit_per_sec, prefix, resource, subject, window_secs),
                times,
                store,
            ).1[i] == allowed(),
    ensures
        replay(
            recording(limit_per_sec, prefix, resource, subject, window_secs),
            times,
            store,
        ).1.last() == denied(),
{
    let begin = recording(limit_per_sec, prefix, resource, subject, window_secs);
    let capacity = capacity_of(limit_per_sec as int, window_secs as int);
    assert(capacity >= 1) by (nonlinear_arith)
        requires
            capacity == limit_per_sec * window_secs,
            limit_per_sec >= 1,
            window_secs >= 1,
    ;
    let key = subject_key_of(prefix, resource, subject);
    let head = times.drop_last();
    let last = times.last();
    assert(last == times[times.len() - 1]);
    let plan = plan_of(limit_per_sec, prefix, resource, subject, window_secs, last);
    replay_last(begin, times, store);
    let before = replay(begin, head, store).0;
    assert forall|i: int| 0 <= i < head.len() implies replay(begin, head, store).1[i]
        == allowed() by {
        assert(replay(begin, times, store).1[i] == allowed());
    }
    assert(strictly_ascending(head)) by {
        assert forall|i: int, j: int| 0 <= i < j < head.len() implies head[i] < head[j] by {
            assert(head[i] == times[i] && head[j] == times[j]);
        }
    }
    assert(head.last() == times[times.len() - 2]);
    assert(head[0] == times[0]);
    assert(times[times.len() - 2] < times[times.len() - 1]);
    all_allowed(limit_per_sec, prefix, resource, subject, window_secs, head, last, store);
    assert(before.live(key, last as int) == Some(before.slots[key]));
    let members = before.slots[key].content->Ledger_0;
    holds_them_all(members.dom(), head);
    record_effect(plan, before);
}

/// The ledger at `key`, if there is one, holds no more entries than
/// `capacity`.
pub open spec fn bounded(store: Store, key: Seq<char>, capacity: int) -> bool {
    store.slots.dom().contains(key) ==> match store.slots[key].content {
        Content::Ledger(members) => members.dom().len() <= capacity,
        _ => true,
    }
}

/// No sequence of `record` calls makes the ledger larger than the capacity.
///
/// From a store whose ledger is within the capacity, after calls of the
/// subject at any times whatever, the ledger is still within the capacity.
pub proof fn ledger_stays_within_capacity(
    limit_per_sec: u64,
    prefix: Seq<char>,
    resource: Seq<char>,
    subject: Seq<char>,
    window_secs: u64,
    times: Seq<u64>,
    store: Store,
)
    requires
        usable(limit_per_sec, window_secs),
        store.well_formed(),
        bounded(
            store,
            subject_key_of(prefix, resource, subject),
            capacity_of(limit_per_sec as int, window_secs as int),
        ),
    ensures
        ({
            let after = replay(
                recording(limit_per_sec, prefix, resource, subject, window_secs),
                times,
                store,
            ).0;
            &&& after.well_formed()
            &&& bounded(
                after,
                subject_key_of(prefix, resource, subject),
                capacity_of(limit_per_sec as int, window_secs as int),
            )
        }),
    decreases times.len(),
{
    if times.len() > 0 {
        let begin = recording(limit_per_sec, prefix, resource, subject, window_secs);
        ledger_stays_within_capacity(
            limit_per_sec,
            prefix,
            resource,
            subject,
            window_secs,
            times.drop_last(),
            store,
        );
        replay_last(begin, times, store);
        let before = replay(begin, times.drop_last(), store).0;
        let last = times.last();
        let plan = plan_of(limit_per_sec, prefix, resource, subject, window_secs, last);
        record_effect(plan, before);
        match ledger_at(before, plan.key, last as int) {
            Some(members) => {
                assert(members.dom().finite()) by {
                    if before.live(plan.key, last as int) is Some {
                        assert(before.slots.dom().contains(plan.key));
                    }
                }
                let bound = cutoff_of(last as int, window_secs as int);
                kept_is_part(members, bound);
                assert(renewed(members, last as int, window_secs as int).dom() =~= kept(
                    members,
                    bound,
                ).dom().insert(last as int));
            },
            None => {},
        }
    }
}

/// The time of the last call that was allowed, if any was.
pub open spec fn last_allowed(times: Seq<u64>, endings: Seq<Ending>) -> Option<u64>
    decreases times.len(),
{
    if times.len() == 0 || endings.len() != times.len() {
        None
    } else if endings.last() == allowed() {
        Some(times.last())
    } else {
        last_allowed(times.drop_last(), endings.drop_last())
    }
}

/// The number of calls that were allowed at a time not before `bound`.
pub open spec fn allowed_since(times: Seq<u64>, endings: Seq<Ending>, bound: int) -> nat
    decreases times.len(),
{
    if times.len() == 0 || endings.len() != times.len() {
        0
    } else {
        allowed_since(times.drop_last(), endings.drop_last(), bound) + if endings.last()
            == allowed() && times.last() >= bound {
            1nat
        } else {
            0nat
        }
    }
}

/// The times, not before `bound`, of the calls that were allowed.
pub open spec fn allowed_times(times: Seq<u64>, endings: Seq<Ending>, bound: int) -> Set<int> {
    Set::new(
        |time: int|
            exists|i: int|
                0 <= i < times.len() && i < endings.len() && #[trigger] times[i] == time
                    && endings[i] == allowed() && time >= bound,
    )
}

/// With one more call, the allowed times are those before, and the call's
/// own time if it was allowed and not before the bound.
proof fn allowed_times_grow(times: Seq<u64>, endings: Seq<Ending>, bound: int)
    requires
        times.len() > 0,
        endings.len() == times.len(),
    ensures
        allowed_times(times, endings, bound) =~= if endings.last() == allowed() && times.last()
            >= bound {
            allowed_times(times.drop_last(), endings.drop_last(), bound).insert(
                times.last() as int,
            )
        } else {
            allowed_times(times.drop_last(), endings.drop_last(), bound)
        },
{
    let head = times.drop_last();
    let early = endings.drop_last();
    let whole = allowed_times(times, endings, bound);
    let part = allowed_times(head, early, bound);
    let n = times.len() - 1;
    assert forall|time: int| part.contains(time) implies whole.contains(time) by {
        let i = choose|i: int|
            0 <= i < head.len() && i < early.len() && #[trigger] head[i] == time && early[i]
                == allowed() && time >= bound;
        assert(times[i] == time && endings[i] == allowed());
    }
    assert forall|time: int| whole.contains(time) implies part.contains(time) || (time
        == times.last() && endings.last() == allowed() && times.last() >= bound) by {
        let i = choose|i: int|
            0 <= i < times.len() && i < endings.len() && #[trigger] times[i] == time && endings[i]
                == allowed() && time >= bound;
        if i < n {
            assert(head[i] == time && early[i] == allowed());
        }
    }
    if endings.last() == allowed() && times.last() >= bound {
        assert(times[n] == times.last() && endings[n] == allowed());
        assert(whole.contains(times.last() as int));
    }
}

/// For calls at distinct times, the allowed times are as many as the allowed
/// calls, and all of them lie before any later time.
proof fn allowed_times_count(times: Seq<u64>, endings: Seq<Ending>, bound: int)
    requires
        strictly_ascending(times),
        endings.len() == times.len(),
    ensures
        allowed_times(times, endings, bound).finite(),
        allowed_times(times, endings, bound).len() == allowed_since(times, endings, bound),
        forall|time: int| #[trigger]
            allowed_times(times, endings, bound).contains(time) ==> times.len() > 0 && time
                <= times.last(),
    decreases times.len(),
{
    if times.len() == 0 {
        assert(allowed_times(times, endings, bound) =~= Set::empty());
    } else {
        let head = times.drop_last();
        let early = endings.drop_last();
        assert(strictly_ascending(head)) by {
            assert forall|i: int, j: int| 0 <= i < j < head.len() implies head[i] < head[j] by {
                assert(head[i] == times[i] && head[j] == times[j]);
            }
        }
        allowed_times_count(head, early, bound);
        allowed_times_grow(times, endings, bound);
        let part = allowed_times(head, early, bound);
        if head.len() > 0 {
            assert(head.last() == times[times.len() - 2]);
            assert(times[times.len() - 2] < times[times.len() - 1]);
        }
        assert(!part.contains(times.last() as int)) by {
            if part.contains(times.last() as int) {
                assert(head.len() > 0 && times.last() <= head.last());
            }
        }
        assert forall|time: int| #[trigger]
            allowed_times(times, endings, bound).contains(time) implies time
            <= times.last() by {
            if part.contains(time) {
                assert(time <= head.last());
            }
        }
    }
}

/// The ledger holds the times of the allowed calls that are not older than one
/// window before the last allowed call, each scored with itself, and expires
/// one window after that call. Before any call was allowed there is no ledger.
pub open spec fn tracks(
    store: Store,
    key: Seq<char>,
    times: Seq<u64>,
    endings: Seq<Ending>,
    window_secs: u64,
    origin: int,
) -> bool {
    match last_allowed(times, endings) {
        None => forall|now: int| now >= origin ==> store.live(key, now) is None,
        Some(latest) => {
            &&& store.slots.dom().contains(key)
            &&& store.slots[key].deadline == Some(latest + window_secs * 1000)
            &&& store.slots[key].content is Ledger
            &&& store.slots[key].content->Ledger_0.dom() =~= allowed_times(
                times,
                endings,
                cutoff_of(latest as int, window_secs as int),
            )
            &&& fits(store.slots[key].content->Ledger_0.dom().len() as int)
            &&& forall|time: int|
                store.slots[key].content->Ledger_0.dom().contains(time)
                    ==> #[trigger] store.slots[key].content->Ledger_0[time] == time
        },
    }
}

/// The last allowed call is one of the calls, and no allowed call is later.
proof fn last_allowed_is_latest(times: Seq<u64>, endings: Seq<Ending>)
    requires
        ascending(times),
        endings.len() == times.len(),
    ensures
        match last_allowed(times, endings) {
            Some(latest) => times.len() > 0 && times[0] <= latest <= times.last() && forall|
                i: int,
            |
                0 <= i < times.len() && endings[i] == allowed() ==> #[trigger] times[i] <= latest,
            None => forall|i: int| 0 <= i < times.len() ==> #[trigger] endings[i] != allowed(),
        },
    decreases times.len(),
{
    if times.len() > 0 {
        let head = times.drop_last();
        let early = endings.drop_last();
        let n = times.len() - 1;
        assert(times.last() == times[n] && endings.last() == endings[n]);
        assert(ascending(head)) by {
            assert forall|i: int, j: int| 0 <= i <= j < head.len() implies head[i] <= head[j] by {
                assert(head[i] == times[i] && head[j] == times[j]);
            }
        }
        last_allowed_is_latest(head, early);
        if endings.last() == allowed() {
            assert forall|i: int| 0 <= i < times.len() && endings[i] == allowed() implies
                #[trigger] times[i] <= times.last() by {}
        } else {
            match last_allowed(head, early) {
                Some(latest) => {
                    assert(head[0] == times[0]);
                    assert(head.last() == times[n - 1]);
                    assert forall|i: int|
                        0 <= i < times.len() && endings[i] == allowed() implies #[trigger] times[i]
                        <= latest by {
                        assert(i < n);
                        assert(head[i] == times[i] && early[i] == endings[i]);
                    }
                },
                None => {
                    assert forall|i: int| 0 <= i < times.len() implies #[trigger] endings[i]
                        != allowed() by {
                        if i < n {
                            assert(early[i] == endings[i]);
                        }
                    }
                },
            }
        }
    }
}

/// Strictly ascending times never go back.
proof fn strictly_is_ascending(times: Seq<u64>)
    requires
        strictly_ascending(times),
    ensures
        ascending(times),
{
    assert forall|i: int, j: int| 0 <= i <= j < times.len() implies times[i] <= times[j] by {
        if i < j {
            assert(times[i] < times[j]);
        }
    }
}

/// Through any history of calls at distinct times, from a store without a
/// ledger, the ledger tracks the allowed calls.
proof fn ledger_tracks_calls(
    limit_per_sec: u64,
    prefix: Seq<char>,
    resource: Seq<char>,
    subject: Seq<char>,
    window_secs: u64,
    times: Seq<u64>,
    origin: int,
    store: Store,
)
    requires
        usable(limit_per_sec, window_secs),
        store.well_formed(),
        strictly_ascending(times),
        forall|i: int| 0 <= i < times.len() ==> origin <= #[trigger] times[i],
        forall|now: int|
            now >= origin ==> store.live(subject_key_of(prefix, resource, subject), now) is None,
    ensures
        ({
            let (after, endings) = replay(
                recording(limit_per_sec, prefix, resource, subject, window_secs),
                times,
                store,
            );
            &&& after.well_formed()
            &&& endings.len() == times.len()
            &&& tracks(
                after,
                subject_key_of(prefix, resource, subject),
                times,
                endings,
                window_secs,
                origin,
            )
        }),
    decreases times.len(),
{
    let begin = recording(limit_per_sec, prefix, resource, subject, window_secs);
    let key = subject_key_of(prefix, resource, subject);
    if times.len() > 0 {
        let capacity = capacity_of(limit_per_sec as int, window_secs as int);
        assert(capacity >= 1) by (nonlinear_arith)
            requires
                capacity == limit_per_sec * window_secs,
                limit_per_sec >= 1,
                window_secs >= 1,
        ;
        let head = times.drop_last();
        let last = times.last();
        let n = times.len() - 1;
        assert(last == times[n]);
        assert(strictly_ascending(head)) by {
            assert forall|i: int, j: int| 0 <= i < j < head.len() implies head[i] < head[j] by {
                assert(head[i] == times[i] && head[j] == times[j]);
            }
        }
        assert forall|i: int| 0 <= i < head.len() implies origin <= #[trigger] head[i] by {
            assert(head[i] == times[i]);
        }
        ledger_tracks_calls(
            limit_per_sec,
            prefix,
            resource,
            subject,
            window_secs,
            head,
            origin,
            store,
        );
        replay_last(begin, times, store);
        let (before, early) = replay(begin, head, store);
        let plan = plan_of(limit_per_sec, prefix, resource, subject, window_secs, last);
        let (after, ending) = begin(last).run(before);
        let endings = early.push(ending);
        assert(endings.drop_last() =~= early);
        assert(endings.last() == ending);
        record_effect(plan, before);
        strictly_is_ascending(head);
        last_allowed_is_latest(head, early);
        let span = window_secs * 1000;
        let bound = cutoff_of(last as int, window_secs as int);
        allowed_times_grow(times, endings, bound);
        allowed_times_count(head, early, bound);
        let members = before.ledger(key, last as int)->0;
        if ending == allowed() {
            let fresh = renewed(members, last as int, window_secs as int);
            let target = allowed_times(times, endings, bound);
            let part = allowed_times(head, early, bound);
            match last_allowed(head, early) {
                None => {
                    assert(members =~= Map::<int, int>::empty());
                    assert(part =~= Set::empty()) by {
                        assert forall|time: int| !part.contains(time) by {
                            if part.contains(time) {
                                let i = choose|i: int|
                                    0 <= i < head.len() && i < early.len() && #[trigger] head[i]
                                        == time && early[i] == allowed() && time >= bound;
                                assert(early[i] != allowed());
                            }
                        }
                    }
                    assert(fresh.dom() =~= target);
                },
                Some(latest) => {
                    let held = before.slots[key].content->Ledger_0;
                    let old_bound = cutoff_of(latest as int, window_secs as int);
                    assert(head.last() == times[n - 1]);
                    assert(times[n - 1] < times[n]);
                    if last <= latest + span {
                        assert(before.live(key, last as int) == Some(before.slots[key]));
                        assert(members == held);
                        assert(kept(held, bound).dom() =~= part) by {
                            assert forall|time: int| kept(held, bound).dom().contains(
                                time,
                            ) implies part.contains(time) by {
                                assert(held[time] == time);
                                let i = choose|i: int|
                                    0 <= i < head.len() && i < early.len() && #[trigger] head[i]
                                        == time && early[i] == allowed() && time >= old_bound;
                                assert(head[i] == time && early[i] == allowed() && time >= bound);
                            }
                            assert forall|time: int| part.contains(time) implies kept(
                                held,
                                bound,
                            ).dom().contains(time) by {
                                let i = choose|i: int|
                                    0 <= i < head.len() && i < early.len() && #[trigger] head[i]
                                        == time && early[i] == allowed() && time >= bound;
                                assert(head[i] == time && early[i] == allowed() && time
                                    >= old_bound);
                                assert(held.dom().contains(time));
                                assert(held[time] == time);
                            }
                        }
                    } else {
                        assert(before.live(key, last as int) is None);
                        assert(members =~= Map::<int, int>::empty());
                        assert(part =~= Set::empty()) by {
                            assert forall|time: int| !part.contains(time) by {
                                if part.contains(time) {
                                    let i = choose|i: int|
                                        0 <= i < head.len() && i < early.len()
                                            && #[trigger] head[i] == time && early[i] == allowed()
                                            && time >= bound;
                                    assert(head[i] <= latest);
                                }
                            }
                        }
                    }
                    assert(fresh.dom() =~= target);
                },
            }
            assert(last_allowed(times, endings) == Some(last));
            assert(after == inserted(plan, before));
            assert(after.slots[key].content->Ledger_0 == fresh);
            assert forall|time: int| fresh.dom().contains(time) implies #[trigger] fresh[time]
                == time by {
                if time != last {
                    assert(kept(members, bound).dom().contains(time));
                    assert(members.dom().contains(time));
                    if last_allowed(head, early) is Some {
                        assert(before.slots[key].content->Ledger_0[time] == time);
                    }
                }
            }
        } else {
            assert(after == before);
            assert(last_allowed(times, endings) == last_allowed(head, early));
            match last_allowed(head, early) {
                None => {},
                Some(latest) => {
                    let old_bound = cutoff_of(latest as int, window_secs as int);
                    allowed_times_grow(times, endings, old_bound);
                },
            }
        }
    }
}

/// A `fetch` right after an allowed `record` reports the number of calls
/// within the trailing window.
///
/// For calls of a subject at times of which each is later than the one before,
/// from a store that holds no ledger of the subject: where the last call was
/// allowed, a `fetch` at that same time reports the number of allowed calls
/// that are not older than one window, wherever the window's bounds fall.
/// (A refused call adds nothing to the ledger, and two calls in the same
/// millisecond would share one entry.)
pub proof fn fetch_counts_recent_calls(
    limit_per_sec: u64,
    prefix: Seq<char>,
    resource: Seq<char>,
    subject: Seq<char>,
    window_secs: u64,
    times: Seq<u64>,
    store: Store,
)
    requires
        usable(limit_per_sec, window_secs),
        store.well_formed(),
        times.len() > 0,
        strictly_ascending(times),
        forall|now: int|
            now >= times[0] ==> store.live(subject_key_of(prefix, resource, subject), now)
                is None,
        replay(
            recording(limit_per_sec, prefix, resource, subject, window_secs),
            times,
            store,
        ).1.last() == allowed(),
    ensures
        ({
            let (after, endings) = replay(
                recording(limit_per_sec, prefix, resource, subject, window_secs),
                times,
                store,
            );
            fetching(prefix, resource, subject, times.last()).run(after).1 == reported(
                allowed_since(times, endings, times.last() - window_secs * 1000) as u64,
            )
        }),
{
    let begin = recording(limit_per_sec, prefix, resource, subject, window_secs);
    let key = subject_key_of(prefix, resource, subject);
    let last = times.last();
    assert forall|i: int| 0 <= i < times.len() implies times[0] <= #[trigger] times[i] by {
        if i > 0 {
            assert(times[0] < times[i]);
        }
    }
    ledger_tracks_calls(
        limit_per_sec,
        prefix,
        resource,
        subject,
        window_secs,
        times,
        times[0] as int,
        store,
    );
    let (after, endings) = replay(begin, times, store);
    assert(last_allowed(times, endings) == Some(last));
    let bound = cutoff_of(last as int, window_secs as int);
    allowed_times_count(times, endings, bound);
    allowed_since_below_zero(times, endings, last - window_secs * 1000);
    fetch_effect(fetch_plan_of(prefix, resource, subject, last), after);
}

/// What a `fetch` reports at any time after a history of calls.
///
/// For calls of a subject at times of which each is later than the one before,
/// from a store that holds no ledger of the subject, and a `fetch` at or after
/// the last of them with no call in between: the fetch reports the number of
/// allowed calls that were not older than one window when the last call was
/// allowed, for as long as the ledger lives, which is one window from that
/// call; after that, and where no call was allowed, it reports 0. A fetch does
/// not prune: entries that have grown old since the last allowed call are
/// still counted.
pub proof fn fetch_reports_the_ledger(
    limit_per_sec: u64,
    prefix: Seq<char>,
    resource: Seq<char>,
    subject: Seq<char>,
    window_secs: u64,
    times: Seq<u64>,
    later: u64,
    store: Store,
)
    requires
        usable(limit_per_sec, window_secs),
        store.well_formed(),
        times.len() > 0,
        strictly_ascending(times),
        times.last() <= later,
        forall|now: int|
            now >= times[0] ==> store.live(subject_key_of(prefix, resource, subject), now)
                is None,
    ensures
        ({
            let (after, endings) = replay(
                recording(limit_per_sec, prefix, resource, subject, window_secs),
                times,
                store,
            );
            fetching(prefix, resource, subject, later).run(after).1 == match last_allowed(
                times,
                endings,
            ) {
                Some(latest) => if later <= latest + window_secs * 1000 {
                    reported(
                        allowed_since(times, endings, latest - window_secs * 1000) as u64,
                    )
                } else {
                    reported(0)
                },
                None => reported(0),
            }
        }),
{
    let begin = recording(limit_per_sec, prefix, resource, subject, window_secs);
    let key = subject_key_of(prefix, resource, subject);
    assert forall|i: int| 0 <= i < times.len() implies times[0] <= #[trigger] times[i] by {
        if i > 0 {
            assert(times[0] < times[i]);
        }
    }
    ledger_tracks_calls(
        limit_per_sec,
        prefix,
        resource,
        subject,
        window_secs,
        times,
        times[0] as int,
        store,
    );
    let (after, endings) = replay(begin, times, store);
    assert(times.last() == times[times.len() - 1]);
    fetch_effect(fetch_plan_of(prefix, resource, subject, later), after);
    match last_allowed(times, endings) {
        Some(latest) => {
            let bound = cutoff_of(latest as int, window_secs as int);
            allowed_times_count(times, endings, bound);
            allowed_since_below_zero(times, endings, latest - window_secs * 1000);
        },
        None => {
            assert(after.live(key, later as int) is None);
            assert(Map::<int, int>::empty().dom().len() == 0);
        },
    }
}

/// Times are not negative: a bound below zero counts the same calls as zero.
proof fn allowed_since_below_zero(times: Seq<u64>, endings: Seq<Ending>, bound: int)
    ensures
        bound <= 0 ==> allowed_since(times, endings, bound) == allowed_since(times, endings, 0),
    decreases times.len(),
{
    if times.len() > 0 && endings.len() == times.len() {
        allowed_since_below_zero(times.drop_last(), endings.drop_last(), bound);
    }
}

} // verus!
