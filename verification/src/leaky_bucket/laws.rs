//! Laws of the leaky bucket: what its operations do to the store, and the
//! bounds of the queue.

use vstd::prelude::*;
use crate::clock::{capacity_of, epoch_bounds, epoch_of, secs_of, usable};
use crate::command::{Command, Entry};
use crate::error::{Fault, LimiterError};
use crate::exchange::{malformed, verdict, Outcome, Plan, Progress, Stage};
use crate::history::{allowed, ascending, denied, failed, replay, replay_last, reported, Ending};
use crate::keys::subject_key_of;
use crate::store::{execute_one, execute_two, fits, trimmed, Answer, Content, Slot, Store};
use crate::leaky_bucket::{
    after_scan, gathered, inside, is_run, none_inside, plan_of, readable, request, run_of,
    trim_start, trim_stop, Phase,
};

verus! {

/// Where a `record` of a subject starts at each time.
pub open spec fn recording(
    limit_per_sec: u64,
    prefix: Seq<char>,
    resource: Seq<char>,
    subject: Seq<char>,
    window_secs: u64,
) -> spec_fn(u64) -> Progress {
    |now_ms: u64|
        Progress {
            plan: plan_of(limit_per_sec, prefix, resource, subject, window_secs, now_ms),
            stage: Stage::LeakyBucket(Phase::Length),
        }
}

/// Where a `fetch` of a subject starts at each time.
pub open spec fn fetching(
    limit_per_sec: u64,
    prefix: Seq<char>,
    resource: Seq<char>,
    subject: Seq<char>,
    window_secs: u64,
) -> spec_fn(u64) -> Progress {
    |now_ms: u64|
        Progress {
            plan: plan_of(limit_per_sec, prefix, resource, subject, window_secs, now_ms),
            stage: Stage::LeakyBucket(Phase::Fetch),
        }
}

/// The queue as the store holds it at the plan's time, empty where the key is
/// absent; `None` where the key holds anything but a list whose length a
/// reply can carry.
pub open spec fn queue_in(plan: Plan, store: Store) -> Option<Seq<int>> {
    match store.queue(plan.key, plan.now_ms as int) {
        Some(items) => if fits(items.len() as int) {
            Some(items)
        } else {
            None
        },
        None => None,
    }
}

/// The store after an admitted call: the arrival time, in seconds, appended
/// to the queue, which expires one window from now.
pub open spec fn pushed(plan: Plan, store: Store) -> Store {
    store.put(
        plan.key,
        Slot {
            content: Content::Queue(
                store.queue(plan.key, plan.now_ms as int)->0.push(secs_of(plan.now_ms as int)),
            ),
            deadline: Some(plan.now_ms + plan.window * 1000),
        },
    )
}

/// What a `record` comes to: the store afterwards and how the call ends.
pub open spec fn recorded(plan: Plan, store: Store) -> (Store, Ending) {
    match queue_in(plan, store) {
        Some(items) => if items.len() >= plan.capacity {
            (store, denied())
        } else if items.len() < i64::MAX {
            (pushed(plan, store), allowed())
        } else {
            (store, failed())
        },
        None => (store, failed()),
    }
}

/// Played against any store, the operation comes to what `recorded` says.
pub open spec fn records(progress: Progress) -> bool {
    forall|store: Store| #[trigger] progress.run(store) == recorded(progress.plan, store)
}

/// What a `record` does, with one caller at a time.
///
/// Where the queue is shorter than the capacity the call is allowed, its
/// arrival time is appended and the queue expires one window from now. Where
/// the queue is as long as the capacity or longer the call is refused. Where
/// the key holds no list the call fails with `Command`. A call that is not
/// allowed leaves the store as it was.
pub proof fn record_effect(plan: Plan, store: Store)
    requires
        plan.valid(),
    ensures
        (Progress { plan, stage: Stage::LeakyBucket(Phase::Length) }).run(store) == recorded(
            plan,
            store,
        ),
{
    let now = plan.now_ms as int;
    let key = plan.key;
    let begun = Progress { plan, stage: Stage::LeakyBucket(Phase::Length) };
    reveal_with_fuel(Progress::run_for, 4);
    let length = Entry { command: Command::Length { key }, ignored: false };
    let push = Entry {
        command: Command::PushTail { key, value: secs_of(now) },
        ignored: false,
    };
    let expire = Entry {
        command: Command::Expire { key, seconds: plan.window as int },
        ignored: true,
    };
    execute_one(store, true, length, now);
    match queue_in(plan, store) {
        Some(items) => {
            let reply = Some(items.len() as i64);
            assert(store.execute(begun.request()->0, now) == (store, Answer::Values(seq![reply])));
            let second = begun.advance(Answer::Values(seq![reply]));
            if items.len() < plan.capacity {
                assert(second.stage == Stage::LeakyBucket(Phase::Push));
                execute_two(store, true, push, expire, now);
                if items.len() < i64::MAX {
                    let deadline = match store.live(key, now) {
                        Some(slot) => slot.deadline,
                        None => None,
                    };
                    let longer = items.push(secs_of(now));
                    assert(Seq::<int>::empty().push(secs_of(now)) =~= seq![secs_of(now)]);
                    let appended = store.put(
                        key,
                        Slot { content: Content::Queue(longer), deadline },
                    );
                    let renewed = appended.put(
                        key,
                        Slot {
                            content: Content::Queue(longer),
                            deadline: Some(now + plan.window * 1000),
                        },
                    );
                    assert(renewed.slots =~= pushed(plan, store).slots);
                    assert(store.execute(second.request()->0, now) == (
                        renewed,
                        Answer::Values(seq![Some(longer.len() as i64)]),
                    ));
                    let last = second.advance(Answer::Values(seq![Some(longer.len() as i64)]));
                    assert(last.stage == verdict(true));
                } else {
                    assert(store.execute(second.request()->0, now) == (
                        store,
                        Answer::Failed(Fault::Command),
                    ));
                }
            } else {
                assert(second.stage == verdict(false));
            }
        },
        None => {
            assert(store.execute(begun.request()->0, now) == (
                store,
                Answer::Failed(Fault::Command),
            ));
        },
    }
}

/// What a `fetch` comes to: the store, unchanged, and what is reported.
pub open spec fn fetched(plan: Plan, store: Store) -> (Store, Ending) {
    (
        store,
        match queue_in(plan, store) {
            Some(items) => reported(items.len() as u64),
            None => failed(),
        },
    )
}

/// Played against any store, the operation comes to what `fetched` says.
pub open spec fn fetches(progress: Progress) -> bool {
    forall|store: Store| #[trigger] progress.run(store) == fetched(progress.plan, store)
}

/// What a `fetch` reports, with one caller at a time: the length of the
/// queue, 0 where the key is absent; it fails with `Command` where the key
/// holds no list. A fetch never changes the store.
pub proof fn fetch_effect(plan: Plan, store: Store)
    requires
        plan.valid(),
    ensures
        (Progress { plan, stage: Stage::LeakyBucket(Phase::Fetch) }).run(store) == fetched(
            plan,
            store,
        ),
{
    let now = plan.now_ms as int;
    let begun = Progress { plan, stage: Stage::LeakyBucket(Phase::Fetch) };
    reveal_with_fuel(Progress::run_for, 3);
    let length = Entry { command: Command::Length { key: plan.key }, ignored: false };
    execute_one(store, true, length, now);
    match queue_in(plan, store) {
        Some(items) => {
            let reply = Some(items.len() as i64);
            assert(store.execute(begun.request()->0, now) == (store, Answer::Values(seq![reply])));
        },
        None => {
            assert(store.execute(begun.request()->0, now) == (
                store,
                Answer::Failed(Fault::Command),
            ));
        },
    }
}

/// The markers of the window that a leak step at the plan's time keeps.
pub open spec fn current(plan: Plan) -> spec_fn(int) -> bool {
    |marker: int| trim_start(plan) <= marker < trim_stop(plan)
}

/// The store after a leak step: of a live queue the markers of the current
/// window are kept, in their order, and a queue left empty is removed; the
/// queue's deadline and every other key stay as they were.
pub open spec fn leaked(plan: Plan, store: Store) -> Store {
    match store.live(plan.key, plan.now_ms as int) {
        Some(slot) => {
            let rest = slot.content->Queue_0.filter(current(plan));
            if rest.len() == 0 {
                store.without(plan.key)
            } else {
                store.put(plan.key, Slot { content: Content::Queue(rest), deadline: slot.deadline })
            }
        },
        None => store,
    }
}

/// A leak step can work on the queue: the key holds a list of numbers, or
/// nothing; the list is no longer than a position can say; and its markers of
/// the current window lie together.
pub open spec fn leakable(plan: Plan, store: Store) -> bool {
    match store.listing(plan.key, plan.now_ms as int) {
        Some(values) => values.len() <= isize::MAX && values.len() <= i64::MAX && gathered(
            values,
            trim_start(plan),
            trim_stop(plan),
        ),
        None => false,
    }
}

/// What a leak step comes to: the store afterwards and how the step ends.
pub open spec fn consumed(plan: Plan, store: Store) -> (Store, Ending) {
    if leakable(plan, store) {
        (leaked(plan, store), Some(Ok::<Outcome, LimiterError>(Outcome::Drained)))
    } else {
        (store, failed())
    }
}

/// Played against any store, the operation comes to what `consumed` says.
pub open spec fn consumes(progress: Progress) -> bool {
    forall|store: Store| #[trigger] progress.run(store) == consumed(progress.plan, store)
}

/// Where the elements that satisfy a condition are exactly those at the
/// positions `from` to `to` (none, where `to` is `from - 1`), filtering by the
/// condition leaves that stretch.
pub proof fn filter_of_run(items: Seq<int>, keep: spec_fn(int) -> bool, from: int, to: int)
    requires
        0 <= from <= to + 1 <= items.len(),
        forall|i: int| 0 <= i < items.len() ==> (keep(#[trigger] items[i]) <==> from <= i <= to),
    ensures
        items.filter(keep) == items.subrange(from, to + 1),
    decreases items.len(),
{
    reveal(Seq::filter);
    if items.len() == 0 {
        assert(items.subrange(from, to + 1) =~= items.filter(keep));
    } else {
        let head = items.drop_last();
        let n = items.len() - 1;
        assert(items.last() == items[n]);
        if from > to {
            assert forall|i: int| 0 <= i < head.len() implies (keep(#[trigger] head[i]) <==> 0 <= i
                <= -1) by {
                assert(head[i] == items[i]);
            }
            filter_of_run(head, keep, 0, -1);
            assert(head.subrange(0, 0) =~= items.subrange(from, to + 1));
        } else if to == n {
            assert forall|i: int| 0 <= i < head.len() implies (keep(#[trigger] head[i]) <==> from
                <= i <= to - 1) by {
                assert(head[i] == items[i]);
            }
            filter_of_run(head, keep, from, to - 1);
            assert(head.subrange(from, to).push(items[n]) =~= items.subrange(from, to + 1));
        } else {
            assert forall|i: int| 0 <= i < head.len() implies (keep(#[trigger] head[i]) <==> from
                <= i <= to) by {
                assert(head[i] == items[i]);
            }
            filter_of_run(head, keep, from, to);
            assert(head.subrange(from, to + 1) =~= items.subrange(from, to + 1));
        }
    }
}

/// What a leak step does, with one caller at a time: it reads the queue and
/// trims it to the markers of the current window, which lie together in a
/// queue that was appended to in the order of time. The key is removed where
/// no marker is left. Where the key holds no list of numbers, or the markers
/// of the current window do not lie together, the step fails with `Command`
/// and changes nothing.
pub proof fn consume_effect(plan: Plan, store: Store)
    requires
        plan.valid(),
    ensures
        (Progress { plan, stage: Stage::LeakyBucket(Phase::Scan) }).run(store) == consumed(
            plan,
            store,
        ),
{
    let now = plan.now_ms as int;
    let key = plan.key;
    let lo = trim_start(plan);
    let hi = trim_stop(plan);
    let begun = Progress { plan, stage: Stage::LeakyBucket(Phase::Scan) };
    reveal_with_fuel(Progress::run_for, 4);
    let scan = Entry { command: Command::Items { key }, ignored: false };
    execute_one(store, false, scan, now);
    match store.listing(key, now) {
        None => {
            assert(store.execute(begun.request()->0, now) == (
                store,
                Answer::Failed(Fault::Command),
            ));
        },
        Some(values) => {
            let items = store.queue(key, now)->0;
            assert(Seq::<Option<i64>>::empty() + values =~= values);
            assert(store.execute(begun.request()->0, now) == (store, Answer::Values(values)));
            let second = begun.advance(Answer::Values(values));
            assert(second.stage == after_scan(plan, values));
            assert(readable(values));
            assert forall|i: int| 0 <= i < items.len() implies (inside(
                #[trigger] values[i],
                lo,
                hi,
            ) <==> current(plan)(items[i])) by {}
            if leakable(plan, store) {
                if none_inside(values, lo, hi) {
                    let trim = Entry {
                        command: Command::Trim { key, start: 1, stop: 0 },
                        ignored: true,
                    };
                    execute_one(store, false, trim, now);
                    assert forall|i: int| 0 <= i < items.len() implies (current(plan)(
                        #[trigger] items[i],
                    ) <==> 0 <= i <= -1) by {
                        assert(!inside(values[i], lo, hi));
                    }
                    filter_of_run(items, current(plan), 0, -1);
                    assert(items.subrange(0, 0) =~= Seq::<int>::empty());
                    assert(trimmed(items, 1, 0) =~= Seq::<int>::empty());
                    assert(store.execute(second.request()->0, now) == (
                        leaked(plan, store),
                        Answer::Values(Seq::empty()),
                    ));
                } else {
                    let (from, to) = run_of(values, lo, hi);
                    let stop = if to == values.len() - 1 {
                        -1int
                    } else {
                        to
                    };
                    let trim = Entry {
                        command: Command::Trim { key, start: from, stop },
                        ignored: true,
                    };
                    execute_one(store, false, trim, now);
                    assert forall|i: int| 0 <= i < items.len() implies (current(plan)(
                        #[trigger] items[i],
                    ) <==> from <= i <= to) by {
                        assert(inside(values[i], lo, hi) <==> from <= i <= to);
                    }
                    filter_of_run(items, current(plan), from, to);
                    assert(trimmed(items, from, stop) =~= items.subrange(from, to + 1));
                    assert(store.live(key, now) is Some);
                    assert(store.execute(second.request()->0, now) == (
                        leaked(plan, store),
                        Answer::Values(Seq::empty()),
                    ));
                }
            } else {
                assert(second.stage == malformed());
            }
        },
    }
}

/// The queue at `key`, if there is one, is no longer than `capacity`.
pub open spec fn bounded(store: Store, key: Seq<char>, capacity: int) -> bool {
    store.slots.dom().contains(key) ==> match store.slots[key].content {
        Content::Queue(items) => items.len() <= capacity,
        _ => true,
    }
}

/// No sequence of `record` calls makes the queue longer than the capacity.
///
/// From a store whose queue is within the capacity, after calls of the
/// subject at any times whatever, the queue is still within the capacity.
pub proof fn queue_stays_within_capacity(
    limit_per_sec: u64,
    prefix: Seq<char>,
    resource: Seq<char>,
    subject: Seq<char>,
    window_secs: u64,
    times: Seq<u64>,
    store: Store,
)
    requires
        usable(limit_per_sec, window_secs),
        bounded(
            store,
            subject_key_of(prefix, resource, subject),
            capacity_of(limit_per_sec as int, window_secs as int),
        ),
    ensures
        bounded(
            replay(
                recording(limit_per_sec, prefix, resource, subject, window_secs),
                times,
                store,
            ).0,
            subject_key_of(prefix, resource, subject),
            capacity_of(limit_per_sec as int, window_secs as int),
        ),
    decreases times.len(),
{
    if times.len() > 0 {
        let begin = recording(limit_per_sec, prefix, resource, subject, window_secs);
        let head = times.drop_last();
        queue_stays_within_capacity(
            limit_per_sec,
            prefix,
            resource,
            subject,
            window_secs,
            head,
            store,
        );
        replay_last(begin, times, store);
        let before = replay(begin, head, store).0;
        let plan = plan_of(limit_per_sec, prefix, resource, subject, window_secs, times.last());
        record_effect(plan, before);
    }
}

/// After a leak step over stale markers only, a `fetch` reports 0.
///
/// Where every marker in the queue is older than the current window, in
/// whatever order they lie, the leak step removes them all: the queue is gone
/// and a `fetch` at any later time reports 0. (The queue is taken to be no
/// longer than a position can say on this machine.)
pub proof fn leak_drops_stale_markers(
    limit_per_sec: u64,
    prefix: Seq<char>,
    resource: Seq<char>,
    subject: Seq<char>,
    window_secs: u64,
    now_ms: u64,
    later_ms: u64,
    store: Store,
)
    requires
        usable(limit_per_sec, window_secs),
        now_ms <= later_ms,
        store.queue(subject_key_of(prefix, resource, subject), now_ms as int) is Some,
        store.queue(subject_key_of(prefix, resource, subject), now_ms as int)->0.len()
            <= isize::MAX,
        store.queue(subject_key_of(prefix, resource, subject), now_ms as int)->0.len()
            <= i64::MAX,
        forall|i: int|
            0 <= i < store.queue(subject_key_of(prefix, resource, subject), now_ms as int)->0.len()
                ==> i64::MIN <= #[trigger] store.queue(
                subject_key_of(prefix, resource, subject),
                now_ms as int,
            )->0[i] < epoch_of(secs_of(now_ms as int), window_secs as int),
    ensures
        ({
            let plan = plan_of(limit_per_sec, prefix, resource, subject, window_secs, now_ms);
            let (after, ending) = (Progress { plan, stage: Stage::LeakyBucket(Phase::Scan) }).run(
                store,
            );
            &&& ending == Some(Ok::<Outcome, LimiterError>(Outcome::Drained))
            &&& after.live(plan.key, later_ms as int) is None
            &&& fetching(limit_per_sec, prefix, resource, subject, window_secs)(later_ms).run(
                after,
            ).1 == reported(0)
        }),
{
    let plan = plan_of(limit_per_sec, prefix, resource, subject, window_secs, now_ms);
    let items = store.queue(plan.key, now_ms as int)->0;
    let values = store.listing(plan.key, now_ms as int)->0;
    epoch_bounds(secs_of(now_ms as int), window_secs as int);
    assert(store.listing(plan.key, now_ms as int) is Some);
    assert(none_inside(values, trim_start(plan), trim_stop(plan)));
    consume_effect(plan, store);
    assert forall|i: int| 0 <= i < items.len() implies (current(plan)(#[trigger] items[i]) <==> 0
        <= i <= -1) by {}
    filter_of_run(items, current(plan), 0, -1);
    assert(items.subrange(0, 0) =~= Seq::<int>::empty());
    let after = leaked(plan, store);
    fetch_effect(plan_of(limit_per_sec, prefix, resource, subject, window_secs, later_ms), after);
}

/// A queue in the order of time: no marker is smaller than one before it.
pub open spec fn in_time_order(values: Seq<Option<i64>>) -> bool {
    forall|i: int, j: int|
        0 <= i <= j < values.len() && values[i] is Some && values[j] is Some ==> values[i]->0
            <= values[j]->0
}

/// In a queue in the order of time the markers of any window lie together.
pub proof fn time_order_gathers(values: Seq<Option<i64>>, lo: int, hi: int)
    requires
        readable(values),
        in_time_order(values),
    ensures
        gathered(values, lo, hi),
    decreases values.len(),
{
    if values.len() > 0 {
        let head = values.drop_last();
        let n = values.len() - 1;
        assert forall|i: int| 0 <= i < head.len() implies (#[trigger] head[i]) is Some by {
            assert(head[i] == values[i]);
        }
        assert(in_time_order(head)) by {
            assert forall|i: int, j: int|
                0 <= i <= j < head.len() && head[i] is Some && head[j] is Some implies head[i]->0
                <= head[j]->0 by {
                assert(head[i] == values[i] && head[j] == values[j]);
            }
        }
        time_order_gathers(head, lo, hi);
        if inside(values[n], lo, hi) {
            if none_inside(head, lo, hi) {
                assert(is_run(values, lo, hi, n, n)) by {
                    assert forall|i: int| 0 <= i < values.len() implies (inside(
                        #[trigger] values[i],
                        lo,
                        hi,
                    ) <==> n <= i <= n) by {
                        if i < n {
                            assert(head[i] == values[i]);
                        }
                    }
                }
            } else {
                let (from, to) = choose|from: int, to: int| is_run(head, lo, hi, from, to);
                assert(inside(head[from], lo, hi));
                assert(head[from] == values[from]);
                assert(is_run(values, lo, hi, from, n)) by {
                    assert forall|i: int| 0 <= i < values.len() implies (inside(
                        #[trigger] values[i],
                        lo,
                        hi,
                    ) <==> from <= i <= n) by {
                        if i < n {
                            assert(head[i] == values[i]);
                            if from <= i {
                                assert(values[from]->0 <= values[i]->0 <= values[n]->0);
                            }
                        }
                    }
                }
            }
        } else {
            if none_inside(head, lo, hi) {
                assert(none_inside(values, lo, hi)) by {
                    assert forall|i: int| 0 <= i < values.len() implies !inside(
                        #[trigger] values[i],
                        lo,
                        hi,
                    ) by {
                        if i < n {
                            assert(head[i] == values[i]);
                        }
                    }
                }
            } else {
                let (from, to) = choose|from: int, to: int| is_run(head, lo, hi, from, to);
                assert(is_run(values, lo, hi, from, to)) by {
                    assert forall|i: int| 0 <= i < values.len() implies (inside(
                        #[trigger] values[i],
                        lo,
                        hi,
                    ) <==> from <= i <= to) by {
                        if i < n {
                            assert(head[i] == values[i]);
                        }
                    }
                }
            }
        }
    }
}

/// The key holds nothing, or a queue in the order of time with no marker
/// later than `latest`.
pub open spec fn ordered(store: Store, key: Seq<char>, latest: int) -> bool {
    store.slots.dom().contains(key) ==> match store.slots[key].content {
        Content::Queue(items) => {
            &&& forall|i: int, j: int| 0 <= i <= j < items.len() ==> items[i] <= items[j]
            &&& forall|i: int| 0 <= i < items.len() ==> 0 <= #[trigger] items[i] <= latest
        },
        _ => false,
    }
}

/// Calls at times that never go back keep the queue in the order of time.
///
/// From a store whose queue is in the order of time and holds no marker later
/// than the first call, after calls of the subject at times that never go
/// back the queue is in the order of time and holds no marker later than the
/// last call.
pub proof fn queue_stays_in_time_order(
    limit_per_sec: u64,
    prefix: Seq<char>,
    resource: Seq<char>,
    subject: Seq<char>,
    window_secs: u64,
    times: Seq<u64>,
    store: Store,
)
    requires
        usable(limit_per_sec, window_secs),
        times.len() > 0,
        ascending(times),
        ordered(store, subject_key_of(prefix, resource, subject), secs_of(times[0] as int)),
    ensures
        ordered(
            replay(
                recording(limit_per_sec, prefix, resource, subject, window_secs),
                times,
                store,
            ).0,
            subject_key_of(prefix, resource, subject),
            secs_of(times.last() as int),
        ),
    decreases times.len(),
{
    let begin = recording(limit_per_sec, prefix, resource, subject, window_secs);
    let key = subject_key_of(prefix, resource, subject);
    let head = times.drop_last();
    let last = times.last();
    assert(last == times[times.len() - 1]);
    replay_last(begin, times, store);
    let before = replay(begin, head, store).0;
    let plan = plan_of(limit_per_sec, prefix, resource, subject, window_secs, last);
    if head.len() > 0 {
        assert(ascending(head)) by {
            assert forall|i: int, j: int| 0 <= i <= j < head.len() implies head[i] <= head[j] by {
                assert(head[i] == times[i] && head[j] == times[j]);
            }
        }
        assert(head[0] == times[0]);
        assert(head.last() == times[times.len() - 2]);
        queue_stays_in_time_order(
            limit_per_sec,
            prefix,
            resource,
            subject,
            window_secs,
            head,
            store,
        );
        assert(secs_of(head.last() as int) <= secs_of(last as int)) by {
            vstd::arithmetic::div_mod::lemma_div_is_ordered(head.last() as int, last as int, 1000);
        }
    }
    assert(ordered(before, key, secs_of(last as int)));
    record_effect(plan, before);
    assert(secs_of(last as int) >= 0) by {
        vstd::arithmetic::div_mod::lemma_div_pos_is_pos(last as int, 1000);
    }
}

/// A leak step never fails on a queue in the order of time.
///
/// Where the queue is in the order of time, as calls at times that never go
/// back leave it, and no longer than a position can say on this machine, the
/// leak step keeps exactly the markers of the current window, and leaves the
/// queue in the order of time.
pub proof fn leak_of_ordered_queue(plan: Plan, store: Store, latest: int)
    requires
        plan.valid(),
        latest <= i64::MAX,
        ordered(store, plan.key, latest),
        store.queue(plan.key, plan.now_ms as int)->0.len() <= isize::MAX,
        store.queue(plan.key, plan.now_ms as int)->0.len() <= i64::MAX,
    ensures
        leakable(plan, store),
        (Progress { plan, stage: Stage::LeakyBucket(Phase::Scan) }).run(store) == (
            leaked(plan, store),
            Some(Ok::<Outcome, LimiterError>(Outcome::Drained)),
        ),
        ordered(leaked(plan, store), plan.key, latest),
{
    let now = plan.now_ms as int;
    let items = store.queue(plan.key, now)->0;
    assert forall|i: int| 0 <= i < items.len() implies fits(#[trigger] items[i]) by {
        if store.live(plan.key, now) is Some {
            assert(0 <= items[i] <= latest);
        }
    }
    let values = store.listing(plan.key, now)->0;
    assert(in_time_order(values)) by {
        assert forall|i: int, j: int|
            0 <= i <= j < values.len() && values[i] is Some && values[j] is Some implies
            values[i]->0 <= values[j]->0 by {
            assert(items[i] <= items[j]);
        }
    }
    let lo = trim_start(plan);
    let hi = trim_stop(plan);
    time_order_gathers(values, lo, hi);
    consume_effect(plan, store);
    if store.live(plan.key, now) is Some {
        assert forall|i: int| 0 <= i < items.len() implies (inside(#[trigger] values[i], lo, hi)
            <==> current(plan)(items[i])) by {}
        if none_inside(values, lo, hi) {
            assert forall|i: int| 0 <= i < items.len() implies (current(plan)(
                #[trigger] items[i],
            ) <==> 0 <= i <= -1) by {
                assert(!inside(values[i], lo, hi));
            }
            filter_of_run(items, current(plan), 0, -1);
            assert(items.subrange(0, 0) =~= Seq::<int>::empty());
        } else {
            let (from, to) = run_of(values, lo, hi);
            assert forall|i: int| 0 <= i < items.len() implies (current(plan)(
                #[trigger] items[i],
            ) <==> from <= i <= to) by {
                assert(inside(values[i], lo, hi) <==> from <= i <= to);
            }
            filter_of_run(items, current(plan), from, to);
            let rest = items.subrange(from, to + 1);
            assert forall|i: int, j: int| 0 <= i <= j < rest.len() implies rest[i] <= rest[j] by {
                assert(items[from + i] <= items[from + j]);
            }
            assert forall|i: int| 0 <= i < rest.len() implies 0 <= #[trigger] rest[i]
                <= latest by {
                assert(0 <= items[from + i] <= latest);
            }
        }
    }
}

/// A leak step after any calls keeps exactly the markers of its window.
///
/// From a store without the subject's queue, after calls of the subject at
/// times that never go back, a leak step at or after the last of them does not
/// fail: it leaves in the queue the markers of the current window, in their
/// order, and nothing else. (The capacity is taken to be no more than a
/// position can say on this machine.)
pub proof fn leak_after_records(
    limit_per_sec: u64,
    prefix: Seq<char>,
    resource: Seq<char>,
    subject: Seq<char>,
    window_secs: u64,
    times: Seq<u64>,
    now_ms: u64,
    store: Store,
)
    requires
        usable(limit_per_sec, window_secs),
        capacity_of(limit_per_sec as int, window_secs as int) <= isize::MAX,
        times.len() > 0,
        ascending(times),
        times.last() <= now_ms,
        !store.slots.dom().contains(subject_key_of(prefix, resource, subject)),
    ensures
        ({
            let after = replay(
                recording(limit_per_sec, prefix, resource, subject, window_secs),
                times,
                store,
            ).0;
            let plan = plan_of(limit_per_sec, prefix, resource, subject, window_secs, now_ms);
            (Progress { plan, stage: Stage::LeakyBucket(Phase::Scan) }).run(after) == (
                leaked(plan, after),
                Some(Ok::<Outcome, LimiterError>(Outcome::Drained)),
            )
        }),
{
    let begin = recording(limit_per_sec, prefix, resource, subject, window_secs);
    let key = subject_key_of(prefix, resource, subject);
    let plan = plan_of(limit_per_sec, prefix, resource, subject, window_secs, now_ms);
    queue_stays_within_capacity(
        limit_per_sec,
        prefix,
        resource,
        subject,
        window_secs,
        times,
        store,
    );
    queue_stays_in_time_order(limit_per_sec, prefix, resource, subject, window_secs, times, store);
    let after = replay(begin, times, store).0;
    let latest = secs_of(times.last() as int);
    assert(latest <= times.last()) by {
        vstd::arithmetic::div_mod::lemma_fundamental_div_mod(times.last() as int, 1000);
    }
    leak_of_ordered_queue(plan, after, latest);
}

/// After a run of calls within one window's length that were all allowed,
/// the queue holds at least their number and lives a window past the last.
proof fn all_allowed(
    limit_per_sec: u64,
    prefix: Seq<char>,
    resource: Seq<char>,
    subject: Seq<char>,
    window_secs: u64,
    times: Seq<u64>,
    store: Store,
)
    requires
        usable(limit_per_sec, window_secs),
        times.len() > 0,
        ascending(times),
        times.last() - times[0] < window_secs * 1000,
        forall|i: int|
            0 <= i < times.len() ==> replay(
                recording(limit_per_sec, prefix, resource, subject, window_secs),
                times,
                store,
            ).1[i] == allowed(),
    ensures
        ({
            let after = replay(
                recording(limit_per_sec, prefix, resource, subject, window_secs),
                times,
                store,
            ).0;
            let key = subject_key_of(prefix, resource, subject);
            &&& after.slots.dom().contains(key)
            &&& after.slots[key].deadline == Some(times.last() + window_secs * 1000)
            &&& after.slots[key].content is Queue
            &&& times.len() <= after.slots[key].content->Queue_0.len() <= i64::MAX
        }),
    decreases times.len(),
{
    let begin = recording(limit_per_sec, prefix, resource, subject, window_secs);
    let key = subject_key_of(prefix, resource, subject);
    let head = times.drop_last();
    let last = times.last();
    assert(last == times[times.len() - 1]);
    let plan = plan_of(limit_per_sec, prefix, resource, subject, window_secs, last);
    replay_last(begin, times, store);
    let before = replay(begin, head, store).0;
    assert(begin(last).run(before).1 == allowed()) by {
        assert(replay(begin, times, store).1[times.len() - 1] == allowed());
    }
    record_effect(plan, before);
    if head.len() > 0 {
        assert forall|i: int| 0 <= i < head.len() implies replay(begin, head, store).1[i]
            == allowed() by {
            assert(replay(begin, times, store).1[i] == allowed());
        }
        assert(ascending(head)) by {
            assert forall|i: int, j: int| 0 <= i <= j < head.len() implies head[i] <= head[j] by {
                assert(head[i] == times[i] && head[j] == times[j]);
            }
        }
        assert(head.last() == times[times.len() - 2]);
        assert(head[0] == times[0]);
        all_allowed(limit_per_sec, prefix, resource, subject, window_secs, head, store);
        assert(before.live(key, last as int) == Some(before.slots[key]));
    }
}

/// Within one window's length, a subject is allowed no more than the
/// capacity.
///
/// For calls of one subject at times that never go back, the last less than
/// a window after the first, and with no leak step in between, one more than
/// the capacity holds: where the first `capacity` of them were all allowed,
/// the next one is refused. This holds from any store.
pub proof fn full_window_refuses(
    limit_per_sec: u64,
    prefix: Seq<char>,
    resource: Seq<char>,
    subject: Seq<char>,
    window_secs: u64,
    times: Seq<u64>,
    store: Store,
)
    requires
        usable(limit_per_sec, window_secs),
        times.len() == capacity_of(limit_per_sec as int, window_secs as int) + 1,
        ascending(times),
        times.last() - times[0] < window_secs * 1000,
        forall|i: int|
            0 <= i < times.len() - 1 ==> replay(
                recording(limit_per_sec, prefix, resource, subject, window_secs),
                times,
                store,
            ).1[i] == allowed(),
    ensures
        replay(
            recording(limit_per_sec, prefix, resource, subject, window_secs),
            times,
            store,
        ).1.last() == denied(),
{
    let begin = recording(limit_per_sec, prefix, resource, subject, window_secs);
    let capacity = capacity_of(limit_per_sec as int, window_secs as int);
    assert(capacity >= 1) by (nonlinear_arith)
        requires
            capacity == limit_per_sec * window_secs,
            limit_per_sec >= 1,
            window_secs >= 1,
    ;
    let key = subject_key_of(prefix, resource, subject);
    let head = times.drop_last();
    let last = times.last();
    assert(last == times[times.len() - 1]);
    let plan = plan_of(limit_per_sec, prefix, resource, subject, window_secs, last);
    replay_last(begin, times, store);
    let before = replay(begin, head, store).0;
    assert forall|i: int| 0 <= i < head.len() implies replay(begin, head, store).1[i]
        == allowed() by {
        assert(replay(begin, times, store).1[i] == allowed());
    }
    assert(ascending(head)) by {
        assert forall|i: int, j: int| 0 <= i <= j < head.len() implies head[i] <= head[j] by {
            assert(head[i] == times[i] && head[j] == times[j]);
        }
    }
    assert(head.last() == times[times.len() - 2]);
    assert(head[0] == times[0]);
    all_allowed(limit_per_sec, prefix, resource, subject, window_secs, head, store);
    assert(before.live(key, last as int) == Some(before.slots[key]));
    record_effect(plan, before);
}

} // verus!
