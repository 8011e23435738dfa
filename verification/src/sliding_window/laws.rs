//! Laws of the sliding window: what its operations do to the store, and how
//! the estimate behaves over time.

use vstd::prelude::*;
use crate::clock::{capacity_of, epoch_of, secs_of, usable};
use crate::command::{Command, Entry};
use crate::error::{Fault, LimiterError};
use crate::exchange::{malformed, verdict, Outcome, Plan, Progress, Stage};
use crate::history::{
    allowed, ascending, denied, failed, replay, replay_last, replay_leaves_alone, reported,
    window_span, within_window, Ending,
};
use crate::keys::{window_key_of, windows_have_their_own_keys};
use crate::store::{execute_two, Answer, Content, Slot, Store};
use crate::sliding_window::{
    estimate_from, estimate_of, plan_of, remaining_bounds, remaining_ms, request, weighted,
    weighted_bounds, Phase,
};

verus! {

/// Where a `record` of a subject starts at each time.
pub open spec fn recording(
    limit_per_sec: u64,
    prefix: Seq<char>,
    resource: Seq<char>,
    subject: Seq<char>,
    window_secs: u64,
) -> spec_fn(u64) -> Progress {
    |now_ms: u64|
        Progress {
            plan: plan_of(limit_per_sec, prefix, resource, subject, window_secs, now_ms),
            stage: Stage::SlidingWindow(Phase::Read),
        }
}

/// Where a `fetch` of a subject starts at each time.
pub open spec fn fetching(
    limit_per_sec: u64,
    prefix: Seq<char>,
    resource: Seq<char>,
    subject: Seq<char>,
    window_secs: u64,
) -> spec_fn(u64) -> Progress {
    |now_ms: u64|
        Progress {
            plan: plan_of(limit_per_sec, prefix, resource, subject, window_secs, now_ms),
            stage: Stage::SlidingWindow(Phase::Fetch),
        }
}

/// A counter as the store holds it at `now`: the number at the key, 0 where
/// the key is absent; `None` where the key holds anything but a count that a
/// reply can carry.
pub open spec fn counter(store: Store, key: Seq<char>, now: int) -> Option<int> {
    match store.number(key, now) {
        Some(count) => if 0 <= count <= i64::MAX {
            Some(count)
        } else {
            None
        },
        None => None,
    }
}

/// The estimate from the two counters as the store holds them; `None` where
/// either cannot be read.
pub open spec fn estimate_in(plan: Plan, store: Store) -> Option<int> {
    match (
        counter(store, plan.other, plan.now_ms as int),
        counter(store, plan.key, plan.now_ms as int),
    ) {
        (Some(previous), Some(current)) => Some(
            estimate_of(previous, current, plan.now_ms as int, plan.window as int),
        ),
        _ => None,
    }
}

/// The store after an admitted call: the current counter one higher, expiring
/// two windows from now.
pub open spec fn bumped(plan: Plan, store: Store) -> Store {
    store.put(
        plan.key,
        Slot {
            content: Content::Number(store.number(plan.key, plan.now_ms as int)->0 + 1),
            deadline: Some(plan.now_ms + 2 * plan.window * 1000),
        },
    )
}

/// The reply to the read of both counters.
proof fn read_both(plan: Plan, store: Store, phase: Phase)
    requires
        plan.valid(),
        phase == Phase::Read || phase == Phase::Fetch,
    ensures
        ({
            let now = plan.now_ms as int;
            let previous = counter(store, plan.other, now);
            let current = counter(store, plan.key, now);
            let answer = store.execute(request(plan, phase), now);
            &&& answer.0 == store
            &&& estimate_in(plan, store) is Some ==> answer.1 is Values && estimate_from(
                plan,
                answer.1->Values_0,
            ) == Some(estimate_in(plan, store)->0 as u64)
            &&& estimate_in(plan, store) is Some ==> 0 <= estimate_in(plan, store)->0 <= u64::MAX
            &&& estimate_in(plan, store) is None ==> (answer.1 == Answer::Failed(Fault::Command)
                || (answer.1 is Values && estimate_from(plan, answer.1->Values_0) is None))
        }),
{
    let now = plan.now_ms as int;
    let first = Entry { command: Command::Get { key: plan.other }, ignored: false };
    let second = Entry { command: Command::Get { key: plan.key }, ignored: false };
    execute_two(store, true, first, second, now);
    if estimate_in(plan, store) is Some {
        let previous = counter(store, plan.other, now)->0;
        let current = counter(store, plan.key, now)->0;
        weighted_bounds(previous, now, plan.window as int);
    }
}

/// What a `record` comes to: the store afterwards and how the call ends.
pub open spec fn recorded(plan: Plan, store: Store) -> (Store, Ending) {
    let current = counter(store, plan.key, plan.now_ms as int);
    match estimate_in(plan, store) {
        Some(estimate) => if estimate >= plan.capacity {
            (store, denied())
        } else if current->0 < i64::MAX {
            (bumped(plan, store), allowed())
        } else {
            (store, failed())
        },
        None => (store, failed()),
    }
}

/// Played against any store, the operation comes to what `recorded` says.
pub open spec fn records(progress: Progress) -> bool {
    forall|store: Store| #[trigger] progress.run(store) == recorded(progress.plan, store)
}

/// What a `record` does, with one caller at a time.
///
/// Where the estimate is below the capacity the call is allowed and the
/// current window's counter is one higher and expires two windows from now.
/// Where the estimate has reached the capacity the call is refused. Where a
/// counter cannot be read, or cannot be incremented, the call fails with
/// `Command`. A call that is not allowed leaves the store as it was, and no
/// call changes the previous window's counter.
pub proof fn record_effect(plan: Plan, store: Store)
    requires
        plan.valid(),
        plan.key != plan.other,
    ensures
        (Progress { plan, stage: Stage::SlidingWindow(Phase::Read) }).run(store) == recorded(
            plan,
            store,
        ),
{
    let now = plan.now_ms as int;
    let key = plan.key;
    let begun = Progress { plan, stage: Stage::SlidingWindow(Phase::Read) };
    reveal_with_fuel(Progress::run_for, 4);
    read_both(plan, store, Phase::Read);
    let incr = Entry { command: Command::Increment { key, delta: 1 }, ignored: false };
    let expire = Entry {
        command: Command::Expire { key, seconds: 2 * plan.window },
        ignored: true,
    };
    let answer = store.execute(request(plan, Phase::Read), now).1;
    match estimate_in(plan, store) {
        Some(estimate) => {
            let second = begun.advance(answer);
            if estimate < plan.capacity {
                assert(second.stage == Stage::SlidingWindow(Phase::Increment));
                let count = counter(store, key, now)->0;
                execute_two(store, true, incr, expire, now);
                if count < i64::MAX {
                    let deadline = match store.live(key, now) {
                        Some(slot) => slot.deadline,
                        None => None,
                    };
                    let raised = store.put(
                        key,
                        Slot { content: Content::Number(count + 1), deadline },
                    );
                    let renewed = raised.put(
                        key,
                        Slot {
                            content: Content::Number(count + 1),
                            deadline: Some(now + 2 * plan.window * 1000),
                        },
                    );
                    assert(renewed.slots =~= bumped(plan, store).slots);
                    assert(store.execute(second.request()->0, now) == (
                        renewed,
                        Answer::Values(seq![Some((count + 1) as i64)]),
                    ));
                    let last = second.advance(Answer::Values(seq![Some((count + 1) as i64)]));
                    assert(last.stage == verdict(true));
                } else {
                    assert(store.execute(second.request()->0, now) == (
                        store,
                        Answer::Failed(Fault::Command),
                    ));
                }
            } else {
                assert(second.stage == verdict(false));
            }
        },
        None => {
            let second = begun.advance(answer);
            assert(second.stage == malformed());
        },
    }
}

/// What a `fetch` comes to: the store, unchanged, and what is reported.
pub open spec fn fetched(plan: Plan, store: Store) -> (Store, Ending) {
    (
        store,
        match estimate_in(plan, store) {
            Some(estimate) => reported(estimate as u64),
            None => failed(),
        },
    )
}

/// Played against any store, the operation comes to what `fetched` says.
pub open spec fn fetches(progress: Progress) -> bool {
    forall|store: Store| #[trigger] progress.run(store) == fetched(progress.plan, store)
}

/// What a `fetch` reports, with one caller at a time: the current counter
/// plus the weighted share of the previous one, each counted as 0 where
/// absent; it fails with `Command` where a counter cannot be read. A fetch
/// never changes the store.
pub proof fn fetch_effect(plan: Plan, store: Store)
    requires
        plan.valid(),
    ensures
        (Progress { plan, stage: Stage::SlidingWindow(Phase::Fetch) }).run(store) == fetched(
            plan,
            store,
        ),
{
    let begun = Progress { plan, stage: Stage::SlidingWindow(Phase::Fetch) };
    reveal_with_fuel(Progress::run_for, 3);
    read_both(plan, store, Phase::Fetch);
}

/// The weighted share is the previous count times the fraction of the window
/// that is left, rounded to the nearest whole number, a half rounded up:
/// twice the share differs from twice the exact product by at most the
/// window, and reaches it from above only.
pub proof fn weighted_is_nearest(previous: int, now_ms: int, window_secs: int)
    requires
        previous >= 0,
        now_ms >= 0,
        window_secs > 0,
    ensures
        ({
            let exact_times_window = previous * remaining_ms(now_ms, window_secs);
            let window_ms = window_secs * 1000;
            let share = weighted(previous, now_ms, window_secs);
            2 * exact_times_window - window_ms < 2 * window_ms * share <= 2 * exact_times_window
                + window_ms
        }),
{
    remaining_bounds(now_ms, window_secs);
    let left = remaining_ms(now_ms, window_secs);
    let n = previous * left;
    assert(n >= 0) by (nonlinear_arith)
        requires
            n == previous * left,
            previous >= 0,
            left > 0,
    ;
    let d = window_secs * 1000;
    let top = 2 * n + d;
    let share = top / (2 * d);
    assert(top == (2 * d) * share + top % (2 * d)) by {
        vstd::arithmetic::div_mod::lemma_fundamental_div_mod(top, 2 * d);
    }
    assert(0 <= top % (2 * d) < 2 * d) by {
        vstd::arithmetic::div_mod::lemma_mod_pos_bound(top, 2 * d);
    }
    assert((2 * d) * share == 2 * d * share) by (nonlinear_arith);
}

/// With the counters unchanged, the estimate never grows while time moves on
/// within one window.
pub proof fn estimate_never_grows(
    previous: int,
    current: int,
    earlier_ms: int,
    later_ms: int,
    window_secs: int,
)
    requires
        previous >= 0,
        0 <= earlier_ms <= later_ms,
        window_secs > 0,
        epoch_of(secs_of(earlier_ms), window_secs) == epoch_of(secs_of(later_ms), window_secs),
    ensures
        estimate_of(previous, current, later_ms, window_secs) <= estimate_of(
            previous,
            current,
            earlier_ms,
            window_secs,
        ),
{
    let d = window_secs * 1000;
    let before = remaining_ms(earlier_ms, window_secs);
    let after = remaining_ms(later_ms, window_secs);
    assert(after <= before);
    assert(previous * after <= previous * before) by (nonlinear_arith)
        requires
            previous >= 0,
            after <= before,
    ;
    vstd::arithmetic::div_mod::lemma_div_is_ordered(
        2 * (previous * after) + d,
        2 * (previous * before) + d,
        2 * d,
    );
}

/// What a `fetch` reports never grows while time moves on within one window
/// and nothing is recorded: on one and the same store, a fetch later in the
/// window reports no more than an earlier one did.
pub proof fn fetch_never_grows(
    limit_per_sec: u64,
    prefix: Seq<char>,
    resource: Seq<char>,
    subject: Seq<char>,
    window_secs: u64,
    earlier_ms: u64,
    later_ms: u64,
    store: Store,
)
    requires
        usable(limit_per_sec, window_secs),
        earlier_ms <= later_ms,
        epoch_of(secs_of(earlier_ms as int), window_secs as int) == epoch_of(
            secs_of(later_ms as int),
            window_secs as int,
        ),
        fetching(limit_per_sec, prefix, resource, subject, window_secs)(earlier_ms).run(store).1
            matches Some(Ok(_)),
    ensures
        ({
            let begin = fetching(limit_per_sec, prefix, resource, subject, window_secs);
            match (begin(earlier_ms).run(store).1, begin(later_ms).run(store).1) {
                (Some(Ok(Outcome::Count(first))), Some(Ok(Outcome::Count(second)))) => second
                    <= first,
                _ => false,
            }
        }),
{
    let first = plan_of(limit_per_sec, prefix, resource, subject, window_secs, earlier_ms);
    let second = plan_of(limit_per_sec, prefix, resource, subject, window_secs, later_ms);
    fetch_effect(first, store);
    fetch_effect(second, store);
    assert(first.key == second.key && first.other == second.other);
    let previous_before = counter(store, first.other, earlier_ms as int)->0;
    let current_before = counter(store, first.key, earlier_ms as int)->0;
    let previous_after = counter(store, first.other, later_ms as int)->0;
    let current_after = counter(store, first.key, later_ms as int)->0;
    assert(previous_after == previous_before || previous_after == 0);
    assert(current_after == current_before || current_after == 0);
    estimate_never_grows(
        previous_before,
        current_before,
        earlier_ms as int,
        later_ms as int,
        window_secs as int,
    );
    weighted_grows_with_count(previous_after, previous_before, later_ms as int, window_secs as int);
    weighted_bounds(previous_before, earlier_ms as int, window_secs as int);
    weighted_bounds(previous_after, later_ms as int, window_secs as int);
}

/// A higher previous count weighs at least as much.
pub proof fn weighted_grows_with_count(lower: int, higher: int, now_ms: int, window_secs: int)
    requires
        0 <= lower <= higher,
        now_ms >= 0,
        window_secs > 0,
    ensures
        weighted(lower, now_ms, window_secs) <= weighted(higher, now_ms, window_secs),
{
    remaining_bounds(now_ms, window_secs);
    let left = remaining_ms(now_ms, window_secs);
    let d = window_secs * 1000;
    assert(lower * left <= higher * left) by (nonlinear_arith)
        requires
            lower <= higher,
            left > 0,
    ;
    vstd::arithmetic::div_mod::lemma_div_is_ordered(
        2 * (lower * left) + d,
        2 * (higher * left) + d,
        2 * d,
    );
}

/// After a run of calls in one window that were all allowed, the current
/// counter holds at least their number and lives to the end of the window.
proof fn all_allowed(
    limit_per_sec: u64,
    prefix: Seq<char>,
    resource: Seq<char>,
    subject: Seq<char>,
    window_secs: u64,
    times: Seq<u64>,
    epoch: int,
    store: Store,
)
    requires
        usable(limit_per_sec, window_secs),
        times.len() > 0,
        ascending(times),
        within_window(times, window_secs, epoch),
        forall|i: int|
            0 <= i < times.len() ==> replay(
                recording(limit_per_sec, prefix, resource, subject, window_secs),
                times,
                store,
            ).1[i] == allowed(),
    ensures
        ({
            let after = replay(
                recording(limit_per_sec, prefix, resource, subject, window_secs),
                times,
                store,
            ).0;
            let key = window_key_of(prefix, resource, subject, epoch);
            let other = window_key_of(prefix, resource, subject, epoch - window_secs);
            &&& after.slots.dom().contains(key)
            &&& after.slots[key].deadline == Some(times.last() + 2 * window_secs * 1000)
            &&& after.slots[key].content is Number
            &&& times.len() <= after.slots[key].content->Number_0 <= i64::MAX
            &&& counter(after, other, times.last() as int) is Some
        }),
    decreases times.len(),
{
    let begin = recording(limit_per_sec, prefix, resource, subject, window_secs);
    let key = window_key_of(prefix, resource, subject, epoch);
    let other = window_key_of(prefix, resource, subject, epoch - window_secs);
    windows_have_their_own_keys(prefix, resource, subject, epoch, epoch - window_secs);
    let head = times.drop_last();
    let last = times.last();
    assert(last == times[times.len() - 1]);
    let plan = plan_of(limit_per_sec, prefix, resource, subject, window_secs, last);
    assert(plan.key == key && plan.other == other);
    replay_last(begin, times, store);
    let before = replay(begin, head, store).0;
    assert(begin(last).run(before).1 == allowed()) by {
        assert(replay(begin, times, store).1[times.len() - 1] == allowed());
    }
    record_effect(plan, before);
    if head.len() > 0 {
        assert forall|i: int| 0 <= i < head.len() implies replay(begin, head, store).1[i]
            == allowed() by {
            assert(replay(begin, times, store).1[i] == allowed());
        }
        assert(ascending(head)) by {
            assert forall|i: int, j: int| 0 <= i <= j < head.len() implies head[i] <= head[j] by {
                assert(head[i] == times[i] && head[j] == times[j]);
            }
        }
        assert(within_window(head, window_secs, epoch)) by {
            assert forall|i: int| 0 <= i < head.len() implies epoch_of(
                secs_of(#[trigger] head[i] as int),
                window_secs as int,
            ) == epoch by {
                assert(head[i] == times[i]);
            }
        }
        all_allowed(limit_per_sec, prefix, resource, subject, window_secs, head, epoch, store);
        let earlier = head.last();
        assert(earlier == times[times.len() - 2]);
        window_span(earlier, window_secs, epoch);
        window_span(last, window_secs, epoch);
        assert(before.live(key, last as int) == Some(before.slots[key]));
    }
}

/// Within one window, a subject is allowed no more than the capacity.
///
/// For calls of one subject at times that never go back and all lie in one
/// window, one more than the capacity holds: where the first `capacity` of them
/// were all allowed, the next one is refused. This holds from any store.
pub proof fn full_window_refuses(
    limit_per_sec: u64,
    prefix: Seq<char>,
    resource: Seq<char>,
    subject: Seq<char>,
    window_secs: u64,
    times: Seq<u64>,
    epoch: int,
    store: Store,
)
    requires
        usable(limit_per_sec, window_secs),
        times.len() == capacity_of(limit_per_sec as int, window_secs as int) + 1,
        ascending(times),
        within_window(times, window_secs, epoch),
        forall|i: int|
            0 <= i < times.len() - 1 ==> replay(
                recording(limit_per_sec, prefix, resource, subject, window_secs),
                times,
                store,
            ).1[i] == allowed(),
    ensures
        replay(
            recording(limit_per_sec, prefix, resource, subject, window_secs),
            times,
            store,
        ).1.last() == denied(),
{
    let begin = recording(limit_per_sec, prefix, resource, subject, window_secs);
    let capacity = capacity_of(limit_per_sec as int, window_secs as int);
    assert(capacity >= 1) by (nonlinear_arith)
        requires
            capacity == limit_per_sec * window_secs,
            limit_per_sec >= 1,
            window_secs >= 1,
    ;
    let key = window_key_of(prefix, resource, subject, epoch);
    let other = window_key_of(prefix, resource, subject, epoch - window_secs);
    windows_have_their_own_keys(prefix, resource, subject, epoch, epoch - window_secs);
    let head = times.drop_last();
    let last = times.last();
    assert(last == times[times.len() - 1]);
    let plan = plan_of(limit_per_sec, prefix, resource, subject, window_secs, last);
    replay_last(begin, times, store);
    let before = replay(begin, head, store).0;
    assert forall|i: int| 0 <= i < head.len() implies replay(begin, head, store).1[i]
        == allowed() by {
        assert(replay(begin, times, store).1[i] == allowed());
    }
    assert(ascending(head)) by {
        assert forall|i: int, j: int| 0 <= i <= j < head.len() implies head[i] <= head[j] by {
            assert(head[i] == times[i] && head[j] == times[j]);
        }
    }
    assert(within_window(head, window_secs, epoch)) by {
        assert forall|i: int| 0 <= i < head.len() implies epoch_of(
            secs_of(#[trigger] head[i] as int),
            window_secs as int,
        ) == epoch by {
            assert(head[i] == times[i]);
        }
    }
    all_allowed(limit_per_sec, prefix, resource, subject, window_secs, head, epoch, store);
    let earlier = head.last();
    assert(earlier == times[times.len() - 2]);
    window_span(earlier, window_secs, epoch);
    window_span(last, window_secs, epoch);
    assert(before.live(key, last as int) == Some(before.slots[key]));
    let previous = counter(before, other, earlier as int)->0;
    let weighing = counter(before, other, last as int)->0;
    assert(weighing == previous || weighing == 0);
    weighted_bounds(weighing, last as int, window_secs as int);
    record_effect(plan, before);
}

/// The counter at `key`, if there is one, holds no more than `capacity`.
pub open spec fn bounded(store: Store, key: Seq<char>, capacity: int) -> bool {
    store.slots.dom().contains(key) ==> match store.slots[key].content {
        Content::Number(count) => count <= capacity,
        _ => true,
    }
}

/// No sequence of `record` calls counts more than the capacity in any window.
///
/// From a store in which no counter of the subject is above the capacity,
/// after calls of the subject at any times whatever, none is.
pub proof fn counters_stay_within_capacity(
    limit_per_sec: u64,
    prefix: Seq<char>,
    resource: Seq<char>,
    subject: Seq<char>,
    window_secs: u64,
    times: Seq<u64>,
    store: Store,
)
    requires
        usable(limit_per_sec, window_secs),
        forall|epoch: int|
            bounded(
                store,
                #[trigger] window_key_of(prefix, resource, subject, epoch),
                capacity_of(limit_per_sec as int, window_secs as int),
            ),
    ensures
        forall|epoch: int|
            bounded(
                replay(
                    recording(limit_per_sec, prefix, resource, subject, window_secs),
                    times,
                    store,
                ).0,
                #[trigger] window_key_of(prefix, resource, subject, epoch),
                capacity_of(limit_per_sec as int, window_secs as int),
            ),
    decreases times.len(),
{
    if times.len() > 0 {
        let begin = recording(limit_per_sec, prefix, resource, subject, window_secs);
        let capacity = capacity_of(limit_per_sec as int, window_secs as int);
        counters_stay_within_capacity(
            limit_per_sec,
            prefix,
            resource,
            subject,
            window_secs,
            times.drop_last(),
            store,
        );
        replay_last(begin, times, store);
        let before = replay(begin, times.drop_last(), store).0;
        let last = times.last();
        let plan = plan_of(limit_per_sec, prefix, resource, subject, window_secs, last);
        let current = epoch_of(secs_of(last as int), window_secs as int);
        windows_have_their_own_keys(prefix, resource, subject, current, current - window_secs);
        record_effect(plan, before);
        if estimate_in(plan, before) is Some {
            weighted_bounds(
                counter(before, plan.other, last as int)->0,
                last as int,
                window_secs as int,
            );
        }
        let after = begin(last).run(before).0;
        assert forall|epoch: int|
            bounded(
                after,
                #[trigger] window_key_of(prefix, resource, subject, epoch),
                capacity,
            ) by {
            assert(bounded(before, window_key_of(prefix, resource, subject, epoch), capacity));
        }
    }
}

/// With nothing counted in the previous window, a `record` is judged as a
/// fixed window judges it: on one store, at one time, both end alike.
pub proof fn resolves_like_fixed_window(
    limit_per_sec: u64,
    prefix: Seq<char>,
    resource: Seq<char>,
    subject: Seq<char>,
    window_secs: u64,
    now_ms: u64,
    store: Store,
)
    requires
        usable(limit_per_sec, window_secs),
        counter(
            store,
            plan_of(limit_per_sec, prefix, resource, subject, window_secs, now_ms).other,
            now_ms as int,
        ) == Some(0int),
    ensures
        recording(limit_per_sec, prefix, resource, subject, window_secs)(now_ms).run(store).1
            == crate::fixed_window::laws::recording(
            limit_per_sec,
            prefix,
            resource,
            subject,
            window_secs,
        )(now_ms).run(store).1,
{
    let plan = plan_of(limit_per_sec, prefix, resource, subject, window_secs, now_ms);
    let fixed = crate::fixed_window::plan_of(
        limit_per_sec,
        prefix,
        resource,
        subject,
        window_secs,
        now_ms,
    );
    let current = epoch_of(secs_of(now_ms as int), window_secs as int);
    windows_have_their_own_keys(prefix, resource, subject, current, current - window_secs);
    record_effect(plan, store);
    crate::fixed_window::laws::record_effect(fixed, store);
    weighted_bounds(0, now_ms as int, window_secs as int);
}

/// Two windows on, the estimate is back at 0.
///
/// After any calls of a subject, at a time two windows or more after the last
/// of them, a `fetch` reports 0, provided the store did not hold counts for
/// the window of that later time or the one before it to begin with.
pub proof fn estimate_returns_to_zero(
    limit_per_sec: u64,
    prefix: Seq<char>,
    resource: Seq<char>,
    subject: Seq<char>,
    window_secs: u64,
    times: Seq<u64>,
    later: u64,
    store: Store,
)
    requires
        usable(limit_per_sec, window_secs),
        forall|i: int| 0 <= i < times.len() ==> times[i] + 2 * window_secs * 1000 <= later,
        store.number(
            plan_of(limit_per_sec, prefix, resource, subject, window_secs, later).key,
            later as int,
        ) == Some(0int),
        store.number(
            plan_of(limit_per_sec, prefix, resource, subject, window_secs, later).other,
            later as int,
        ) == Some(0int),
    ensures
        fetching(limit_per_sec, prefix, resource, subject, window_secs)(later).run(
            replay(
                recording(limit_per_sec, prefix, resource, subject, window_secs),
                times,
                store,
            ).0,
        ).1 == reported(0),
{
    let begin = recording(limit_per_sec, prefix, resource, subject, window_secs);
    let plan = plan_of(limit_per_sec, prefix, resource, subject, window_secs, later);
    let later_epoch = epoch_of(secs_of(later as int), window_secs as int);
    window_span(later, window_secs, later_epoch);
    assert forall|i: int| 0 <= i < times.len() implies (#[trigger] begin(times[i])).plan.key
        != plan.key && begin(times[i]).plan.other != plan.key && begin(times[i]).plan.key
        != plan.other && begin(times[i]).plan.other != plan.other by {
        let t = times[i];
        let e = epoch_of(secs_of(t as int), window_secs as int);
        window_span(t, window_secs, e);
        assert(e < later_epoch - window_secs) by (nonlinear_arith)
            requires
                e * 1000 <= t,
                t + 2 * window_secs * 1000 <= later,
                later < (later_epoch + window_secs) * 1000,
        ;
        windows_have_their_own_keys(prefix, resource, subject, e, later_epoch);
        windows_have_their_own_keys(prefix, resource, subject, e, later_epoch - window_secs);
        windows_have_their_own_keys(prefix, resource, subject, e - window_secs, later_epoch);
        windows_have_their_own_keys(
            prefix,
            resource,
            subject,
            e - window_secs,
            later_epoch - window_secs,
        );
    }
    replay_leaves_alone(begin, times, store, plan.key);
    replay_leaves_alone(begin, times, store, plan.other);
    let after = replay(begin, times, store).0;
    assert(after.number(plan.key, later as int) == Some(0int));
    assert(after.number(plan.other, later as int) == Some(0int));
    fetch_effect(plan, after);
    weighted_bounds(0, later as int, window_secs as int);
}

} // verus!
