//! Laws of the token bucket: what its operations do to the store, one caller
//! at a time and several at once.

use vstd::prelude::*;
use crate::clock::{capacity_of, secs_of, usable};
use crate::command::{Command, Entry};
use crate::error::{Fault, LimiterError};
use crate::exchange::{malformed, verdict, Outcome, Plan, Progress, Stage};
use crate::history::{allowed, ascending, denied, failed, replay, replay_last, reported, Ending};
use crate::keys::{last_set_time_key_of, remaining_key_of, token_keys_differ};
use crate::interleaving::{
    admitted, interleave, nothing_yet, refused, setting_out, take_turn, tally, tally_adds,
    tally_after_turn, tally_counts_each, tally_is_monotone,
};
use crate::store::{execute_four, execute_one, fits, Answer, Content, Slot, Store};
use crate::token_bucket::{elapsed, filling, plan_of, request, Phase};

verus! {

/// Where a `record` of a subject starts at each time.
pub open spec fn recording(
    limit_per_sec: u64,
    prefix: Seq<char>,
    resource: Seq<char>,
    subject: Seq<char>,
    window_secs: u64,
) -> spec_fn(u64) -> Progress {
    |now_ms: u64|
        Progress {
            plan: plan_of(limit_per_sec, prefix, resource, subject, window_secs, now_ms),
            stage: Stage::TokenBucket(Phase::Stamp),
        }
}

/// The time of the last filling as the store holds it: `None` where the
/// bucket has none, or the key holds something a `record` cannot read.
pub open spec fn stamp_of(plan: Plan, store: Store) -> Option<int> {
    match store.live(plan.key, plan.now_ms as int) {
        Some(slot) => match slot.content {
            Content::Number(last) => if 0 <= last <= i64::MAX {
                Some(last)
            } else {
                None
            },
            _ => None,
        },
        None => None,
    }
}

/// The tokens that are left as the store holds them: `None` where the count
/// is missing or cannot be read.
pub open spec fn tokens_of(plan: Plan, store: Store) -> Option<int> {
    match store.live(plan.other, plan.now_ms as int) {
        Some(slot) => match slot.content {
            Content::Number(left) => if fits(left) {
                Some(left)
            } else {
                None
            },
            _ => None,
        },
        None => None,
    }
}

/// A `record` at the plan's time fills the bucket: there is none yet, or a
/// full window or more has passed since it was last filled.
pub open spec fn fills(plan: Plan, store: Store) -> bool {
    store.live(plan.key, plan.now_ms as int) is None || (stamp_of(plan, store) is Some && elapsed(
        secs_of(plan.now_ms as int),
        stamp_of(plan, store)->0,
        plan.window as int,
    ))
}

/// A `record` at the plan's time draws on the bucket as it stands: it was
/// filled less than a window ago.
pub open spec fn draws(plan: Plan, store: Store) -> bool {
    stamp_of(plan, store) is Some && !elapsed(
        secs_of(plan.now_ms as int),
        stamp_of(plan, store)->0,
        plan.window as int,
    )
}

/// The store with the bucket filled now and `left` tokens in it, both keys
/// expiring one window from now.
pub open spec fn filled(plan: Plan, store: Store, left: int) -> Store {
    let until = Some(plan.now_ms + plan.window * 1000);
    store.put(
        plan.key,
        Slot { content: Content::Number(secs_of(plan.now_ms as int)), deadline: until },
    ).put(plan.other, Slot { content: Content::Number(left), deadline: until })
}

/// The store with one token fewer, the bucket's expiration as it was.
pub open spec fn drawn(plan: Plan, store: Store) -> Store {
    store.put(
        plan.other,
        Slot {
            content: Content::Number(tokens_of(plan, store)->0 - 1),
            deadline: store.slots[plan.other].deadline,
        },
    )
}

/// The four commands that fill a bucket leave it full, whichever key they
/// write first.
proof fn filling_effect(plan: Plan, store: Store, stamp_first: bool)
    requires
        plan.valid(),
        plan.key != plan.other,
    ensures
        store.execute(filling(plan, stamp_first), plan.now_ms as int) == (
            filled(plan, store, plan.capacity as int),
            Answer::Values(Seq::empty()),
        ),
{
    let now = plan.now_ms as int;
    let until = Some(now + plan.window * 1000);
    let stamp = Entry {
        command: Command::Write { key: plan.key, value: secs_of(now) },
        ignored: true,
    };
    let stamp_expiry = Entry {
        command: Command::Expire { key: plan.key, seconds: plan.window as int },
        ignored: true,
    };
    let tokens = Entry {
        command: Command::Write { key: plan.other, value: plan.capacity as int },
        ignored: true,
    };
    let tokens_expiry = Entry {
        command: Command::Expire { key: plan.other, seconds: plan.window as int },
        ignored: true,
    };
    let stamped = Slot { content: Content::Number(secs_of(now)), deadline: until };
    let full = Slot { content: Content::Number(plan.capacity as int), deadline: until };
    if stamp_first {
        execute_four(store, true, stamp, stamp_expiry, tokens, tokens_expiry, now);
        let s1 = store.put(
            plan.key,
            Slot { content: Content::Number(secs_of(now)), deadline: None },
        );
        let s2 = s1.put(plan.key, stamped);
        let s3 = s2.put(
            plan.other,
            Slot { content: Content::Number(plan.capacity as int), deadline: None },
        );
        let s4 = s3.put(plan.other, full);
        assert(s1.apply(stamp_expiry.command, now) == Some((s2, Some(1i64))));
        assert(s3.apply(tokens_expiry.command, now) == Some((s4, Some(1i64))));
        assert(s4.slots =~= filled(plan, store, plan.capacity as int).slots);
    } else {
        execute_four(store, true, tokens, tokens_expiry, stamp, stamp_expiry, now);
        let s1 = store.put(
            plan.other,
            Slot { content: Content::Number(plan.capacity as int), deadline: None },
        );
        let s2 = s1.put(plan.other, full);
        let s3 = s2.put(plan.key, Slot { content: Content::Number(secs_of(now)), deadline: None });
        let s4 = s3.put(plan.key, stamped);
        assert(s1.apply(tokens_expiry.command, now) == Some((s2, Some(1i64))));
        assert(s3.apply(stamp_expiry.command, now) == Some((s4, Some(1i64))));
        assert(s4.slots =~= filled(plan, store, plan.capacity as int).slots);
    }
}

/// What a `record` does when it fills the bucket, with one caller at a time.
///
/// The bucket is filled to the capacity and the call takes its token from the
/// full bucket: it is allowed and leaves the capacity less one. A bucket of
/// capacity 0 is filled and the call refused; a capacity beyond the store's
/// integers is written and the call fails at its decrement. The bucket's
/// filling time is now, and both keys expire one window from now.
pub proof fn record_fills(plan: Plan, store: Store)
    requires
        plan.valid(),
        plan.key != plan.other,
        fills(plan, store),
    ensures
        ({
            let begun = Progress { plan, stage: Stage::TokenBucket(Phase::Stamp) };
            begun.run(store) == if plan.capacity > i64::MAX {
                (
                    filled(plan, store, plan.capacity as int),
                    failed(),
                )
            } else if plan.capacity > 0 {
                (filled(plan, store, plan.capacity - 1), allowed())
            } else {
                (filled(plan, store, 0), denied())
            }
        }),
{
    let now = plan.now_ms as int;
    let until = Some(now + plan.window * 1000);
    let begun = Progress { plan, stage: Stage::TokenBucket(Phase::Stamp) };
    reveal_with_fuel(Progress::run_for, 5);
    let get = Entry { command: Command::Get { key: plan.key }, ignored: false };
    let take = Entry { command: Command::Decrement { key: plan.other, delta: 1 }, ignored: false };
    let undo = Entry { command: Command::Increment { key: plan.other, delta: 1 }, ignored: false };
    execute_one(store, true, get, now);
    let reply = if store.live(plan.key, now) is None {
        None
    } else {
        Some(stamp_of(plan, store)->0 as i64)
    };
    assert(store.execute(begun.request()->0, now) == (store, Answer::Values(seq![reply])));
    let second = begun.advance(Answer::Values(seq![reply]));
    filling_effect(plan, store, true);
    filling_effect(plan, store, false);
    let full = filled(plan, store, plan.capacity as int);
    assert(store.execute(second.request()->0, now) == (full, Answer::Values(Seq::empty())));
    let third = second.advance(Answer::Values(Seq::empty()));
    assert(third.stage == Stage::TokenBucket(Phase::Take));
    execute_one(full, true, take, now);
    if plan.capacity > i64::MAX {
        assert(full.execute(third.request()->0, now) == (full, Answer::Failed(Fault::Command)));
    } else {
        let taken = filled(plan, store, plan.capacity - 1);
        assert(full.put(
            plan.other,
            Slot { content: Content::Number(plan.capacity - 1), deadline: until },
        ).slots =~= taken.slots);
        assert(full.execute(third.request()->0, now) == (
            taken,
            Answer::Values(seq![Some((plan.capacity - 1) as i64)]),
        ));
        let fourth = third.advance(Answer::Values(seq![Some((plan.capacity - 1) as i64)]));
        if plan.capacity > 0 {
            assert(fourth.stage == verdict(true));
        } else {
            assert(fourth.stage == Stage::TokenBucket(Phase::Undo));
            execute_one(taken, true, undo, now);
            assert(taken.put(
                plan.other,
                Slot { content: Content::Number(0), deadline: until },
            ).slots =~= filled(plan, store, 0).slots);
            assert(taken.execute(fourth.request()->0, now) == (
                filled(plan, store, 0),
                Answer::Values(seq![Some(0i64)]),
            ));
            let fifth = fourth.advance(Answer::Values(seq![Some(0i64)]));
            assert(fifth.stage == verdict(false));
        }
    }
}

/// What a `record` does when it draws on the bucket as it stands, with one
/// caller at a time.
///
/// With a token left the call is allowed and exactly one token is taken; the
/// filling time and both expirations stay as they were. With none left the
/// call is refused and the store is left as it was.
pub proof fn record_draws(plan: Plan, store: Store)
    requires
        plan.valid(),
        plan.key != plan.other,
        draws(plan, store),
        tokens_of(plan, store) is Some,
    ensures
        ({
            let begun = Progress { plan, stage: Stage::TokenBucket(Phase::Stamp) };
            begun.run(store) == if tokens_of(plan, store)->0 > 0 {
                (drawn(plan, store), allowed())
            } else {
                (store, denied())
            }
        }),
{
    let now = plan.now_ms as int;
    let begun = Progress { plan, stage: Stage::TokenBucket(Phase::Stamp) };
    reveal_with_fuel(Progress::run_for, 5);
    let get = Entry { command: Command::Get { key: plan.key }, ignored: false };
    let left = Entry { command: Command::Get { key: plan.other }, ignored: false };
    let take = Entry { command: Command::Decrement { key: plan.other, delta: 1 }, ignored: false };
    let stamp = stamp_of(plan, store)->0;
    let tokens = tokens_of(plan, store)->0;
    execute_one(store, true, get, now);
    assert(store.execute(begun.request()->0, now) == (
        store,
        Answer::Values(seq![Some(stamp as i64)]),
    ));
    let second = begun.advance(Answer::Values(seq![Some(stamp as i64)]));
    assert(second.stage == Stage::TokenBucket(Phase::Left));
    execute_one(store, true, left, now);
    assert(store.execute(second.request()->0, now) == (
        store,
        Answer::Values(seq![Some(tokens as i64)]),
    ));
    let third = second.advance(Answer::Values(seq![Some(tokens as i64)]));
    if tokens > 0 {
        assert(third.stage == Stage::TokenBucket(Phase::Take));
        execute_one(store, true, take, now);
        assert(store.execute(third.request()->0, now) == (
            drawn(plan, store),
            Answer::Values(seq![Some((tokens - 1) as i64)]),
        ));
        let fourth = third.advance(Answer::Values(seq![Some((tokens - 1) as i64)]));
        assert(fourth.stage == verdict(true));
    } else {
        assert(third.stage == verdict(false));
    }
}

/// A `record` that neither fills the bucket nor finds a count to draw on
/// fails with `Command` and leaves the store as it was: the filling time or
/// the count is something the call cannot read, or the count is missing.
pub proof fn record_fails(plan: Plan, store: Store)
    requires
        plan.valid(),
        plan.key != plan.other,
        !fills(plan, store),
        !(draws(plan, store) && tokens_of(plan, store) is Some),
    ensures
        (Progress { plan, stage: Stage::TokenBucket(Phase::Stamp) }).run(store) == (
            store,
            failed(),
        ),
{
    let now = plan.now_ms as int;
    let begun = Progress { plan, stage: Stage::TokenBucket(Phase::Stamp) };
    reveal_with_fuel(Progress::run_for, 5);
    let get = Entry { command: Command::Get { key: plan.key }, ignored: false };
    let left = Entry { command: Command::Get { key: plan.other }, ignored: false };
    execute_one(store, true, get, now);
    match store.apply(get.command, now) {
        None => {
            assert(store.execute(begun.request()->0, now) == (
                store,
                Answer::Failed(Fault::Command),
            ));
        },
        Some((_, reply)) => {
            assert(store.execute(begun.request()->0, now) == (store, Answer::Values(seq![reply])));
            let second = begun.advance(Answer::Values(seq![reply]));
            if draws(plan, store) {
                assert(second.stage == Stage::TokenBucket(Phase::Left));
                execute_one(store, true, left, now);
                match store.apply(left.command, now) {
                    None => {
                        assert(store.execute(second.request()->0, now) == (
                            store,
                            Answer::Failed(Fault::Command),
                        ));
                    },
                    Some((_, count)) => {
                        assert(count is None);
                        assert(store.execute(second.request()->0, now) == (
                            store,
                            Answer::Values(seq![count]),
                        ));
                    },
                }
            } else {
                assert(second.stage == malformed());
            }
        },
    }
}

/// What a `record` comes to: the store afterwards and how the call ends.
///
/// A call that fills the bucket leaves it with the capacity less its own
/// token; a call that draws on a standing bucket takes one token if there is
/// one and is refused if there is none; a call that can read neither a reason
/// to fill nor a count to draw on fails.
pub open spec fn recorded(plan: Plan, store: Store) -> (Store, Ending) {
    if fills(plan, store) {
        if plan.capacity > i64::MAX {
            (
                filled(plan, store, plan.capacity as int),
                failed(),
            )
        } else if plan.capacity > 0 {
            (filled(plan, store, plan.capacity - 1), allowed())
        } else {
            (filled(plan, store, 0), denied())
        }
    } else if draws(plan, store) && tokens_of(plan, store) is Some {
        if tokens_of(plan, store)->0 > 0 {
            (drawn(plan, store), allowed())
        } else {
            (store, denied())
        }
    } else {
        (store, failed())
    }
}

/// Played against any store, the operation comes to what `recorded` says.
pub open spec fn records(progress: Progress) -> bool {
    forall|store: Store| #[trigger] progress.run(store) == recorded(progress.plan, store)
}

/// What a `record` does, with one caller at a time: it fills, draws or fails
/// as `recorded` says.
pub proof fn record_effect(plan: Plan, store: Store)
    requires
        plan.valid(),
        plan.key != plan.other,
    ensures
        (Progress { plan, stage: Stage::TokenBucket(Phase::Stamp) }).run(store) == recorded(
            plan,
            store,
        ),
{
    if fills(plan, store) {
        record_fills(plan, store);
    } else if draws(plan, store) && tokens_of(plan, store) is Some {
        record_draws(plan, store);
    } else {
        record_fails(plan, store);
    }
}

/// What a `fetch` comes to: the store, unchanged, and what is reported.
pub open spec fn fetched(plan: Plan, store: Store, lenient: bool) -> (Store, Ending) {
    (
        store,
        if fills(plan, store) {
            reported(plan.capacity)
        } else if draws(plan, store) {
            match tokens_of(plan, store) {
                Some(left) => if left < 0 {
                    reported(0)
                } else {
                    reported(left as u64)
                },
                None => if lenient && store.live(plan.other, plan.now_ms as int) is None {
                    reported(plan.capacity)
                } else {
                    failed()
                },
            }
        } else {
            failed()
        },
    )
}

/// Played against any store, the operation comes to what `fetched` says.
pub open spec fn fetches(progress: Progress, lenient: bool) -> bool {
    forall|store: Store| #[trigger] progress.run(store) == fetched(progress.plan, store, lenient)
}

/// What a `fetch` reports, with one caller at a time.
///
/// Where the bucket has no filling time, or a full window or more has passed
/// since, the fetch reports the capacity. Otherwise it reports the tokens that
/// are left, a count below zero as 0; where the count is missing a lenient
/// fetch reports the capacity and a strict one fails with `Command`. Where the
/// filling time or the count cannot be read, the fetch fails with `Command`.
/// A fetch never changes the store.
pub proof fn fetch_effect(plan: Plan, store: Store, lenient: bool)
    requires
        plan.valid(),
    ensures
        (Progress { plan, stage: Stage::TokenBucket(Phase::FetchStamp { lenient }) }).run(store)
            == fetched(plan, store, lenient),
{
    let now = plan.now_ms as int;
    let begun = Progress { plan, stage: Stage::TokenBucket(Phase::FetchStamp { lenient }) };
    reveal_with_fuel(Progress::run_for, 4);
    let get = Entry { command: Command::Get { key: plan.key }, ignored: false };
    let left = Entry { command: Command::Get { key: plan.other }, ignored: false };
    execute_one(store, true, get, now);
    match store.apply(get.command, now) {
        None => {
            assert(store.execute(begun.request()->0, now) == (
                store,
                Answer::Failed(Fault::Command),
            ));
        },
        Some((_, reply)) => {
            assert(store.execute(begun.request()->0, now) == (store, Answer::Values(seq![reply])));
            let second = begun.advance(Answer::Values(seq![reply]));
            if draws(plan, store) {
                assert(second.stage == Stage::TokenBucket(Phase::FetchLeft { lenient }));
                execute_one(store, true, left, now);
                match store.apply(left.command, now) {
                    None => {
                        assert(store.execute(second.request()->0, now) == (
                            store,
                            Answer::Failed(Fault::Command),
                        ));
                    },
                    Some((_, count)) => {
                        assert(store.execute(second.request()->0, now) == (
                            store,
                            Answer::Values(seq![count]),
                        ));
                    },
                }
            }
        },
    }
}

/// The count at `key`, if there is one, lies between 0 and `capacity`.
pub open spec fn bounded(store: Store, key: Seq<char>, capacity: int) -> bool {
    store.slots.dom().contains(key) ==> match store.slots[key].content {
        Content::Number(left) => 0 <= left <= capacity,
        _ => true,
    }
}

/// No sequence of `record` calls takes the tokens below zero or above the
/// capacity.
///
/// From a store whose count of tokens lies between 0 and the capacity, after
/// calls of the subject at any times whatever, it still does.
pub proof fn tokens_stay_within_capacity(
    limit_per_sec: u64,
    prefix: Seq<char>,
    resource: Seq<char>,
    subject: Seq<char>,
    window_secs: u64,
    times: Seq<u64>,
    store: Store,
)
    requires
        usable(limit_per_sec, window_secs),
        bounded(
            store,
            remaining_key_of(prefix, resource, subject),
            capacity_of(limit_per_sec as int, window_secs as int),
        ),
    ensures
        bounded(
            replay(
                recording(limit_per_sec, prefix, resource, subject, window_secs),
                times,
                store,
            ).0,
            remaining_key_of(prefix, resource, subject),
            capacity_of(limit_per_sec as int, window_secs as int),
        ),
    decreases times.len(),
{
    if times.len() > 0 {
        let begin = recording(limit_per_sec, prefix, resource, subject, window_secs);
        tokens_stay_within_capacity(
            limit_per_sec,
            prefix,
            resource,
            subject,
            window_secs,
            times.drop_last(),
            store,
        );
        replay_last(begin, times, store);
        let before = replay(begin, times.drop_last(), store).0;
        let plan = plan_of(limit_per_sec, prefix, resource, subject, window_secs, times.last());
        token_keys_differ(prefix, resource, subject);
        if fills(plan, before) {
            record_fills(plan, before);
        } else if draws(plan, before) && tokens_of(plan, before) is Some {
            record_draws(plan, before);
        } else {
            record_fails(plan, before);
        }
    }
}

/// The calls up to `horizon` all fall within one filling of the bucket: either
/// the call at `first` fills it and `horizon` is less than a window later, or
/// the bucket stands with no more tokens than the capacity, was filled less
/// than a window before `horizon`, and does not expire before then.
pub open spec fn within_one_filling(first: Plan, store: Store, horizon: u64) -> bool {
    ||| fills(first, store) && secs_of(horizon as int) - secs_of(first.now_ms as int)
        < first.window
    ||| {
        &&& draws(first, store)
        &&& tokens_of(first, store) is Some
        &&& tokens_of(first, store)->0 <= first.capacity
        &&& secs_of(horizon as int) - stamp_of(first, store)->0 < first.window
        &&& store.live(first.key, horizon as int) is Some
        &&& store.live(first.other, horizon as int) is Some
    }
}

/// The bucket as it stands after `taken` allowed calls of one filling: it was
/// filled less than a window before `horizon`, lives at least until then, and
/// holds at most the capacity less the calls.
pub open spec fn standing(
    store: Store,
    key: Seq<char>,
    other: Seq<char>,
    capacity: u64,
    window_secs: u64,
    taken: int,
    horizon: u64,
) -> bool {
    &&& store.slots.dom().contains(key)
    &&& store.slots.dom().contains(other)
    &&& store.slots[key].deadline is None || store.slots[key].deadline->0 >= horizon
    &&& store.slots[other].deadline is None || store.slots[other].deadline->0 >= horizon
    &&& store.slots[key].content is Number
    &&& store.slots[other].content is Number
    &&& 0 <= store.slots[key].content->Number_0 <= i64::MAX
    &&& secs_of(horizon as int) - store.slots[key].content->Number_0 < window_secs
    &&& fits(store.slots[other].content->Number_0)
    &&& store.slots[other].content->Number_0 <= capacity - taken
}

/// After a run of calls within one filling that were all allowed, the bucket
/// stands with at most the capacity less their number.
proof fn all_allowed(
    limit_per_sec: u64,
    prefix: Seq<char>,
    resource: Seq<char>,
    subject: Seq<char>,
    window_secs: u64,
    times: Seq<u64>,
    horizon: u64,
    store: Store,
)
    requires
        usable(limit_per_sec, window_secs),
        times.len() > 0,
        ascending(times),
        times.last() <= horizon,
        within_one_filling(
            plan_of(limit_per_sec, prefix, resource, subject, window_secs, times[0]),
            store,
            horizon,
        ),
        forall|i: int|
            0 <= i < times.len() ==> replay(
                recording(limit_per_sec, prefix, resource, subject, window_secs),
                times,
                store,
            ).1[i] == allowed(),
    ensures
        standing(
            replay(
                recording(limit_per_sec, prefix, resource, subject, window_secs),
                times,
                store,
            ).0,
            last_set_time_key_of(prefix, resource, subject),
            remaining_key_of(prefix, resource, subject),
            capacity_of(limit_per_sec as int, window_secs as int) as u64,
            window_secs,
            times.len() as int,
            horizon,
        ),
    decreases times.len(),
{
    let begin = recording(limit_per_sec, prefix, resource, subject, window_secs);
    let head = times.drop_last();
    let last = times.last();
    assert(last == times[times.len() - 1]);
    let plan = plan_of(limit_per_sec, prefix, resource, subject, window_secs, last);
    token_keys_differ(prefix, resource, subject);
    replay_last(begin, times, store);
    let before = replay(begin, head, store).0;
    assert(begin(last).run(before).1 == allowed()) by {
        assert(replay(begin, times, store).1[times.len() - 1] == allowed());
    }
    if head.len() == 0 {
        assert(before == store);
        assert(last == times[0]);
        if fills(plan, store) {
            record_fills(plan, store);
            assert(last as int >= secs_of(last as int) * 1000) by {
                vstd::arithmetic::div_mod::lemma_fundamental_div_mod(last as int, 1000);
            }
            assert(horizon as int == 1000 * secs_of(horizon as int) + horizon as int % 1000) by {
                vstd::arithmetic::div_mod::lemma_fundamental_div_mod(horizon as int, 1000);
            }
        } else {
            record_draws(plan, store);
        }
    } else {
        assert forall|i: int| 0 <= i < head.len() implies replay(begin, head, store).1[i]
            == allowed() by {
            assert(replay(begin, times, store).1[i] == allowed());
        }
        assert(ascending(head)) by {
            assert forall|i: int, j: int| 0 <= i <= j < head.len() implies head[i] <= head[j] by {
                assert(head[i] == times[i] && head[j] == times[j]);
            }
        }
        assert(head.last() == times[times.len() - 2]);
        assert(head[0] == times[0]);
        all_allowed(limit_per_sec, prefix, resource, subject, window_secs, head, horizon, store);
        assert(secs_of(last as int) <= secs_of(horizon as int)) by {
            vstd::arithmetic::div_mod::lemma_div_is_ordered(last as int, horizon as int, 1000);
        }
        assert(draws(plan, before));
        record_draws(plan, before);
    }
}

/// Within one filling, a bucket allows no more than the capacity.
///
/// For calls of one subject at times that never go back and all fall within
/// one filling of the bucket, one more than the capacity holds: where the
/// first `capacity` of them were all allowed, the next one is refused.
pub proof fn full_window_refuses(
    limit_per_sec: u64,
    prefix: Seq<char>,
    resource: Seq<char>,
    subject: Seq<char>,
    window_secs: u64,
    times: Seq<u64>,
    store: Store,
)
    requires
        usable(limit_per_sec, window_secs),
        times.len() == capacity_of(limit_per_sec as int, window_secs as int) + 1,
        ascending(times),
        within_one_filling(
            plan_of(limit_per_sec, prefix, resource, subject, window_secs, times[0]),
            store,
            times.last(),
        ),
        forall|i: int|
            0 <= i < times.len() - 1 ==> replay(
                recording(limit_per_sec, prefix, resource, subject, window_secs),
                times,
                store,
            ).1[i] == allowed(),
    ensures
        replay(
            recording(limit_per_sec, prefix, resource, subject, window_secs),
            times,
            store,
        ).1.last() == denied(),
{
    let begin = recording(limit_per_sec, prefix, resource, subject, window_secs);
    let capacity = capacity_of(limit_per_sec as int, window_secs as int);
    assert(capacity >= 1) by (nonlinear_arith)
        requires
            capacity == limit_per_sec * window_secs,
            limit_per_sec >= 1,
            window_secs >= 1,
    ;
    let head = times.drop_last();
    let last = times.last();
    assert(last == times[times.len() - 1]);
    let plan = plan_of(limit_per_sec, prefix, resource, subject, window_secs, last);
    token_keys_differ(prefix, resource, subject);
    replay_last(begin, times, store);
    let before = replay(begin, head, store).0;
    assert forall|i: int| 0 <= i < head.len() implies replay(begin, head, store).1[i]
        == allowed() by {
        assert(replay(begin, times, store).1[i] == allowed());
    }
    assert(ascending(head)) by {
        assert forall|i: int, j: int| 0 <= i <= j < head.len() implies head[i] <= head[j] by {
            assert(head[i] == times[i] && head[j] == times[j]);
        }
    }
    assert(head.last() == times[times.len() - 2]);
    assert(head[0] == times[0]);
    all_allowed(limit_per_sec, prefix, resource, subject, window_secs, head, last, store);
    assert(draws(plan, before));
    record_draws(plan, before);
}

/// 1 for an operation whose decrement is in the count: one that has ended
/// allowed, or one that is about to put its token back.
pub open spec fn holding() -> spec_fn(Stage) -> int {
    |stage: Stage|
        if stage == Stage::Done(Outcome::Verdict(true)) || stage == Stage::TokenBucket(
            Phase::Undo,
        ) {
            1int
        } else {
            0int
        }
}

/// The bucket stands for a call at `now_ms`: it was filled at `stamp` less
/// than a window before, and neither key expires before the call.
pub open spec fn stands_at(
    store: Store,
    key: Seq<char>,
    other: Seq<char>,
    window_secs: u64,
    stamp: int,
    now_ms: u64,
) -> bool {
    &&& store.slots.dom().contains(key)
    &&& store.slots.dom().contains(other)
    &&& store.slots[key].content == Content::Number(stamp)
    &&& 0 <= stamp <= i64::MAX
    &&& !elapsed(secs_of(now_ms as int), stamp, window_secs as int)
    &&& store.slots[key].deadline is None || store.slots[key].deadline->0 >= now_ms
    &&& store.slots[other].deadline is None || store.slots[other].deadline->0 >= now_ms
}

/// 1 for an operation that is about to take back what it took.
pub open spec fn pending() -> spec_fn(Stage) -> int {
    |stage: Stage|
        if stage == Stage::TokenBucket(Phase::Undo) {
            1int
        } else {
            0int
        }
}

/// 1 for an operation that was refused or is about to be.
pub open spec fn turned_away() -> spec_fn(Stage) -> int {
    |stage: Stage|
        if stage == Stage::Done(Outcome::Verdict(false)) || stage
            == Stage::TokenBucket(Phase::Undo) {
            1int
        } else {
            0int
        }
}

/// What holds of any number of `record` calls of one subject in flight on a
/// standing bucket: none of them fills it; the count holds what it began with
/// less one for each call that holds a decrement; and the calls allowed so far
/// do not exceed what the bucket began with.
pub open spec fn in_step(
    flights: Seq<Progress>,
    store: Store,
    key: Seq<char>,
    other: Seq<char>,
    window_secs: u64,
    stamp: int,
    begun_with: int,
) -> bool {
    &&& key != other
    &&& forall|i: int|
        0 <= i < flights.len() ==> {
            let flight = #[trigger] flights[i];
            &&& flight.plan.key == key
            &&& flight.plan.other == other
            &&& flight.plan.window == window_secs
            &&& flight.plan.valid()
            &&& stands_at(store, key, other, window_secs, stamp, flight.plan.now_ms)
            &&& match flight.stage {
                Stage::TokenBucket(phase) => phase == Phase::Stamp || phase == Phase::Left
                    || phase == Phase::Take || phase == Phase::Undo,
                Stage::Done(outcome) => outcome is Verdict,
                Stage::Failed(_) => true,
                _ => false,
            }
        }
    &&& store.slots.dom().contains(other)
    &&& store.slots[other].content == Content::Number(begun_with - tally(flights, holding()))
    &&& fits(begun_with)
    &&& fits(begun_with - tally(flights, holding()))
    &&& 0 <= tally(flights, admitted()) <= tally(flights, holding())
    &&& tally(flights, admitted()) > 0 ==> tally(flights, admitted()) <= begun_with
    &&& tally(flights, turned_away()) > 0 ==> tally(flights, admitted()) >= begun_with
}

/// A turn of any of the calls keeps them in step.
proof fn turn_keeps_step(
    flights: Seq<Progress>,
    store: Store,
    who: int,
    key: Seq<char>,
    other: Seq<char>,
    window_secs: u64,
    stamp: int,
    begun_with: int,
)
    requires
        in_step(flights, store, key, other, window_secs, stamp, begun_with),
    ensures
        in_step(
            take_turn(flights, store, who).0,
            take_turn(flights, store, who).1,
            key,
            other,
            window_secs,
            stamp,
            begun_with,
        ),
{
    if 0 <= who < flights.len() && flights[who].request() is Some {
        let flight = flights[who];
        let plan = flight.plan;
        let now = plan.now_ms as int;
        let left = begun_with - tally(flights, holding());
        let batch = flight.request()->0;
        let (next, answer) = store.execute(batch, now);
        let moved = flight.advance(answer);
        let after = flights.update(who, moved);
        tally_after_turn(flights, who, moved, holding());
        tally_after_turn(flights, who, moved, admitted());
        tally_after_turn(flights, who, moved, turned_away());
        tally_adds(flights, admitted(), pending(), holding());
        tally_is_monotone(flights, pending(), turned_away());
        tally_counts_each(flights, who, pending());
        let get = Entry { command: Command::Get { key }, ignored: false };
        let read = Entry { command: Command::Get { key: other }, ignored: false };
        let take = Entry { command: Command::Decrement { key: other, delta: 1 }, ignored: false };
        let undo = Entry { command: Command::Increment { key: other, delta: 1 }, ignored: false };
        assert(store.live(key, now) == Some(store.slots[key]));
        assert(store.live(other, now) == Some(store.slots[other]));
        assert forall|i: int| 0 <= i < after.len() && i != who implies after[i]
            == flights[i] by {}
        match flight.stage {
            Stage::TokenBucket(Phase::Stamp) => {
                execute_one(store, true, get, now);
                assert(answer == Answer::Values(seq![Some(stamp as i64)]));
                assert(moved.stage == Stage::TokenBucket(Phase::Left));
                assert(in_step(after, next, key, other, window_secs, stamp, begun_with));
            },
            Stage::TokenBucket(Phase::Left) => {
                execute_one(store, true, read, now);
                assert(answer == Answer::Values(seq![Some(left as i64)]));
                assert(holding()(moved.stage) == 0 && admitted()(moved.stage) == 0);
                assert(in_step(after, next, key, other, window_secs, stamp, begun_with));
            },
            Stage::TokenBucket(Phase::Take) => {
                execute_one(store, true, take, now);
                if fits(left - 1) {
                    let lowered = Slot {
                        content: Content::Number(left - 1),
                        deadline: store.slots[other].deadline,
                    };
                    assert(next == store.put(other, lowered));
                    assert(answer == Answer::Values(seq![Some((left - 1) as i64)]));
                    assert(holding()(moved.stage) == 1);
                    tally_is_monotone(after, admitted(), holding());
                    tally_counts_each(after, who, admitted());
                    assert(in_step(after, next, key, other, window_secs, stamp, begun_with));
                } else {
                    assert(answer == Answer::Failed(Fault::Command));
                    assert(next == store);
                    assert(in_step(after, next, key, other, window_secs, stamp, begun_with));
                }
            },
            Stage::TokenBucket(Phase::Undo) => {
                execute_one(store, true, undo, now);
                assert(holding()(flight.stage) == 1);
                tally_counts_each(flights, who, holding());
                let raised = Slot {
                    content: Content::Number(left + 1),
                    deadline: store.slots[other].deadline,
                };
                assert(next == store.put(other, raised));
                assert(moved.stage == verdict(false));
                tally_is_monotone(after, admitted(), holding());
                tally_counts_each(after, who, admitted());
                assert(in_step(after, next, key, other, window_secs, stamp, begun_with));
            },
            _ => {},
        }
    }
}

/// Any turns keep the calls in step.
proof fn turns_keep_step(
    flights: Seq<Progress>,
    store: Store,
    turns: Seq<int>,
    key: Seq<char>,
    other: Seq<char>,
    window_secs: u64,
    stamp: int,
    begun_with: int,
)
    requires
        in_step(flights, store, key, other, window_secs, stamp, begun_with),
    ensures
        in_step(
            interleave(flights, store, turns).0,
            interleave(flights, store, turns).1,
            key,
            other,
            window_secs,
            stamp,
            begun_with,
        ),
    decreases turns.len(),
{
    if turns.len() > 0 {
        turns_keep_step(
            flights,
            store,
            turns.drop_last(),
            key,
            other,
            window_secs,
            stamp,
            begun_with,
        );
        let (before, held) = interleave(flights, store, turns.drop_last());
        turn_keeps_step(before, held, turns.last(), key, other, window_secs, stamp, begun_with);
    }
}

/// However the batches of concurrent callers interleave, a standing bucket
/// gives out no more tokens than it holds.
///
/// Any number of `record` calls of one subject have their batches run in any
/// order whatever, each call any number of turns, some perhaps never
/// finishing. The bucket stands for all of them: it was filled less than a
/// window before each call's time and does not expire before it. Then at
/// every moment the calls that have ended allowed number no more than the
/// tokens the bucket began with; and once a call has ended refused they
/// number exactly those tokens, unless the count began below zero: no call
/// is refused while a token is left.
pub proof fn no_interleaving_overdraws(
    limit_per_sec: u64,
    prefix: Seq<char>,
    resource: Seq<char>,
    subject: Seq<char>,
    window_secs: u64,
    times: Seq<u64>,
    turns: Seq<int>,
    stamp: int,
    store: Store,
)
    requires
        usable(limit_per_sec, window_secs),
        forall|i: int|
            0 <= i < times.len() ==> stands_at(
                store,
                last_set_time_key_of(prefix, resource, subject),
                remaining_key_of(prefix, resource, subject),
                window_secs,
                stamp,
                #[trigger] times[i],
            ),
        store.slots.dom().contains(remaining_key_of(prefix, resource, subject)),
        store.slots[remaining_key_of(prefix, resource, subject)].content is Number,
        fits(store.slots[remaining_key_of(prefix, resource, subject)].content->Number_0),
    ensures
        ({
            let begun_with = store.slots[remaining_key_of(
                prefix,
                resource,
                subject,
            )].content->Number_0;
            let flights = setting_out(
                recording(limit_per_sec, prefix, resource, subject, window_secs),
                times,
            );
            let allowed = tally(interleave(flights, store, turns).0, admitted());
            let turned = tally(interleave(flights, store, turns).0, refused());
            &&& allowed == 0 || allowed <= begun_with
            &&& turned > 0 ==> allowed >= begun_with
        }),
{
    let key = last_set_time_key_of(prefix, resource, subject);
    let other = remaining_key_of(prefix, resource, subject);
    let begun_with = store.slots[other].content->Number_0;
    let flights = setting_out(
        recording(limit_per_sec, prefix, resource, subject, window_secs),
        times,
    );
    token_keys_differ(prefix, resource, subject);
    nothing_yet(flights, holding());
    nothing_yet(flights, admitted());
    nothing_yet(flights, turned_away());
    assert(in_step(flights, store, key, other, window_secs, stamp, begun_with));
    turns_keep_step(flights, store, turns, key, other, window_secs, stamp, begun_with);
    tally_is_monotone(interleave(flights, store, turns).0, refused(), turned_away());
}

} // verus!
