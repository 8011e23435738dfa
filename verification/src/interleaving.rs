//! Several operations in flight at once.
//!
//! The store runs one batch at a time, but the batches of different callers
//! may come in any order. An interleaving plays a number of operations against
//! the model of the store turn by turn: at each turn one of them has its next
//! batch run and takes the answer. The algorithm modules prove of these what
//! must hold however the turns fall.

use vstd::prelude::*;
use crate::exchange::{Outcome, Progress, Stage};
use crate::store::Store;

verus! {

/// One turn: the operation `who` has its next batch run and moves on. A turn
/// of an operation that is over, or of none, changes nothing.
pub open spec fn take_turn(flights: Seq<Progress>, store: Store, who: int) -> (
    Seq<Progress>,
    Store,
) {
    if 0 <= who < flights.len() {
        match flights[who].request() {
            Some(batch) => {
                let (next, answer) = store.execute(batch, flights[who].plan.now_ms as int);
                (flights.update(who, flights[who].advance(answer)), next)
            },
            None => (flights, store),
        }
    } else {
        (flights, store)
    }
}

/// The operations after the turns given, in order.
pub open spec fn interleave(flights: Seq<Progress>, store: Store, turns: Seq<int>) -> (
    Seq<Progress>,
    Store,
)
    decreases turns.len(),
{
    if turns.len() == 0 {
        (flights, store)
    } else {
        let (before, held) = interleave(flights, store, turns.drop_last());
        take_turn(before, held, turns.last())
    }
}

/// The operations that `begin` starts at each of `times`, none begun yet.
pub open spec fn setting_out(begin: spec_fn(u64) -> Progress, times: Seq<u64>) -> Seq<Progress> {
    Seq::new(times.len(), |i: int| begin(times[i]))
}

/// The sum of a weight over the stages of the operations.
pub open spec fn tally(flights: Seq<Progress>, weight: spec_fn(Stage) -> int) -> int
    decreases flights.len(),
{
    if flights.len() == 0 {
        0
    } else {
        tally(flights.drop_last(), weight) + weight(flights.last().stage)
    }
}

/// 1 for an operation that has ended allowed, 0 for any other.
pub open spec fn admitted() -> spec_fn(Stage) -> int {
    |stage: Stage|
        if stage == Stage::Done(Outcome::Verdict(true)) {
            1int
        } else {
            0int
        }
}

/// 1 for an operation that has ended refused, 0 for any other.
pub open spec fn refused() -> spec_fn(Stage) -> int {
    |stage: Stage|
        if stage == Stage::Done(Outcome::Verdict(false)) {
            1int
        } else {
            0int
        }
}

/// The tally of a weight that is the sum of two is the sum of their tallies.
pub proof fn tally_adds(
    flights: Seq<Progress>,
    one: spec_fn(Stage) -> int,
    other: spec_fn(Stage) -> int,
    both: spec_fn(Stage) -> int,
)
    requires
        forall|stage: Stage| #[trigger] both(stage) == one(stage) + other(stage),
    ensures
        tally(flights, both) == tally(flights, one) + tally(flights, other),
    decreases flights.len(),
{
    if flights.len() > 0 {
        tally_adds(flights.drop_last(), one, other, both);
        assert(both(flights.last().stage) == one(flights.last().stage) + other(
            flights.last().stage,
        ));
    }
}

/// When one operation moves on, the tally changes by the difference of its
/// weights.
pub proof fn tally_after_turn(
    flights: Seq<Progress>,
    who: int,
    moved: Progress,
    weight: spec_fn(Stage) -> int,
)
    requires
        0 <= who < flights.len(),
    ensures
        tally(flights.update(who, moved), weight) == tally(flights, weight) - weight(
            flights[who].stage,
        ) + weight(moved.stage),
    decreases flights.len(),
{
    let after = flights.update(who, moved);
    if who == flights.len() - 1 {
        assert(after.drop_last() =~= flights.drop_last());
    } else {
        assert(after.drop_last() =~= flights.drop_last().update(who, moved));
        tally_after_turn(flights.drop_last(), who, moved, weight);
    }
}

/// A weight that is nowhere above another tallies no higher, and a weight
/// that is never negative tallies to no less than 0.
pub proof fn tally_is_monotone(
    flights: Seq<Progress>,
    lower: spec_fn(Stage) -> int,
    higher: spec_fn(Stage) -> int,
)
    requires
        forall|stage: Stage| #[trigger] lower(stage) <= higher(stage),
    ensures
        tally(flights, lower) <= tally(flights, higher),
    decreases flights.len(),
{
    if flights.len() > 0 {
        tally_is_monotone(flights.drop_last(), lower, higher);
    }
}

/// Where no weight is negative, the tally is at least the weight of any one
/// of the operations.
pub proof fn tally_counts_each(flights: Seq<Progress>, who: int, weight: spec_fn(Stage) -> int)
    requires
        0 <= who < flights.len(),
        forall|stage: Stage| #[trigger] weight(stage) >= 0,
    ensures
        tally(flights, weight) >= weight(flights[who].stage),
        tally(flights, weight) >= 0,
    decreases flights.len(),
{
    let head = flights.drop_last();
    assert(flights.last() == flights[flights.len() - 1]);
    assert(weight(flights.last().stage) >= 0);
    if who < flights.len() - 1 {
        tally_counts_each(head, who, weight);
        assert(head[who] == flights[who]);
    } else if head.len() > 0 {
        tally_counts_each(head, 0, weight);
    }
}

/// Operations that all weigh nothing tally to nothing.
pub proof fn nothing_yet(flights: Seq<Progress>, weight: spec_fn(Stage) -> int)
    requires
        forall|i: int| 0 <= i < flights.len() ==> weight((#[trigger] flights[i]).stage) == 0,
    ensures
        tally(flights, weight) == 0,
    decreases flights.len(),
{
    if flights.len() > 0 {
        let head = flights.drop_last();
        assert forall|i: int| 0 <= i < head.len() implies weight((#[trigger] head[i]).stage)
            == 0 by {
            assert(head[i] == flights[i]);
        }
        nothing_yet(head, weight);
        assert(flights.last() == flights[flights.len() - 1]);
    }
}

} // verus!
