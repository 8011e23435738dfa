//! One limiter operation as a conversation with the store.
//!
//! An [`Exchange`] never talks to the store itself. [`Exchange::step`] says
//! what to do next: send a pipeline, or stop with a result. The caller sends
//! the pipeline, reads the reply as one optional integer for each command that
//! was not ignored (or, for a pipeline that reads a list, as the list's
//! elements), and hands it to [`Exchange::advance`]. [`Progress::run`]
//! is the same loop played against the model of the store.

use vstd::prelude::*;
use crate::clock::MAX_WINDOW_SECS;
use crate::command::{carries, Batch};
use crate::error::{Fault, LimiterError};
use crate::fixed_window;
use crate::leaky_bucket;
use crate::sliding_log;
use crate::sliding_window;
use crate::token_bucket;
use crate::store::{Answer, Store};

verus! {

/// How an operation ended.
#[derive(Debug, Clone, Copy, PartialEq, Eq, Structural)]
pub enum Outcome {
    /// A `record`: whether the caller may proceed.
    Verdict(bool),
    /// A `fetch`: the consumption, or for a token bucket what is left.
    Count(u64),
    /// A leak step was carried out.
    Drained,
}

impl Outcome {
    /// The verdict of a `record`; `None` for any other outcome.
    pub fn verdict(&self) -> (r: Option<bool>)
        ensures
            r == match *self {
                Outcome::Verdict(allow) => Some(allow),
                _ => None::<bool>,
            },
    {
        match self {
            Outcome::Verdict(allow) => Some(*allow),
            _ => None,
        }
    }

    /// The count of a `fetch`; `None` for any other outcome.
    pub fn count(&self) -> (r: Option<u64>)
        ensures
            r == match *self {
                Outcome::Count(count) => Some(count),
                _ => None::<u64>,
            },
    {
        match self {
            Outcome::Count(count) => Some(*count),
            _ => None,
        }
    }
}

/// What the store answered to a pipeline, as the caller read it.
#[derive(Debug)]
pub enum Reply {
    /// One value for each command that was not ignored, in order; `None` for
    /// the store's nil.
    Values(Vec<Option<i64>>),
    /// The pipeline could not be sent or was refused.
    Failed(Fault),
}

impl View for Reply {
    type V = Answer;

    open spec fn view(&self) -> Answer {
        match self {
            Reply::Values(values) => Answer::Values(values@),
            Reply::Failed(fault) => Answer::Failed(*fault),
        }
    }
}

/// Where an operation stands: the round trip it waits for, or its result.
#[derive(Debug, Clone, Copy, PartialEq, Eq, Structural)]
pub enum Stage {
    /// Waiting for a round trip of a fixed-window operation.
    FixedWindow(fixed_window::Phase),
    /// Waiting for a round trip of a token-bucket operation.
    TokenBucket(token_bucket::Phase),
    /// Waiting for a round trip of a sliding-window operation.
    SlidingWindow(sliding_window::Phase),
    /// Waiting for a round trip of a sliding-log operation.
    SlidingLog(sliding_log::Phase),
    /// Waiting for a round trip of a leaky-bucket operation.
    LeakyBucket(leaky_bucket::Phase),
    /// Over, with a result.
    Done(Outcome),
    /// Over, with an error.
    Failed(LimiterError),
}

impl Stage {
    /// The result of a stage at which an operation is over.
    pub open spec fn result(self) -> Option<Result<Outcome, LimiterError>> {
        match self {
            Stage::Done(outcome) => Some(Ok(outcome)),
            Stage::Failed(error) => Some(Err(error)),
            _ => None,
        }
    }
}

/// What must be done next for an operation.
pub enum Step {
    /// Send this pipeline and hand the reply to `advance`: one value for each
    /// command that was not ignored.
    Send(redis::Pipeline),
    /// Send this pipeline, which holds one command that reads a list, and
    /// hand the list to `advance`, its elements as the values.
    Read(redis::Pipeline),
    /// The operation is over.
    Done(Result<Outcome, LimiterError>),
}

/// The values an operation was begun with.
pub struct Params {
    /// The key the operation works on: a counter, a ledger, a queue, or a
    /// token bucket's refill time.
    pub key: String,
    /// A second key where the algorithm has one: the previous window's
    /// counter, or a token bucket's remaining tokens.
    pub other: String,
    /// Units a caller may take within one window.
    pub capacity: u64,
    /// The window, in seconds.
    pub window: u64,
    /// The caller's clock when the operation began, in milliseconds.
    pub now_ms: u64,
}

/// [`Params`] as plain mathematical values.
pub struct Plan {
    pub key: Seq<char>,
    pub other: Seq<char>,
    pub capacity: u64,
    pub window: u64,
    pub now_ms: u64,
}

impl View for Params {
    type V = Plan;

    open spec fn view(&self) -> Plan {
        Plan {
            key: self.key@,
            other: self.other@,
            capacity: self.capacity,
            window: self.window,
            now_ms: self.now_ms,
        }
    }
}

impl Plan {
    /// The window is one that the arithmetic of the algorithms can take.
    pub open spec fn valid(self) -> bool {
        0 < self.window <= MAX_WINDOW_SECS
    }
}

/// The stage an operation fails into when a reply has the wrong shape.
pub open spec fn malformed() -> Stage {
    Stage::Failed(LimiterError::Command)
}

/// The stage of a finished `record`.
pub open spec fn verdict(allow: bool) -> Stage {
    Stage::Done(Outcome::Verdict(allow))
}

/// The stage of a finished `fetch`.
pub open spec fn counted(count: u64) -> Stage {
    Stage::Done(Outcome::Count(count))
}

/// The only value of a reply that must hold exactly one.
pub open spec fn single(values: Seq<Option<i64>>) -> Option<Option<i64>> {
    if values.len() == 1 {
        Some(values[0])
    } else {
        None
    }
}

/// The only value of a reply that must hold exactly one.
pub(crate) fn read_single(values: &Vec<Option<i64>>) -> (r: Option<Option<i64>>)
    ensures
        r == single(values@),
{
    if values.len() == 1 {
        Some(values[0])
    } else {
        None
    }
}

/// An operation as a mathematical value: what it was begun with and where it
/// stands.
pub struct Progress {
    pub plan: Plan,
    pub stage: Stage,
}

impl Progress {
    /// The window is valid and, for a trim, the positions fit the machine:
    /// what it takes to build the pipeline of this stage.
    pub open spec fn sendable(self) -> bool {
        &&& self.plan.valid()
        &&& self.stage matches Stage::LeakyBucket(phase) ==> leaky_bucket::positions_fit(phase)
    }

    /// The batch of this stage reads a list.
    pub open spec fn reads_list(self) -> bool {
        self.stage == Stage::LeakyBucket(leaky_bucket::Phase::Scan)
    }

    /// The batch to send at this stage; `None` once the operation is over.
    pub open spec fn request(self) -> Option<Batch> {
        match self.stage {
            Stage::FixedWindow(phase) => Some(fixed_window::request(self.plan, phase)),
            Stage::TokenBucket(phase) => Some(token_bucket::request(self.plan, phase)),
            Stage::SlidingWindow(phase) => Some(sliding_window::request(self.plan, phase)),
            Stage::SlidingLog(phase) => Some(sliding_log::request(self.plan, phase)),
            Stage::LeakyBucket(phase) => Some(leaky_bucket::request(self.plan, phase)),
            Stage::Done(_) | Stage::Failed(_) => None,
        }
    }

    /// The result of a finished operation.
    pub open spec fn outcome(self) -> Option<Result<Outcome, LimiterError>> {
        self.stage.result()
    }

    /// The stage that follows when the store answered with `values`.
    pub open spec fn react(self, values: Seq<Option<i64>>) -> Stage {
        match self.stage {
            Stage::FixedWindow(phase) => fixed_window::react(self.plan, phase, values),
            Stage::TokenBucket(phase) => token_bucket::react(self.plan, phase, values),
            Stage::SlidingWindow(phase) => sliding_window::react(self.plan, phase, values),
            Stage::SlidingLog(phase) => sliding_log::react(self.plan, phase, values),
            Stage::LeakyBucket(phase) => leaky_bucket::react(self.plan, phase, values),
            Stage::Done(_) | Stage::Failed(_) => self.stage,
        }
    }

    /// The operation after an answer: a failed batch ends it with the fault's
    /// error, values move it on, and a finished operation stays as it is.
    pub open spec fn advance(self, answer: Answer) -> Progress {
        match self.stage {
            Stage::Done(_) | Stage::Failed(_) => self,
            _ => match answer {
                Answer::Failed(fault) => Progress {
                    plan: self.plan,
                    stage: Stage::Failed(LimiterError::of_fault(fault)),
                },
                Answer::Values(values) => Progress { plan: self.plan, stage: self.react(values) },
            },
        }
    }

    /// The operation played against a store for at most `rounds` round trips,
    /// each batch executed at the time the operation began.
    pub open spec fn run_for(self, store: Store, rounds: nat) -> (Store, Progress)
        decreases rounds,
    {
        match self.request() {
            None => (store, self),
            Some(batch) => if rounds == 0 {
                (store, self)
            } else {
                let (next, answer) = store.execute(batch, self.plan.now_ms as int);
                self.advance(answer).run_for(next, (rounds - 1) as nat)
            },
        }
    }

    /// The operation played against a store to its end: the store afterwards
    /// and the result. No operation takes more than four round trips.
    pub open spec fn run(self, store: Store) -> (Store, Option<Result<Outcome, LimiterError>>) {
        let (after, last) = self.run_for(store, 4);
        (after, last.outcome())
    }

    /// The most round trips the operation can still take.
    pub open spec fn rounds_left(self) -> nat {
        match self.stage {
            Stage::FixedWindow(phase) => match phase {
                fixed_window::Phase::Read => 4,
                fixed_window::Phase::Init => 3,
                fixed_window::Phase::Increment => 2,
                fixed_window::Phase::Undo => 1,
                fixed_window::Phase::Fetch => 1,
            },
            Stage::TokenBucket(phase) => match phase {
                token_bucket::Phase::Stamp => 4,
                token_bucket::Phase::Init => 3,
                token_bucket::Phase::Refill => 3,
                token_bucket::Phase::Left => 3,
                token_bucket::Phase::Take => 2,
                token_bucket::Phase::Undo => 1,
                token_bucket::Phase::FetchStamp { .. } => 2,
                token_bucket::Phase::FetchLeft { .. } => 1,
            },
            Stage::SlidingWindow(phase) => match phase {
                sliding_window::Phase::Read => 2,
                sliding_window::Phase::Increment => 1,
                sliding_window::Phase::Fetch => 1,
            },
            Stage::SlidingLog(phase) => match phase {
                sliding_log::Phase::Count => 2,
                sliding_log::Phase::Insert => 1,
                sliding_log::Phase::Fetch => 1,
            },
            Stage::LeakyBucket(phase) => match phase {
                leaky_bucket::Phase::Length => 2,
                leaky_bucket::Phase::Push => 1,
                leaky_bucket::Phase::Fetch => 1,
                leaky_bucket::Phase::Scan => 2,
                leaky_bucket::Phase::Trim { .. } => 1,
            },
            Stage::Done(_) | Stage::Failed(_) => 0,
        }
    }
}

/// What an operation is after: a verdict, a count, or a leak step.
pub enum Aim {
    Record,
    Fetch,
    Leak,
}

impl Stage {
    /// What the operation at this stage is after; `None` once it has failed.
    pub open spec fn aim(self) -> Option<Aim> {
        match self {
            Stage::FixedWindow(phase) => Some(
                if phase == fixed_window::Phase::Fetch {
                    Aim::Fetch
                } else {
                    Aim::Record
                },
            ),
            Stage::TokenBucket(phase) => Some(
                if phase is FetchStamp || phase is FetchLeft {
                    Aim::Fetch
                } else {
                    Aim::Record
                },
            ),
            Stage::SlidingWindow(phase) => Some(
                if phase == sliding_window::Phase::Fetch {
                    Aim::Fetch
                } else {
                    Aim::Record
                },
            ),
            Stage::SlidingLog(phase) => Some(
                if phase == sliding_log::Phase::Fetch {
                    Aim::Fetch
                } else {
                    Aim::Record
                },
            ),
            Stage::LeakyBucket(phase) => Some(
                if phase == leaky_bucket::Phase::Fetch {
                    Aim::Fetch
                } else if phase == leaky_bucket::Phase::Scan || phase is Trim {
                    Aim::Leak
                } else {
                    Aim::Record
                },
            ),
            Stage::Done(outcome) => Some(
                match outcome {
                    Outcome::Verdict(_) => Aim::Record,
                    Outcome::Count(_) => Aim::Fetch,
                    Outcome::Drained => Aim::Leak,
                },
            ),
            Stage::Failed(_) => None,
        }
    }
}

/// An operation stays what it began as: a `record` ends in a verdict, a
/// `fetch` in a count and a leak step in `Drained`, unless it fails.
pub proof fn advance_keeps_aim(progress: Progress, answer: Answer)
    ensures
        progress.advance(answer).stage is Failed || progress.advance(answer).stage.aim()
            == progress.stage.aim(),
{
}

/// Every answer brings an operation closer to its end: whatever the store
/// says, fewer round trips are left after it than before.
pub proof fn advance_comes_closer(progress: Progress, answer: Answer)
    requires
        progress.request() is Some,
    ensures
        progress.advance(answer).rounds_left() < progress.rounds_left(),
        progress.advance(answer).plan == progress.plan,
{
}

/// An operation is over after as many round trips as it had left.
pub proof fn run_for_ends(progress: Progress, store: Store, rounds: nat)
    requires
        progress.rounds_left() <= rounds,
    ensures
        progress.run_for(store, rounds).1.outcome() is Some,
    decreases rounds,
{
    if progress.request() is Some {
        let (next, answer) = store.execute(progress.request()->0, progress.plan.now_ms as int);
        advance_comes_closer(progress, answer);
        run_for_ends(progress.advance(answer), next, (rounds - 1) as nat);
    }
}

/// Every operation ends: played against any store, it has a result after at
/// most four round trips.
pub proof fn run_ends(progress: Progress, store: Store)
    ensures
        progress.run(store).1 is Some,
{
    run_for_ends(progress, store, 4);
}

/// A limiter operation in progress.
pub struct Exchange {
    params: Params,
    stage: Stage,
}

impl View for Exchange {
    type V = Progress;

    closed spec fn view(&self) -> Progress {
        Progress { plan: self.params@, stage: self.stage }
    }
}

impl Exchange {
    /// Every exchange can build the pipeline of its stage.
    #[verifier::type_invariant]
    spec fn sound(self) -> bool {
        (Progress { plan: self.params@, stage: self.stage }).sendable()
    }

    /// An operation at a given stage.
    pub(crate) fn at(params: Params, stage: Stage) -> (exchange: Exchange)
        requires
            (Progress { plan: params@, stage }).sendable(),
        ensures
            exchange@ == (Progress { plan: params@, stage }),
    {
        Exchange { params, stage }
    }

    /// Whether the operation is over.
    pub fn finished(&self) -> (done: bool)
        ensures
            done == (self@.request() is None),
            done == (self@.outcome() is Some),
    {
        match self.stage {
            Stage::Done(_) | Stage::Failed(_) => true,
            _ => false,
        }
    }

    /// What to do next: the pipeline to send, holding exactly the batch of
    /// this stage, or the result. The pipeline comes as `Read` exactly where
    /// the stage reads a list.
    pub fn step(&self) -> (step: Step)
        ensures
            match self@.request() {
                Some(batch) => if self@.reads_list() {
                    step matches Step::Read(p) && carries(p, batch)
                } else {
                    step matches Step::Send(p) && carries(p, batch)
                },
                None => step matches Step::Done(result) && Some(result) == self@.outcome(),
            },
    {
        proof {
            use_type_invariant(self);
        }
        match self.stage {
            Stage::FixedWindow(phase) => Step::Send(fixed_window::build(&self.params, phase)),
            Stage::TokenBucket(phase) => Step::Send(token_bucket::build(&self.params, phase)),
            Stage::SlidingWindow(phase) => Step::Send(sliding_window::build(&self.params, phase)),
            Stage::SlidingLog(phase) => Step::Send(sliding_log::build(&self.params, phase)),
            Stage::LeakyBucket(phase) => {
                let pipeline = leaky_bucket::build(&self.params, phase);
                match phase {
                    leaky_bucket::Phase::Scan => Step::Read(pipeline),
                    _ => Step::Send(pipeline),
                }
            },
            Stage::Done(outcome) => Step::Done(Ok(outcome)),
            Stage::Failed(error) => Step::Done(Err(error)),
        }
    }

    /// Takes the store's reply to the pipeline of this stage and moves on.
    pub fn advance(self, reply: Reply) -> (next: Exchange)
        ensures
            next@ == self@.advance(reply@),
    {
        proof {
            use_type_invariant(&self);
        }
        match self.stage {
            Stage::Done(_) | Stage::Failed(_) => self,
            _ => {
                let stage = match &reply {
                    Reply::Failed(fault) => Stage::Failed(LimiterError::from_fault(*fault)),
                    Reply::Values(values) => match self.stage {
                        Stage::FixedWindow(phase) => fixed_window::respond(
                            &self.params,
                            phase,
                            values,
                        ),
                        Stage::TokenBucket(phase) => token_bucket::respond(
                            &self.params,
                            phase,
                            values,
                        ),
                        Stage::SlidingWindow(phase) => sliding_window::respond(
                            &self.params,
                            phase,
                            values,
                        ),
                        Stage::SlidingLog(phase) => sliding_log::respond(
                            &self.params,
                            phase,
                            values,
                        ),
                        Stage::LeakyBucket(phase) => leaky_bucket::respond(
                            &self.params,
                            phase,
                            values,
                        ),
                        Stage::Done(_) | Stage::Failed(_) => self.stage,
                    },
                };
                Exchange { params: self.params, stage }
            },
        }
    }
}

} // verus!
