//! The commands a limiter sends, as values to reason about, and the builder
//! that queues them in a Redis pipeline.

use vstd::prelude::*;
use crate::pipeline::{
    ignore_last, make_atomic, new_pipeline, pipeline_atomic, pipeline_commands, pipeline_ignored,
    queue_decr, queue_expire, queue_get, queue_incr, queue_llen, queue_lrange, queue_ltrim,
    queue_rpush,
    queue_set, queue_set_nx, queue_zadd, queue_zcard, queue_zrembyscore,
};
use crate::text::{decimal, decimal_string, signed_decimal};
use vstd::string::*;

verus! {

/// One store command, as the model of the store understands it.
pub enum Command {
    /// Read the number at `key`.
    Get { key: Seq<char> },
    /// Write `value` at `key` unless the key exists.
    SetIfAbsent { key: Seq<char>, value: int },
    /// Write `value` at `key`, dropping any expiration.
    Write { key: Seq<char>, value: int },
    /// Add `delta` to the number at `key`.
    Increment { key: Seq<char>, delta: int },
    /// Take `delta` from the number at `key`.
    Decrement { key: Seq<char>, delta: int },
    /// Let `key` expire `seconds` from now.
    Expire { key: Seq<char>, seconds: int },
    /// Remove from the sorted set at `key` the members scored from 0 up to,
    /// but not including, `bound`.
    RemoveBelow { key: Seq<char>, bound: int },
    /// Put `member` with `score` into the sorted set at `key`.
    Add { key: Seq<char>, score: int, member: int },
    /// Count the members of the sorted set at `key`.
    Cardinality { key: Seq<char> },
    /// Append `value` to the list at `key`.
    PushTail { key: Seq<char>, value: int },
    /// Keep of the list at `key` the positions `start` to `stop`, both included.
    Trim { key: Seq<char>, start: int, stop: int },
    /// Count the elements of the list at `key`.
    Length { key: Seq<char> },
    /// Read the whole list at `key`, head first.
    Items { key: Seq<char> },
}

impl Command {
    /// The key a command works on.
    pub open spec fn key(self) -> Seq<char> {
        match self {
            Command::Get { key } => key,
            Command::SetIfAbsent { key, .. } => key,
            Command::Write { key, .. } => key,
            Command::Increment { key, .. } => key,
            Command::Decrement { key, .. } => key,
            Command::Expire { key, .. } => key,
            Command::RemoveBelow { key, .. } => key,
            Command::Add { key, .. } => key,
            Command::Cardinality { key } => key,
            Command::PushTail { key, .. } => key,
            Command::Trim { key, .. } => key,
            Command::Length { key } => key,
            Command::Items { key } => key,
        }
    }

    /// The arguments that spell the command on the wire, its name first.
    pub open spec fn wire(self) -> Seq<Seq<char>> {
        match self {
            Command::Get { key } => seq!["GET"@, key],
            Command::SetIfAbsent { key, value } => seq!["SETNX"@, key, signed_decimal(value)],
            Command::Write { key, value } => seq!["SET"@, key, signed_decimal(value)],
            Command::Increment { key, delta } => seq!["INCRBY"@, key, signed_decimal(delta)],
            Command::Decrement { key, delta } => seq!["DECRBY"@, key, signed_decimal(delta)],
            Command::Expire { key, seconds } => seq!["EXPIRE"@, key, signed_decimal(seconds)],
            Command::RemoveBelow { key, bound } => seq![
                "ZREMRANGEBYSCORE"@,
                key,
                decimal(0),
                seq!['('] + signed_decimal(bound),
            ],
            Command::Add { key, score, member } => seq![
                "ZADD"@,
                key,
                signed_decimal(score),
                signed_decimal(member),
            ],
            Command::Cardinality { key } => seq!["ZCARD"@, key],
            Command::PushTail { key, value } => seq!["RPUSH"@, key, signed_decimal(value)],
            Command::Trim { key, start, stop } => seq![
                "LTRIM"@,
                key,
                signed_decimal(start),
                signed_decimal(stop),
            ],
            Command::Length { key } => seq!["LLEN"@, key],
            Command::Items { key } => seq!["LRANGE"@, key, signed_decimal(0), signed_decimal(-1)],
        }
    }
}

/// A command in a batch, and whether its reply is left out of the result.
pub struct Entry {
    pub command: Command,
    pub ignored: bool,
}

/// What is sent to the store in one round trip.
pub struct Batch {
    /// Whether the commands run as one indivisible unit.
    pub atomic: bool,
    pub entries: Seq<Entry>,
}

impl Batch {
    /// A batch with no command yet.
    pub open spec fn empty(atomic: bool) -> Batch {
        Batch { atomic, entries: Seq::empty() }
    }

    /// The batch with one more command at its end.
    pub open spec fn with(self, command: Command, ignored: bool) -> Batch {
        Batch { atomic: self.atomic, entries: self.entries.push(Entry { command, ignored }) }
    }

    /// The wire form of each command, in order.
    pub open spec fn wires(self) -> Seq<Seq<Seq<char>>> {
        Seq::new(self.entries.len(), |i: int| self.entries[i].command.wire())
    }

    /// The positions of the ignored commands.
    pub open spec fn ignored(self) -> Set<int> {
        Set::new(|i: int| 0 <= i < self.entries.len() && self.entries[i].ignored)
    }
}

/// The pipeline holds exactly the batch: the same commands in the same order,
/// the same ones ignored, atomic or not alike.
pub open spec fn carries(p: redis::Pipeline, batch: Batch) -> bool {
    &&& pipeline_atomic(p) == batch.atomic
    &&& pipeline_commands(p) == batch.wires()
    &&& pipeline_ignored(p) == batch.ignored()
}

/// A command with the values it is built from, ready to be queued.
pub(crate) enum Order<'a> {
    Get { key: &'a str },
    SetIfAbsent { key: &'a str, value: u64 },
    Write { key: &'a str, value: u64 },
    Increment { key: &'a str, delta: u64 },
    Decrement { key: &'a str, delta: u64 },
    Expire { key: &'a str, seconds: usize },
    RemoveBelow { key: &'a str, bound: u64 },
    Add { key: &'a str, score: u64, member: u64 },
    Cardinality { key: &'a str },
    PushTail { key: &'a str, value: u64 },
    Trim { key: &'a str, start: isize, stop: isize },
    Length { key: &'a str },
    Items { key: &'a str },
}

impl<'a> Order<'a> {
    /// The command an order stands for.
    pub(crate) open spec fn command(self) -> Command {
        match self {
            Order::Get { key } => Command::Get { key: key@ },
            Order::SetIfAbsent { key, value } => Command::SetIfAbsent {
                key: key@,
                value: value as int,
            },
            Order::Write { key, value } => Command::Write { key: key@, value: value as int },
            Order::Increment { key, delta } => Command::Increment {
                key: key@,
                delta: delta as int,
            },
            Order::Decrement { key, delta } => Command::Decrement {
                key: key@,
                delta: delta as int,
            },
            Order::Expire { key, seconds } => Command::Expire {
                key: key@,
                seconds: seconds as int,
            },
            Order::RemoveBelow { key, bound } => Command::RemoveBelow {
                key: key@,
                bound: bound as int,
            },
            Order::Add { key, score, member } => Command::Add {
                key: key@,
                score: score as int,
                member: member as int,
            },
            Order::Cardinality { key } => Command::Cardinality { key: key@ },
            Order::PushTail { key, value } => Command::PushTail { key: key@, value: value as int },
            Order::Trim { key, start, stop } => Command::Trim {
                key: key@,
                start: start as int,
                stop: stop as int,
            },
            Order::Length { key } => Command::Length { key: key@ },
            Order::Items { key } => Command::Items { key: key@ },
        }
    }
}

/// A pipeline under construction, together with the batch it holds so far.
pub(crate) struct Draft {
    pub pipeline: redis::Pipeline,
    pub batch: Ghost<Batch>,
}

impl Draft {
    /// The pipeline holds exactly the batch.
    pub(crate) open spec fn exact(self) -> bool {
        carries(self.pipeline, self.batch@)
    }

    /// An empty pipeline for a batch, atomic or not.
    pub(crate) fn new(atomic: bool) -> (draft: Draft)
        ensures
            draft.exact(),
            draft.batch@ == Batch::empty(atomic),
    {
        let mut pipeline = new_pipeline();
        if atomic {
            make_atomic(&mut pipeline);
        }
        assert(Batch::empty(atomic).wires() =~= Seq::empty());
        assert(Batch::empty(atomic).ignored() =~= Set::empty());
        Draft { pipeline, batch: Ghost(Batch::empty(atomic)) }
    }

    /// Queues one more command, ignored or not.
    pub(crate) fn add(&mut self, order: Order, ignored: bool)
        requires
            old(self).exact(),
        ensures
            final(self).exact(),
            final(self).batch@ == old(self).batch@.with(order.command(), ignored),
    {
        let ghost next = self.batch@.with(order.command(), ignored);
        match order {
            Order::Get { key } => queue_get(&mut self.pipeline, key),
            Order::SetIfAbsent { key, value } => queue_set_nx(&mut self.pipeline, key, value),
            Order::Write { key, value } => queue_set(&mut self.pipeline, key, value),
            Order::Increment { key, delta } => queue_incr(&mut self.pipeline, key, delta),
            Order::Decrement { key, delta } => queue_decr(&mut self.pipeline, key, delta),
            Order::Expire { key, seconds } => queue_expire(&mut self.pipeline, key, seconds),
            Order::RemoveBelow { key, bound } => {
                let mut upper = String::from_str("(");
                let digits = decimal_string(bound);
                upper.append(digits.as_str());
                proof {
                    reveal_strlit("(");
                    assert(upper@ =~= seq!['('] + signed_decimal(bound as int));
                }
                queue_zrembyscore(&mut self.pipeline, key, 0, upper.as_str())
            },
            Order::Add { key, score, member } => queue_zadd(&mut self.pipeline, key, member, score),
            Order::Cardinality { key } => queue_zcard(&mut self.pipeline, key),
            Order::PushTail { key, value } => queue_rpush(&mut self.pipeline, key, value),
            Order::Trim { key, start, stop } => queue_ltrim(&mut self.pipeline, key, start, stop),
            Order::Length { key } => queue_llen(&mut self.pipeline, key),
            Order::Items { key } => queue_lrange(&mut self.pipeline, key, 0, -1),
        }
        assert(pipeline_commands(self.pipeline) =~= next.wires());
        if ignored {
            ignore_last(&mut self.pipeline);
        }
        assert(pipeline_ignored(self.pipeline) =~= next.ignored());
        self.batch = Ghost(next);
    }

    /// The finished pipeline.
    pub(crate) fn finish(self) -> (p: redis::Pipeline)
        requires
            self.exact(),
        ensures
            carries(p, self.batch@),
    {
        self.pipeline
    }
}

} // verus!
