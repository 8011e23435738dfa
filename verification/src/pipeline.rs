//! The Redis pipelines that carry a limiter's commands.
//!
//! A `redis::Pipeline` is opaque here. What it holds is named by three
//! functions, and every call into the `redis` crate is a small function of this
//! module whose contract says what that call does to them. These contracts are
//! stated from the crate's source; nothing in this library proves them.

use vstd::prelude::*;
use crate::text::{decimal, signed_decimal};

verus! {

/// `redis::Pipeline`, taken as it is: nothing inside it is visible here.
#[verifier::external_type_specification]
#[verifier::external_body]
pub struct ExPipeline(redis::Pipeline);

/// The commands queued in a pipeline, oldest first. A command is the list of
/// its arguments, the command's name first; an argument is given as the text
/// whose UTF-8 bytes the pipeline holds.
pub uninterp spec fn pipeline_commands(p: redis::Pipeline) -> Seq<Seq<Seq<char>>>;

/// The positions of the queued commands whose replies the pipeline drops from
/// its result.
pub uninterp spec fn pipeline_ignored(p: redis::Pipeline) -> Set<int>;

/// Whether the pipeline is sent inside `MULTI` / `EXEC`.
pub uninterp spec fn pipeline_atomic(p: redis::Pipeline) -> bool;

/// `after` is `before` with one more command at the end and nothing else
/// changed.
pub open spec fn queued(
    before: redis::Pipeline,
    after: redis::Pipeline,
    command: Seq<Seq<char>>,
) -> bool {
    &&& pipeline_commands(after) == pipeline_commands(before).push(command)
    &&& pipeline_ignored(after) == pipeline_ignored(before)
    &&& pipeline_atomic(after) == pipeline_atomic(before)
}

/// `redis::pipe`: a pipeline with no command, nothing ignored, not atomic.
#[verifier::external_body]
pub(crate) fn new_pipeline() -> (p: redis::Pipeline)
    ensures
        pipeline_commands(p) == Seq::<Seq<Seq<char>>>::empty(),
        pipeline_ignored(p) == Set::<int>::empty(),
        !pipeline_atomic(p),
{
    redis::pipe()
}

/// `redis::Pipeline::atomic`: switches the transaction mode on and leaves the
/// queue as it is.
#[verifier::external_body]
pub(crate) fn make_atomic(p: &mut redis::Pipeline)
    ensures
        pipeline_atomic(*final(p)),
        pipeline_commands(*final(p)) == pipeline_commands(*old(p)),
        pipeline_ignored(*final(p)) == pipeline_ignored(*old(p)),
{
    p.atomic();
}

/// `redis::Pipeline::ignore`: marks the last queued command as ignored; on an
/// empty pipeline it does nothing.
#[verifier::external_body]
pub(crate) fn ignore_last(p: &mut redis::Pipeline)
    ensures
        pipeline_commands(*final(p)) == pipeline_commands(*old(p)),
        pipeline_atomic(*final(p)) == pipeline_atomic(*old(p)),
        pipeline_ignored(*final(p)) == if pipeline_commands(*old(p)).len() == 0 {
            pipeline_ignored(*old(p))
        } else {
            pipeline_ignored(*old(p)).insert(pipeline_commands(*old(p)).len() - 1)
        },
{
    p.ignore();
}

/// `redis::Pipeline::get` with one key: queues `GET key`.
#[verifier::external_body]
pub(crate) fn queue_get(p: &mut redis::Pipeline, key: &str)
    ensures
        queued(*old(p), *final(p), seq!["GET"@, key@]),
{
    p.get(key);
}

/// `redis::Pipeline::set_nx`: queues `SETNX key value`, the value in decimal.
#[verifier::external_body]
pub(crate) fn queue_set_nx(p: &mut redis::Pipeline, key: &str, value: u64)
    ensures
        queued(*old(p), *final(p), seq!["SETNX"@, key@, decimal(value as nat)]),
{
    p.set_nx(key, value);
}

/// `redis::Pipeline::set`: queues `SET key value`, the value in decimal.
#[verifier::external_body]
pub(crate) fn queue_set(p: &mut redis::Pipeline, key: &str, value: u64)
    ensures
        queued(*old(p), *final(p), seq!["SET"@, key@, decimal(value as nat)]),
{
    p.set(key, value);
}

/// `redis::Pipeline::incr` with an integer: queues `INCRBY key delta`.
#[verifier::external_body]
pub(crate) fn queue_incr(p: &mut redis::Pipeline, key: &str, delta: u64)
    ensures
        queued(*old(p), *final(p), seq!["INCRBY"@, key@, decimal(delta as nat)]),
{
    p.incr(key, delta);
}

/// `redis::Pipeline::decr`: queues `DECRBY key delta`.
#[verifier::external_body]
pub(crate) fn queue_decr(p: &mut redis::Pipeline, key: &str, delta: u64)
    ensures
        queued(*old(p), *final(p), seq!["DECRBY"@, key@, decimal(delta as nat)]),
{
    p.decr(key, delta);
}

/// `redis::Pipeline::expire`: queues `EXPIRE key seconds`.
#[verifier::external_body]
pub(crate) fn queue_expire(p: &mut redis::Pipeline, key: &str, seconds: usize)
    ensures
        queued(*old(p), *final(p), seq!["EXPIRE"@, key@, decimal(seconds as nat)]),
{
    p.expire(key, seconds);
}

/// `redis::Pipeline::zrembyscore`: queues `ZREMRANGEBYSCORE key min max`, the
/// lower bound in decimal and the upper bound as the text given.
#[verifier::external_body]
pub(crate) fn queue_zrembyscore(p: &mut redis::Pipeline, key: &str, min: u64, max: &str)
    ensures
        queued(*old(p), *final(p), seq!["ZREMRANGEBYSCORE"@, key@, decimal(min as nat), max@]),
{
    p.zrembyscore(key, min, max);
}

/// `redis::Pipeline::zadd`: queues `ZADD key score member`, the score before
/// the member.
#[verifier::external_body]
pub(crate) fn queue_zadd(p: &mut redis::Pipeline, key: &str, member: u64, score: u64)
    ensures
        queued(
            *old(p),
            *final(p),
            seq!["ZADD"@, key@, decimal(score as nat), decimal(member as nat)],
        ),
{
    p.zadd(key, member, score);
}

/// `redis::Pipeline::zcard`: queues `ZCARD key`.
#[verifier::external_body]
pub(crate) fn queue_zcard(p: &mut redis::Pipeline, key: &str)
    ensures
        queued(*old(p), *final(p), seq!["ZCARD"@, key@]),
{
    p.zcard(key);
}

/// `redis::Pipeline::rpush` with one value: queues `RPUSH key value`.
#[verifier::external_body]
pub(crate) fn queue_rpush(p: &mut redis::Pipeline, key: &str, value: u64)
    ensures
        queued(*old(p), *final(p), seq!["RPUSH"@, key@, decimal(value as nat)]),
{
    p.rpush(key, value);
}

/// `redis::Pipeline::ltrim`: queues `LTRIM key start stop`.
#[verifier::external_body]
pub(crate) fn queue_ltrim(p: &mut redis::Pipeline, key: &str, start: isize, stop: isize)
    ensures
        queued(
            *old(p),
            *final(p),
            seq!["LTRIM"@, key@, signed_decimal(start as int), signed_decimal(stop as int)],
        ),
{
    p.ltrim(key, start, stop);
}

/// `redis::Pipeline::lrange`: queues `LRANGE key start stop`.
#[verifier::external_body]
pub(crate) fn queue_lrange(p: &mut redis::Pipeline, key: &str, start: isize, stop: isize)
    ensures
        queued(
            *old(p),
            *final(p),
            seq!["LRANGE"@, key@, signed_decimal(start as int), signed_decimal(stop as int)],
        ),
{
    p.lrange(key, start, stop);
}

/// `redis::Pipeline::llen`: queues `LLEN key`.
#[verifier::external_body]
pub(crate) fn queue_llen(p: &mut redis::Pipeline, key: &str)
    ensures
        queued(*old(p), *final(p), seq!["LLEN"@, key@]),
{
    p.llen(key);
}

} // verus!
