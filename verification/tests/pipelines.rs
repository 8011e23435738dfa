//! What each stage of each operation puts on the wire, byte for byte, and
//! where each reply leads.

use rrr::error::{Fault, LimiterError};
use rrr::exchange::{Exchange, Outcome, Reply, Step};
use rrr::rate_limiter_redis::RateLimiterRedis;
use rrr::rate_limiter_redis_trait::RateLimiterRedisTrait;
use rrr::token_bucket_rate_limiter_redis::TokenBucketRateLimiter;

/// The RESP encoding of a pipeline of commands, wrapped in MULTI / EXEC when
/// atomic.
fn resp(commands: &[&[&str]], atomic: bool) -> Vec<u8> {
    let mut all: Vec<Vec<&str>> = Vec::new();
    if atomic {
        all.push(vec!["MULTI"]);
    }
    for command in commands {
        all.push(command.to_vec());
    }
    if atomic {
        all.push(vec!["EXEC"]);
    }
    let mut bytes = Vec::new();
    for command in all {
        bytes.extend_from_slice(format!("*{}\r\n", command.len()).as_bytes());
        for argument in command {
            bytes.extend_from_slice(format!("${}\r\n{}\r\n", argument.len(), argument).as_bytes());
        }
    }
    bytes
}

fn sent(exchange: &Exchange) -> Vec<u8> {
    match exchange.step() {
        Step::Send(pipeline) => pipeline.get_packed_pipeline(),
        Step::Read(_) => panic!("the pipeline reads a list"),
        Step::Done(result) => panic!("the operation is over: {result:?}"),
    }
}

fn read(exchange: &Exchange) -> Vec<u8> {
    match exchange.step() {
        Step::Read(pipeline) => pipeline.get_packed_pipeline(),
        Step::Send(_) => panic!("the pipeline reads no list"),
        Step::Done(result) => panic!("the operation is over: {result:?}"),
    }
}

fn done(exchange: &Exchange) -> Result<Outcome, LimiterError> {
    match exchange.step() {
        Step::Done(result) => result,
        Step::Send(_) | Step::Read(_) => panic!("the operation is not over"),
    }
}

fn values(items: &[Option<i64>]) -> Reply {
    Reply::Values(items.to_vec())
}

/// How many replies a pipeline hands back for one answer per command: the
/// commands that are not ignored.
fn kept(exchange: &Exchange, commands: usize, atomic: bool) -> usize {
    struct Echo {
        commands: usize,
        atomic: bool,
    }
    impl redis::ConnectionLike for Echo {
        fn req_packed_command(&mut self, _cmd: &[u8]) -> redis::RedisResult<redis::Value> {
            Ok(redis::Value::Int(0))
        }
        fn req_packed_commands(
            &mut self,
            _cmd: &[u8],
            _offset: usize,
            _count: usize,
        ) -> redis::RedisResult<Vec<redis::Value>> {
            let answers = vec![redis::Value::Int(7); self.commands];
            Ok(if self.atomic { vec![redis::Value::Bulk(answers)] } else { answers })
        }
        fn get_db(&self) -> i64 {
            0
        }
        fn check_connection(&mut self) -> bool {
            true
        }
        fn is_open(&self) -> bool {
            true
        }
    }
    match exchange.step() {
        Step::Send(pipeline) => {
            pipeline.query::<Vec<Option<i64>>>(&mut Echo { commands, atomic }).unwrap().len()
        }
        Step::Read(_) => panic!("the pipeline reads a list"),
        Step::Done(result) => panic!("the operation is over: {result:?}"),
    }
}

const NOW: u64 = 1_234_567_890_123;

#[test]
fn fixed_window_record_stages() {
    let limiter = RateLimiterRedis::open(Ok(()), 2).unwrap();
    // window 5 s: capacity 10, epoch 1_234_567_890
    let read = limiter.record_fixed_window("web", "login", "carol", 5, NOW).unwrap();
    assert_eq!(sent(&read), resp(&[&["GET", "web:login:carol:1234567890"]], true));
    assert_eq!(kept(&read, 1, true), 1);

    let init = read.advance(values(&[None]));
    assert_eq!(sent(&init), resp(&[&["SETNX", "web:login:carol:1234567890", "0"]], true));
    assert_eq!(kept(&init, 1, true), 0);

    let increment = init.advance(values(&[]));
    assert_eq!(
        sent(&increment),
        resp(
            &[
                &["INCRBY", "web:login:carol:1234567890", "1"],
                &["EXPIRE", "web:login:carol:1234567890", "5"]
            ],
            true
        )
    );
    assert_eq!(kept(&increment, 2, true), 1);

    let undo = increment.advance(values(&[Some(11)]));
    assert_eq!(sent(&undo), resp(&[&["DECRBY", "web:login:carol:1234567890", "1"]], true));
    assert_eq!(kept(&undo, 1, true), 1);

    let over = undo.advance(values(&[Some(10)]));
    assert_eq!(done(&over), Ok(Outcome::Verdict(false)));
    assert!(over.finished());
}

#[test]
fn fixed_window_record_replies() {
    let limiter = RateLimiterRedis::open(Ok(()), 2).unwrap();
    let begin = || limiter.record_fixed_window("web", "login", "carol", 5, NOW).unwrap();
    // a counter below the capacity goes straight to the increment
    let increment = begin().advance(values(&[Some(9)]));
    assert_eq!(
        sent(&increment),
        resp(
            &[
                &["INCRBY", "web:login:carol:1234567890", "1"],
                &["EXPIRE", "web:login:carol:1234567890", "5"]
            ],
            true
        )
    );
    assert_eq!(done(&increment.advance(values(&[Some(10)]))), Ok(Outcome::Verdict(true)));
    // a counter at or over the capacity is refused at once
    assert_eq!(done(&begin().advance(values(&[Some(10)]))), Ok(Outcome::Verdict(false)));
    assert_eq!(done(&begin().advance(values(&[Some(i64::MAX)]))), Ok(Outcome::Verdict(false)));
    // replies of the wrong shape
    assert_eq!(done(&begin().advance(values(&[Some(-1)]))), Err(LimiterError::Command));
    assert_eq!(done(&begin().advance(values(&[]))), Err(LimiterError::Command));
    assert_eq!(done(&begin().advance(values(&[Some(1), Some(2)]))), Err(LimiterError::Command));
    let init = begin().advance(values(&[None]));
    assert_eq!(done(&init.advance(values(&[Some(1)]))), Err(LimiterError::Command));
    let increment = begin().advance(values(&[Some(0)]));
    assert_eq!(done(&increment.advance(values(&[None]))), Err(LimiterError::Command));
    // a failed pipeline ends the operation with the fault's error
    assert_eq!(
        done(&begin().advance(Reply::Failed(Fault::Connection))),
        Err(LimiterError::Connection)
    );
    assert_eq!(done(&begin().advance(Reply::Failed(Fault::Command))), Err(LimiterError::Command));
    // a finished operation stays as it is
    let over = begin().advance(values(&[Some(10)]));
    let still = over.advance(values(&[None]));
    assert_eq!(done(&still), Ok(Outcome::Verdict(false)));
    let still = still.advance(Reply::Failed(Fault::Connection));
    assert_eq!(done(&still), Ok(Outcome::Verdict(false)));
}

#[test]
fn fixed_window_fetch_stages() {
    let limiter = RateLimiterRedis::open(Ok(()), 2).unwrap();
    let begin = || limiter.fetch_fixed_window("web", "login", "carol", 5, NOW).unwrap();
    assert_eq!(sent(&begin()), resp(&[&["GET", "web:login:carol:1234567890"]], false));
    assert_eq!(kept(&begin(), 1, false), 1);
    assert_eq!(done(&begin().advance(values(&[None]))), Ok(Outcome::Count(0)));
    assert_eq!(done(&begin().advance(values(&[Some(12)]))), Ok(Outcome::Count(12)));
    assert_eq!(done(&begin().advance(values(&[Some(-1)]))), Err(LimiterError::Command));
    assert_eq!(done(&begin().advance(values(&[]))), Err(LimiterError::Command));
}

#[test]
fn sliding_log_stages() {
    let limiter = RateLimiterRedis::open(Ok(()), 2).unwrap();
    let begin = || limiter.record_sliding_log("web", "login", "carol", 5, NOW).unwrap();
    assert_eq!(sent(&begin()), resp(&[&["ZCARD", "web:login:carol"]], false));
    assert_eq!(kept(&begin(), 1, false), 1);

    let insert = begin().advance(values(&[Some(9)]));
    assert_eq!(
        sent(&insert),
        resp(
            &[
                &["ZREMRANGEBYSCORE", "web:login:carol", "0", "(1234567885123"],
                &["ZADD", "web:login:carol", "1234567890123", "1234567890123"],
                &["EXPIRE", "web:login:carol", "5"],
            ],
            true
        )
    );
    assert_eq!(kept(&insert, 3, true), 0);
    assert_eq!(done(&insert.advance(values(&[]))), Ok(Outcome::Verdict(true)));

    assert_eq!(done(&begin().advance(values(&[Some(10)]))), Ok(Outcome::Verdict(false)));
    assert_eq!(done(&begin().advance(values(&[None]))), Err(LimiterError::Command));
    assert_eq!(done(&begin().advance(values(&[Some(-2)]))), Err(LimiterError::Command));
    let insert = begin().advance(values(&[Some(0)]));
    assert_eq!(done(&insert.advance(values(&[Some(1)]))), Err(LimiterError::Command));

    let fetch = || limiter.fetch_sliding_log("web", "login", "carol", NOW).unwrap();
    assert_eq!(sent(&fetch()), resp(&[&["ZCARD", "web:login:carol"]], false));
    assert_eq!(done(&fetch().advance(values(&[Some(4)]))), Ok(Outcome::Count(4)));
    assert_eq!(done(&fetch().advance(values(&[None]))), Err(LimiterError::Command));
}

#[test]
fn sliding_log_cutoff_stops_at_zero() {
    let limiter = RateLimiterRedis::open(Ok(()), 1).unwrap();
    let insert =
        limiter.record_sliding_log("a", "b", "c", 60, 59_999).unwrap().advance(values(&[Some(0)]));
    assert_eq!(
        sent(&insert),
        resp(
            &[
                &["ZREMRANGEBYSCORE", "a:b:c", "0", "(0"],
                &["ZADD", "a:b:c", "59999", "59999"],
                &["EXPIRE", "a:b:c", "60"],
            ],
            true
        )
    );
    let insert =
        limiter.record_sliding_log("a", "b", "c", 60, 60_001).unwrap().advance(values(&[Some(0)]));
    assert_eq!(
        sent(&insert),
        resp(
            &[
                &["ZREMRANGEBYSCORE", "a:b:c", "0", "(1"],
                &["ZADD", "a:b:c", "60001", "60001"],
                &["EXPIRE", "a:b:c", "60"],
            ],
            true
        )
    );
}

#[test]
fn sliding_window_stages() {
    let limiter = RateLimiterRedis::open(Ok(()), 2).unwrap();
    let begin = || limiter.record_sliding_window("web", "login", "carol", 5, NOW).unwrap();
    let both = resp(
        &[&["GET", "web:login:carol:1234567885"], &["GET", "web:login:carol:1234567890"]],
        true,
    );
    assert_eq!(sent(&begin()), both);
    assert_eq!(kept(&begin(), 2, true), 2);

    // 123 ms into the window: weight 4877 / 5000; 4 + round(6 * 0.9754) = 10
    assert_eq!(done(&begin().advance(values(&[Some(6), Some(4)]))), Ok(Outcome::Verdict(false)));
    // 3 + round(6 * 0.9754) = 9
    let increment = begin().advance(values(&[Some(6), Some(3)]));
    assert_eq!(
        sent(&increment),
        resp(
            &[
                &["INCRBY", "web:login:carol:1234567890", "1"],
                &["EXPIRE", "web:login:carol:1234567890", "10"]
            ],
            true
        )
    );
    assert_eq!(kept(&increment, 2, true), 1);
    assert_eq!(done(&increment.advance(values(&[Some(4)]))), Ok(Outcome::Verdict(true)));

    assert_eq!(done(&begin().advance(values(&[Some(6)]))), Err(LimiterError::Command));
    assert_eq!(done(&begin().advance(values(&[Some(-6), Some(1)]))), Err(LimiterError::Command));
    assert_eq!(done(&begin().advance(values(&[Some(6), Some(-1)]))), Err(LimiterError::Command));
    let increment = begin().advance(values(&[None, None]));
    assert_eq!(done(&increment.advance(values(&[]))), Err(LimiterError::Command));

    let fetch = || limiter.fetch_sliding_window("web", "login", "carol", 5, NOW).unwrap();
    assert_eq!(sent(&fetch()), both);
    assert_eq!(done(&fetch().advance(values(&[Some(6), Some(4)]))), Ok(Outcome::Count(10)));
    assert_eq!(done(&fetch().advance(values(&[None, Some(4)]))), Ok(Outcome::Count(4)));
    assert_eq!(done(&fetch().advance(values(&[Some(1), None]))), Ok(Outcome::Count(1)));
    assert_eq!(done(&fetch().advance(values(&[None, None]))), Ok(Outcome::Count(0)));
    assert_eq!(
        done(&fetch().advance(values(&[Some(i64::MAX), Some(i64::MAX)]))),
        Ok(Outcome::Count(9_223_372_036_854_775_807 + 8_996_477_084_748_148_322))
    );
    assert_eq!(
        done(&fetch().advance(values(&[Some(1), Some(2), Some(3)]))),
        Err(LimiterError::Command)
    );
}

#[test]
fn leaky_bucket_stages() {
    let limiter = RateLimiterRedis::open(Ok(()), 2).unwrap();
    let begin = || limiter.record_leaky_bucket("web", "login", "carol", 5, NOW).unwrap();
    assert_eq!(sent(&begin()), resp(&[&["LLEN", "web:login:carol"]], true));
    assert_eq!(kept(&begin(), 1, true), 1);

    let push = begin().advance(values(&[Some(9)]));
    assert_eq!(
        sent(&push),
        resp(
            &[&["RPUSH", "web:login:carol", "1234567890"], &["EXPIRE", "web:login:carol", "5"]],
            true
        )
    );
    assert_eq!(kept(&push, 2, true), 1);
    assert_eq!(done(&push.advance(values(&[Some(10)]))), Ok(Outcome::Verdict(true)));
    let push = begin().advance(values(&[None]));
    assert_eq!(done(&push.advance(values(&[None]))), Err(LimiterError::Command));

    assert_eq!(done(&begin().advance(values(&[Some(10)]))), Ok(Outcome::Verdict(false)));
    assert_eq!(done(&begin().advance(values(&[Some(-1)]))), Err(LimiterError::Command));
    assert_eq!(done(&begin().advance(values(&[]))), Err(LimiterError::Command));

    let fetch = || limiter.fetch_leaky_bucket("web", "login", "carol", 5, NOW).unwrap();
    assert_eq!(sent(&fetch()), resp(&[&["LLEN", "web:login:carol"]], true));
    assert_eq!(done(&fetch().advance(values(&[None]))), Ok(Outcome::Count(0)));
    assert_eq!(done(&fetch().advance(values(&[Some(3)]))), Ok(Outcome::Count(3)));
    assert_eq!(done(&fetch().advance(values(&[Some(-3)]))), Err(LimiterError::Command));

    let leak = || limiter.consume_leaky_bucket("web", "login", "carol", 5, NOW).unwrap();
    assert_eq!(read(&leak()), resp(&[&["LRANGE", "web:login:carol", "0", "-1"]], false));
    // the window runs from second 1234567890 up to 1234567895
    let stale = 1_234_567_889;
    let early = 1_234_567_890;
    let late = 1_234_567_894;
    let ahead = 1_234_567_895;
    let trim = leak().advance(values(&[Some(stale), Some(early), Some(late), Some(ahead)]));
    assert_eq!(sent(&trim), resp(&[&["LTRIM", "web:login:carol", "1", "2"]], false));
    assert_eq!(kept(&trim, 1, false), 0);
    assert_eq!(done(&trim.advance(values(&[]))), Ok(Outcome::Drained));
    let trim = leak().advance(values(&[Some(stale), Some(early), Some(late), Some(ahead)]));
    assert_eq!(done(&trim.advance(values(&[None]))), Err(LimiterError::Command));
    // a run that reaches the tail is kept up to the tail, whatever is appended meanwhile
    let trim = leak().advance(values(&[Some(0), Some(stale), Some(early), Some(late)]));
    assert_eq!(sent(&trim), resp(&[&["LTRIM", "web:login:carol", "2", "-1"]], false));
    let trim = leak().advance(values(&[Some(early)]));
    assert_eq!(sent(&trim), resp(&[&["LTRIM", "web:login:carol", "0", "-1"]], false));
    // nothing of the window: the queue is emptied
    let trim = leak().advance(values(&[Some(stale), Some(ahead), Some(-3)]));
    assert_eq!(sent(&trim), resp(&[&["LTRIM", "web:login:carol", "1", "0"]], false));
    let trim = leak().advance(values(&[]));
    assert_eq!(sent(&trim), resp(&[&["LTRIM", "web:login:carol", "1", "0"]], false));
    // markers of the window that do not lie together, and elements that are no numbers
    assert_eq!(
        done(&leak().advance(values(&[Some(early), Some(stale), Some(late)]))),
        Err(LimiterError::Command)
    );
    assert_eq!(
        done(&leak().advance(values(&[Some(early), Some(ahead), Some(early)]))),
        Err(LimiterError::Command)
    );
    assert_eq!(done(&leak().advance(values(&[Some(early), None]))), Err(LimiterError::Command));
    assert_eq!(
        done(&leak().advance(Reply::Failed(Fault::Connection))),
        Err(LimiterError::Connection)
    );
}

#[test]
fn token_bucket_record_stages() {
    let limiter = RateLimiterRedis::open(Ok(()), 2).unwrap();
    let begin = || limiter.record_token_bucket("web", "login", "carol", 5, NOW).unwrap();
    let stamp = "web:login:carol:last_set_time";
    let tokens = "web:login:carol:remain_requests";
    assert_eq!(sent(&begin()), resp(&[&["GET", stamp]], true));

    let init = begin().advance(values(&[None]));
    assert_eq!(
        sent(&init),
        resp(
            &[
                &["SET", stamp, "1234567890"],
                &["EXPIRE", stamp, "5"],
                &["SET", tokens, "10"],
                &["EXPIRE", tokens, "5"],
            ],
            true
        )
    );
    assert_eq!(kept(&init, 4, true), 0);
    let take = init.advance(values(&[]));
    assert_eq!(sent(&take), resp(&[&["DECRBY", tokens, "1"]], true));
    assert_eq!(kept(&take, 1, true), 1);
    assert_eq!(done(&take.advance(values(&[Some(9)]))), Ok(Outcome::Verdict(true)));

    // exactly one window after the last filling: refill
    let refill = begin().advance(values(&[Some(1_234_567_885)]));
    assert_eq!(
        sent(&refill),
        resp(
            &[
                &["SET", tokens, "10"],
                &["EXPIRE", tokens, "5"],
                &["SET", stamp, "1234567890"],
                &["EXPIRE", stamp, "5"],
            ],
            true
        )
    );
    assert_eq!(kept(&refill, 4, true), 0);
    assert_eq!(sent(&refill.advance(values(&[]))), resp(&[&["DECRBY", tokens, "1"]], true));

    // one second less: the bucket stands
    let left = begin().advance(values(&[Some(1_234_567_886)]));
    assert_eq!(sent(&left), resp(&[&["GET", tokens]], true));
    assert_eq!(done(&left.advance(values(&[Some(0)]))), Ok(Outcome::Verdict(false)));
    let left = begin().advance(values(&[Some(1_234_567_886)]));
    assert_eq!(done(&left.advance(values(&[Some(-1)]))), Ok(Outcome::Verdict(false)));
    let left = begin().advance(values(&[Some(1_234_567_886)]));
    assert_eq!(done(&left.advance(values(&[None]))), Err(LimiterError::Command));
    let left = begin().advance(values(&[Some(1_234_567_886)]));
    let take = left.advance(values(&[Some(1)]));
    assert_eq!(sent(&take), resp(&[&["DECRBY", tokens, "1"]], true));
    let undo = take.advance(values(&[Some(-1)]));
    assert_eq!(sent(&undo), resp(&[&["INCRBY", tokens, "1"]], true));
    assert_eq!(done(&undo.advance(values(&[Some(0)]))), Ok(Outcome::Verdict(false)));

    // a filling time that lies ahead of the clock is no reason to refill
    let left = begin().advance(values(&[Some(1_234_567_999)]));
    assert_eq!(sent(&left), resp(&[&["GET", tokens]], true));
    assert_eq!(done(&begin().advance(values(&[Some(-5)]))), Err(LimiterError::Command));
}

#[test]
fn token_bucket_fetch_stages() {
    let strict = RateLimiterRedis::open(Ok(()), 2).unwrap();
    let lenient = TokenBucketRateLimiter { limit_per_sec: 2 };
    let stamp = "web:login:carol:last_set_time";
    let tokens = "web:login:carol:remain_requests";
    for forgiving in [false, true] {
        let begin = || {
            if forgiving {
                lenient.fetch("web", "login", "carol", 5, NOW).unwrap()
            } else {
                strict.fetch_token_bucket("web", "login", "carol", 5, NOW).unwrap()
            }
        };
        assert_eq!(sent(&begin()), resp(&[&["GET", stamp]], true));
        assert_eq!(done(&begin().advance(values(&[None]))), Ok(Outcome::Count(10)));
        assert_eq!(
            done(&begin().advance(values(&[Some(1_234_567_885)]))),
            Ok(Outcome::Count(10))
        );
        let left = begin().advance(values(&[Some(1_234_567_886)]));
        assert_eq!(sent(&left), resp(&[&["GET", tokens]], true));
        assert_eq!(done(&left.advance(values(&[Some(4)]))), Ok(Outcome::Count(4)));
        let left = begin().advance(values(&[Some(1_234_567_886)]));
        assert_eq!(done(&left.advance(values(&[Some(-1)]))), Ok(Outcome::Count(0)));
        let left = begin().advance(values(&[Some(1_234_567_886)]));
        assert_eq!(
            done(&left.advance(values(&[None]))),
            if forgiving { Ok(Outcome::Count(10)) } else { Err(LimiterError::Command) }
        );
        assert_eq!(done(&begin().advance(values(&[Some(-1)]))), Err(LimiterError::Command));
    }
}

#[test]
fn token_bucket_limiter_record_starts_like_the_limiter() {
    let limiter = TokenBucketRateLimiter { limit_per_sec: 2 };
    let begun = limiter.record("web", "login", "carol", 5, NOW).unwrap();
    assert_eq!(sent(&begun), resp(&[&["GET", "web:login:carol:last_set_time"]], true));
    let init = begun.advance(values(&[None]));
    assert_eq!(
        sent(&init),
        resp(
            &[
                &["SET", "web:login:carol:last_set_time", "1234567890"],
                &["EXPIRE", "web:login:carol:last_set_time", "5"],
                &["SET", "web:login:carol:remain_requests", "10"],
                &["EXPIRE", "web:login:carol:remain_requests", "5"],
            ],
            true
        )
    );
}

#[test]
fn keys_carry_text_beyond_ascii() {
    let limiter = RateLimiterRedis::open(Ok(()), 1).unwrap();
    let begun = limiter.record_leaky_bucket("prä", "données", "名前", 1, NOW).unwrap();
    assert_eq!(sent(&begun), resp(&[&["LLEN", "prä:données:名前"]], true));
}
