//! The limiter operations played to their end against a store that lives in
//! this file: a small stand-in for Redis behind the `redis` crate's own
//! `ConnectionLike`, so that every pipeline is packed, "sent", answered and
//! parsed by the crate exactly as it would be on a socket.

use std::collections::{BTreeMap, HashMap};

use redis::{ConnectionLike, ErrorKind, RedisError, RedisResult, Value};
use rrr::error::{Fault, LimiterError};
use rrr::exchange::{Exchange, Outcome, Reply, Step};
use rrr::rate_limiter_redis::RateLimiterRedis;
use rrr::rate_limiter_redis_trait::RateLimiterRedisTrait;
use rrr::token_bucket_rate_limiter_redis::TokenBucketRateLimiter;

#[derive(Clone, Debug, PartialEq)]
enum Held {
    Text(String),
    Sorted(BTreeMap<String, i64>),
    List(Vec<String>),
}

#[derive(Clone, Debug)]
struct Entry {
    held: Held,
    deadline: Option<u64>,
}

/// An in-memory store with a clock the test sets by hand.
struct Store {
    now_ms: u64,
    keys: HashMap<String, Entry>,
    down: bool,
    sent: Vec<Vec<String>>,
}

fn wrong_type() -> RedisError {
    RedisError::from((ErrorKind::TypeError, "WRONGTYPE"))
}

fn not_a_number() -> RedisError {
    RedisError::from((ErrorKind::TypeError, "value is not an integer or out of range"))
}

fn text(bytes: &[u8]) -> String {
    String::from_utf8(bytes.to_vec()).unwrap()
}

fn number(word: &str) -> RedisResult<i64> {
    word.parse::<i64>().map_err(|_| not_a_number())
}

impl Store {
    fn new() -> Store {
        Store { now_ms: 0, keys: HashMap::new(), down: false, sent: Vec::new() }
    }

    fn live(&mut self, key: &str) -> Option<Entry> {
        let expired = match self.keys.get(key) {
            Some(entry) => match entry.deadline {
                Some(deadline) => self.now_ms > deadline,
                None => false,
            },
            None => false,
        };
        if expired {
            self.keys.remove(key);
        }
        self.keys.get(key).cloned()
    }

    fn shift(&mut self, key: &str, delta: i64) -> RedisResult<Value> {
        let (old, deadline) = match self.live(key) {
            None => (0, None),
            Some(Entry { held: Held::Text(word), deadline }) => (number(&word)?, deadline),
            Some(_) => return Err(wrong_type()),
        };
        let new = old.checked_add(delta).ok_or_else(not_a_number)?;
        self.keys.insert(key.to_string(), Entry { held: Held::Text(new.to_string()), deadline });
        Ok(Value::Int(new))
    }

    fn run(&mut self, args: &[String]) -> RedisResult<Value> {
        let key = args[1].as_str();
        match args[0].as_str() {
            "GET" => match self.live(key) {
                None => Ok(Value::Nil),
                Some(Entry { held: Held::Text(word), .. }) => Ok(Value::Data(word.into_bytes())),
                Some(_) => Err(wrong_type()),
            },
            "SET" => {
                self.keys.insert(
                    key.to_string(),
                    Entry { held: Held::Text(args[2].clone()), deadline: None },
                );
                Ok(Value::Okay)
            }
            "SETNX" => match self.live(key) {
                Some(_) => Ok(Value::Int(0)),
                None => {
                    self.keys.insert(
                        key.to_string(),
                        Entry { held: Held::Text(args[2].clone()), deadline: None },
                    );
                    Ok(Value::Int(1))
                }
            },
            "INCRBY" => {
                let delta = number(&args[2])?;
                self.shift(key, delta)
            }
            "DECRBY" => {
                let delta = number(&args[2])?;
                self.shift(key, -delta)
            }
            "EXPIRE" => {
                let seconds = number(&args[2])?;
                match self.live(key) {
                    None => Ok(Value::Int(0)),
                    Some(entry) => {
                        let deadline = Some(self.now_ms + (seconds as u64) * 1000);
                        self.keys.insert(key.to_string(), Entry { held: entry.held, deadline });
                        Ok(Value::Int(1))
                    }
                }
            }
            "ZADD" => {
                let score = number(&args[2])?;
                let member = args[3].clone();
                let (mut members, deadline) = match self.live(key) {
                    None => (BTreeMap::new(), None),
                    Some(Entry { held: Held::Sorted(members), deadline }) => (members, deadline),
                    Some(_) => return Err(wrong_type()),
                };
                let added = if members.insert(member, score).is_none() { 1 } else { 0 };
                self.keys.insert(key.to_string(), Entry { held: Held::Sorted(members), deadline });
                Ok(Value::Int(added))
            }
            "ZREMRANGEBYSCORE" => {
                let min = number(&args[2])?;
                let (max, open) = match args[3].strip_prefix('(') {
                    Some(rest) => (number(rest)?, true),
                    None => (number(&args[3])?, false),
                };
                match self.live(key) {
                    None => Ok(Value::Int(0)),
                    Some(Entry { held: Held::Sorted(members), deadline }) => {
                        let before = members.len();
                        let rest: BTreeMap<String, i64> = members
                            .into_iter()
                            .filter(|(_, score)| {
                                !(*score >= min && (if open { *score < max } else { *score <= max }))
                            })
                            .collect();
                        let gone = (before - rest.len()) as i64;
                        if rest.is_empty() {
                            self.keys.remove(key);
                        } else {
                            self.keys
                                .insert(key.to_string(), Entry { held: Held::Sorted(rest), deadline });
                        }
                        Ok(Value::Int(gone))
                    }
                    Some(_) => Err(wrong_type()),
                }
            }
            "ZCARD" => match self.live(key) {
                None => Ok(Value::Int(0)),
                Some(Entry { held: Held::Sorted(members), .. }) => {
                    Ok(Value::Int(members.len() as i64))
                }
                Some(_) => Err(wrong_type()),
            },
            "RPUSH" => {
                let (mut items, deadline) = match self.live(key) {
                    None => (Vec::new(), None),
                    Some(Entry { held: Held::List(items), deadline }) => (items, deadline),
                    Some(_) => return Err(wrong_type()),
                };
                items.push(args[2].clone());
                let length = items.len() as i64;
                self.keys.insert(key.to_string(), Entry { held: Held::List(items), deadline });
                Ok(Value::Int(length))
            }
            "LRANGE" => {
                let start = number(&args[2])?;
                let stop = number(&args[3])?;
                match self.live(key) {
                    None => Ok(Value::Bulk(Vec::new())),
                    Some(Entry { held: Held::List(items), .. }) => {
                        let n = items.len() as i64;
                        let from = if start < 0 { (n + start).max(0) } else { start };
                        let to = if stop < 0 { n + stop } else { stop.min(n - 1) };
                        let picked = if from > to || from >= n {
                            Vec::new()
                        } else {
                            items[from as usize..=to as usize].to_vec()
                        };
                        Ok(Value::Bulk(
                            picked.into_iter().map(|item| Value::Data(item.into_bytes())).collect(),
                        ))
                    }
                    Some(_) => Err(wrong_type()),
                }
            }
            "LLEN" => match self.live(key) {
                None => Ok(Value::Int(0)),
                Some(Entry { held: Held::List(items), .. }) => Ok(Value::Int(items.len() as i64)),
                Some(_) => Err(wrong_type()),
            },
            "LTRIM" => {
                let start = number(&args[2])?;
                let stop = number(&args[3])?;
                match self.live(key) {
                    None => Ok(Value::Okay),
                    Some(Entry { held: Held::List(items), deadline }) => {
                        let n = items.len() as i64;
                        let from = if start < 0 { (n + start).max(0) } else { start };
                        let to = if stop < 0 { n + stop } else { stop.min(n - 1) };
                        if from > to || from >= n {
                            self.keys.remove(key);
                        } else {
                            let rest = items[from as usize..=to as usize].to_vec();
                            self.keys
                                .insert(key.to_string(), Entry { held: Held::List(rest), deadline });
                        }
                        Ok(Value::Okay)
                    }
                    Some(_) => Err(wrong_type()),
                }
            }
            other => panic!("the stand-in store does not know {other}"),
        }
    }

    fn number_at(&mut self, key: &str) -> Option<i64> {
        match self.live(key) {
            Some(Entry { held: Held::Text(word), .. }) => Some(word.parse().unwrap()),
            Some(other) => panic!("{key} holds {other:?}"),
            None => None,
        }
    }

    fn deadline_of(&mut self, key: &str) -> Option<u64> {
        self.live(key).and_then(|entry| entry.deadline)
    }
}

/// Reads the number that follows a `*` or `$` up to the line's end, and
/// returns it with the position after the line break.
fn header(bytes: &[u8], at: usize, sign: u8) -> (usize, usize) {
    assert_eq!(bytes[at], sign);
    let mut end = at + 1;
    while bytes[end] != b'\r' {
        end += 1;
    }
    assert_eq!(bytes[end + 1], b'\n');
    (text(&bytes[at + 1..end]).parse().unwrap(), end + 2)
}

/// The requests of a packed pipeline, each as the list of its arguments.
fn parse_requests(bytes: &[u8]) -> Vec<Vec<String>> {
    let mut requests = Vec::new();
    let mut at = 0;
    while at < bytes.len() {
        let (arguments, next) = header(bytes, at, b'*');
        at = next;
        let mut request = Vec::new();
        for _ in 0..arguments {
            let (length, next) = header(bytes, at, b'$');
            request.push(text(&bytes[next..next + length]));
            assert_eq!(&bytes[next + length..next + length + 2], b"\r\n");
            at = next + length + 2;
        }
        requests.push(request);
    }
    requests
}

impl ConnectionLike for Store {
    fn req_packed_command(&mut self, cmd: &[u8]) -> RedisResult<Value> {
        let mut answers = self.req_packed_commands(cmd, 0, 1)?;
        Ok(answers.remove(0))
    }

    fn req_packed_commands(
        &mut self,
        cmd: &[u8],
        offset: usize,
        count: usize,
    ) -> RedisResult<Vec<Value>> {
        if self.down {
            return Err(RedisError::from(std::io::Error::from(
                std::io::ErrorKind::ConnectionRefused,
            )));
        }
        let requests = parse_requests(cmd);
        self.sent.extend(requests.iter().cloned());
        let atomic = requests.first().is_some_and(|first| first[0] == "MULTI");
        if atomic {
            assert_eq!(requests.last().unwrap()[0], "EXEC");
            assert_eq!(offset, requests.len() - 1);
            assert_eq!(count, 1);
            let saved = self.keys.clone();
            let mut answers = Vec::new();
            for request in &requests[1..requests.len() - 1] {
                match self.run(request) {
                    Ok(answer) => answers.push(answer),
                    Err(error) => {
                        self.keys = saved;
                        return Err(error);
                    }
                }
            }
            Ok(vec![Value::Bulk(answers)])
        } else {
            assert_eq!(offset, 0);
            assert_eq!(count, requests.len());
            let mut answers = Vec::new();
            for request in &requests {
                answers.push(self.run(request)?);
            }
            Ok(answers)
        }
    }

    fn get_db(&self) -> i64 {
        0
    }

    fn check_connection(&mut self) -> bool {
        !self.down
    }

    fn is_open(&self) -> bool {
        !self.down
    }
}

/// Plays an exchange to its end: sends each pipeline, reads the reply as one
/// optional integer per command that was not ignored, and hands it back.
fn drive(store: &mut Store, begun: Exchange) -> Result<Outcome, LimiterError> {
    let mut exchange = begun;
    let mut rounds = 0;
    loop {
        match exchange.step() {
            Step::Done(result) => {
                assert!(exchange.finished());
                return result;
            }
            Step::Send(pipeline) => {
                assert!(!exchange.finished());
                rounds += 1;
                assert!(rounds <= 4);
                let reply = match pipeline.query::<Vec<Option<i64>>>(store) {
                    Ok(values) => Reply::Values(values),
                    Err(error) => Reply::Failed(Fault::from_signs(
                        error.is_io_error(),
                        error.is_connection_refusal(),
                        error.is_connection_dropped(),
                        error.is_timeout(),
                    )),
                };
                exchange = exchange.advance(reply);
            }
            Step::Read(pipeline) => {
                assert!(!exchange.finished());
                rounds += 1;
                assert!(rounds <= 4);
                let reply = match pipeline.query::<(Vec<Option<i64>>,)>(store) {
                    Ok((values,)) => Reply::Values(values),
                    Err(error) => Reply::Failed(Fault::from_signs(
                        error.is_io_error(),
                        error.is_connection_refusal(),
                        error.is_connection_dropped(),
                        error.is_timeout(),
                    )),
                };
                exchange = exchange.advance(reply);
            }
        }
    }
}

fn allow(store: &mut Store, begun: Result<Exchange, LimiterError>) -> bool {
    drive(store, begun.unwrap()).unwrap().verdict().unwrap()
}

fn fetched(store: &mut Store, begun: Result<Exchange, LimiterError>) -> Outcome {
    drive(store, begun.unwrap()).unwrap()
}

fn count(store: &mut Store, begun: Result<Exchange, LimiterError>) -> u64 {
    drive(store, begun.unwrap()).unwrap().count().unwrap()
}

const START: u64 = 1_700_000_000_000;

/// Tests the ratelimiting in fixed window.
#[test]
fn fixed_window_redis_case1() {
    let mut store = Store::new();
    let limit_count = 1;
    let size = 1;
    let client = RateLimiterRedis::open(Ok(()), limit_count).unwrap();
    let key_prefix = "test";
    let resource = "data";
    let subject = "andy";

    store.now_ms = START;
    let actual =
        allow(&mut store, client.record_fixed_window(key_prefix, resource, subject, size, START));
    assert!(actual);

    store.now_ms = START + 10;
    let actual = allow(
        &mut store,
        client.record_fixed_window(key_prefix, resource, subject, size, START + 10),
    );
    assert!(!actual);
}

/// Integration: Initiated -> Throttled -> Cool Down -> Refilled
#[test]
fn fixed_window_redis_case2() {
    let mut store = Store::new();
    let limit_count = 1;
    let size = 1;
    let client = RateLimiterRedis::open(Ok(()), limit_count).unwrap();
    let key_prefix = "test";
    let resource = "data";
    let subject = "andy";

    let mut now = START;
    store.now_ms = now;
    let actual =
        allow(&mut store, client.record_fixed_window(key_prefix, resource, subject, size, now));
    assert!(actual);

    let seen =
        count(&mut store, client.fetch_fixed_window(key_prefix, resource, subject, size, now));
    assert_eq!(seen, 1);

    // throttled
    let actual =
        allow(&mut store, client.record_fixed_window(key_prefix, resource, subject, size, now));
    assert!(!actual);

    // cool down
    now += 1000;
    store.now_ms = now;

    let seen =
        count(&mut store, client.fetch_fixed_window(key_prefix, resource, subject, size, now));
    assert_eq!(seen, 0);

    let actual =
        allow(&mut store, client.record_fixed_window(key_prefix, resource, subject, size, now));
    assert!(actual);

    // refilled
    let seen =
        count(&mut store, client.fetch_fixed_window(key_prefix, resource, subject, size, now));
    assert_eq!(seen, 1);
}

/// Integration: Initiated -> Throttled -> Cool Down -> Refilled
#[test]
fn leaky_bucket_redis_case1() {
    let mut store = Store::new();
    let limit_count = 1;
    let size = 1;
    let client_consumer = RateLimiterRedis::open(Ok(()), limit_count).unwrap();
    let client_requester = RateLimiterRedis::open(Ok(()), limit_count).unwrap();
    let key_prefix = "test4";
    let resource = "data";
    let subject = "andy";

    let mut now = START;
    store.now_ms = now;
    println!("Consuming...");
    let leak = client_consumer.consume_leaky_bucket(key_prefix, resource, subject, size, now);
    assert_eq!(drive(&mut store, leak.unwrap()), Ok(Outcome::Drained));

    let actual = allow(
        &mut store,
        client_requester.record_leaky_bucket(key_prefix, resource, subject, size, now),
    );
    assert!(actual);

    // throttled
    let actual = allow(
        &mut store,
        client_requester.record_leaky_bucket(key_prefix, resource, subject, size, now),
    );
    assert!(!actual);

    // cool down
    now += 1000;
    store.now_ms = now;
    println!("Consuming...");
    let leak = client_consumer.consume_leaky_bucket(key_prefix, resource, subject, size, now);
    assert_eq!(drive(&mut store, leak.unwrap()), Ok(Outcome::Drained));
    let seen = count(
        &mut store,
        client_requester.fetch_leaky_bucket(key_prefix, resource, subject, size, now),
    );
    assert_eq!(seen, 0);

    // refilled
    let actual = allow(
        &mut store,
        client_requester.record_leaky_bucket(key_prefix, resource, subject, size, now),
    );
    assert!(actual);

    let seen = count(
        &mut store,
        client_requester.fetch_leaky_bucket(key_prefix, resource, subject, size, now),
    );
    assert_eq!(seen, 1);
    println!("The consumer is terminating...");
}

/// Tests the requests exceed the rate limit.
#[test]
fn sliding_log_redis_case1() {
    let mut store = Store::new();
    let limit_count = 1;
    let client = RateLimiterRedis::open(Ok(()), limit_count).unwrap();
    let key_prefix = "test2";
    let resource = "data";
    let subject = "andy";
    let size = 1;

    store.now_ms = START;
    let actual =
        allow(&mut store, client.record_sliding_log(key_prefix, resource, subject, size, START));
    assert!(actual);

    store.now_ms = START + 1;
    let actual = allow(
        &mut store,
        client.record_sliding_log(key_prefix, resource, subject, size, START + 1),
    );
    assert!(!actual);
}

/// Integration: Initiated -> Throttled -> Cool Down -> Refilled
#[test]
fn sliding_log_redis_case2() {
    let mut store = Store::new();
    let limit_count = 1;
    let client = RateLimiterRedis::open(Ok(()), limit_count).unwrap();
    let key_prefix = "test2";
    let resource = "data";
    let subject = "andy";
    let size = 1;

    let mut now = START;
    store.now_ms = now;
    let actual =
        allow(&mut store, client.record_sliding_log(key_prefix, resource, subject, size, now));
    assert!(actual);

    // throttled
    now += 1;
    store.now_ms = now;
    let actual =
        allow(&mut store, client.record_sliding_log(key_prefix, resource, subject, size, now));
    assert!(!actual);

    // cool down
    now += 2000;
    store.now_ms = now;

    let seen =
        fetched(&mut store, client.fetch_sliding_log(key_prefix, resource, subject, now));
    assert_eq!(seen.count(), Some(0));

    // refilled
    let actual =
        allow(&mut store, client.record_sliding_log(key_prefix, resource, subject, size, now));
    assert!(actual);

    let seen =
        fetched(&mut store, client.fetch_sliding_log(key_prefix, resource, subject, now));
    assert_eq!(seen.count(), Some(1));
}

/// Tests the requests exceed the rate limit.
#[test]
fn sliding_window_redis_case1() {
    let mut store = Store::new();
    let limit_count = 1;
    let client = RateLimiterRedis::open(Ok(()), limit_count).unwrap();
    let key_prefix = "test3";
    let resource = "data";
    let subject = "andy";
    let size = 1;

    store.now_ms = START;
    let actual = allow(
        &mut store,
        client.record_sliding_window(key_prefix, resource, subject, size, START),
    );
    assert!(actual);

    store.now_ms = START + 10;
    let actual = allow(
        &mut store,
        client.record_sliding_window(key_prefix, resource, subject, size, START + 10),
    );
    assert!(!actual);
}

/// Tests the requests do not exceed the rate limit.
#[test]
fn sliding_window_redis_case2() {
    let mut store = Store::new();
    let limit_count = 1;
    let client = RateLimiterRedis::open(Ok(()), limit_count).unwrap();
    let key_prefix = "test3";
    let resource = "data";
    let subject = "andy";
    let size = 1;

    let mut now = START;
    store.now_ms = now;
    let actual =
        allow(&mut store, client.record_sliding_window(key_prefix, resource, subject, size, now));
    assert!(actual);

    let actual =
        allow(&mut store, client.record_sliding_window(key_prefix, resource, subject, size, now));
    assert!(!actual);

    // the counter expires two windows after it was last incremented
    now += 2000;
    store.now_ms = now;

    let actual =
        allow(&mut store, client.record_sliding_window(key_prefix, resource, subject, size, now));
    assert!(actual);
}

#[test]
fn fixed_window_allows_capacity_then_refuses() {
    let mut store = Store::new();
    let client = RateLimiterRedis::open(Ok(()), 3).unwrap();
    // capacity = 3 per second * 2 seconds = 6; the window holding START starts at an even second
    let window_start = START;
    for i in 0..6u64 {
        let now = window_start + i * 300;
        store.now_ms = now;
        assert!(allow(&mut store, client.record_fixed_window("p", "r", "s", 2, now)), "call {i}");
        assert_eq!(count(&mut store, client.fetch_fixed_window("p", "r", "s", 2, now)), i + 1);
    }
    let now = window_start + 1999;
    store.now_ms = now;
    assert!(!allow(&mut store, client.record_fixed_window("p", "r", "s", 2, now)));
    assert_eq!(count(&mut store, client.fetch_fixed_window("p", "r", "s", 2, now)), 6);
    // another subject is not affected
    assert!(allow(&mut store, client.record_fixed_window("p", "r", "other", 2, now)));
}

#[test]
fn fixed_window_counter_key_and_expiry() {
    let mut store = Store::new();
    let client = RateLimiterRedis::open(Ok(()), 2).unwrap();
    let now = 125_500;
    store.now_ms = now;
    assert!(allow(&mut store, client.record_fixed_window("api", "orders", "bob", 10, now)));
    // 125 s truncated to a multiple of 10 s is 120
    assert_eq!(store.number_at("api:orders:bob:120"), Some(1));
    assert_eq!(store.deadline_of("api:orders:bob:120"), Some(now + 10_000));
    assert_eq!(
        store.sent,
        vec![
            vec!["MULTI".to_string()],
            vec!["GET".to_string(), "api:orders:bob:120".to_string()],
            vec!["EXEC".to_string()],
            vec!["MULTI".to_string()],
            vec!["SETNX".to_string(), "api:orders:bob:120".to_string(), "0".to_string()],
            vec!["EXEC".to_string()],
            vec!["MULTI".to_string()],
            vec!["INCRBY".to_string(), "api:orders:bob:120".to_string(), "1".to_string()],
            vec!["EXPIRE".to_string(), "api:orders:bob:120".to_string(), "10".to_string()],
            vec!["EXEC".to_string()],
        ]
    );
}

#[test]
fn fixed_window_refusal_sends_one_read_only() {
    let mut store = Store::new();
    let client = RateLimiterRedis::open(Ok(()), 1).unwrap();
    store.now_ms = START;
    assert!(allow(&mut store, client.record_fixed_window("p", "r", "s", 1, START)));
    let before = store.keys.get("p:r:s:1700000000").unwrap().clone();
    store.sent.clear();
    assert!(!allow(&mut store, client.record_fixed_window("p", "r", "s", 1, START)));
    assert_eq!(store.sent.len(), 3);
    assert_eq!(store.sent[1][0], "GET");
    let after = store.keys.get("p:r:s:1700000000").unwrap().clone();
    assert_eq!(before.held, after.held);
    assert_eq!(before.deadline, after.deadline);
}

#[test]
fn fixed_window_takes_back_a_lost_race() {
    // Another caller takes the last unit between this caller's read and its
    // increment: the increment's reply is over the capacity, so it is undone.
    let mut store = Store::new();
    let client = RateLimiterRedis::open(Ok(()), 1).unwrap();
    store.now_ms = START;
    let mut exchange = client.record_fixed_window("p", "r", "s", 1, START).unwrap();
    let mut round = 0;
    let result = loop {
        match exchange.step() {
            Step::Done(result) => break result,
            Step::Read(_) => unreachable!(),
            Step::Send(pipeline) => {
                round += 1;
                if round == 3 {
                    store.shift("p:r:s:1700000000", 1).unwrap();
                }
                let values = pipeline.query::<Vec<Option<i64>>>(&mut store).unwrap();
                exchange = exchange.advance(Reply::Values(values));
            }
        }
    };
    assert_eq!(result, Ok(Outcome::Verdict(false)));
    assert_eq!(round, 4);
    assert_eq!(store.number_at("p:r:s:1700000000"), Some(1));
    assert_eq!(store.sent.last().unwrap()[0], "EXEC");
    assert_eq!(store.sent[store.sent.len() - 2][0], "DECRBY");
}

#[test]
fn sliding_log_counts_calls_in_the_trailing_window() {
    let mut store = Store::new();
    let client = RateLimiterRedis::open(Ok(()), 5).unwrap();
    // capacity 10 over a 2 s window that is not aligned to anything
    let times = [START + 700, START + 1500, START + 2600, START + 2800, START + 4700];
    let expected = [1, 2, 3, 3, 2];
    for (now, want) in times.iter().zip(expected.iter()) {
        store.now_ms = *now;
        assert!(allow(&mut store, client.record_sliding_log("p", "r", "s", 2, *now)));
        let seen = fetched(&mut store, client.fetch_sliding_log("p", "r", "s", *now));
        assert_eq!(seen.count(), Some(*want), "at {now}");
    }
}

#[test]
fn sliding_log_keeps_the_entry_exactly_one_window_old() {
    let mut store = Store::new();
    let client = RateLimiterRedis::open(Ok(()), 5).unwrap();
    store.now_ms = START;
    assert!(allow(&mut store, client.record_sliding_log("p", "r", "s", 1, START)));
    store.now_ms = START + 1000;
    assert!(allow(&mut store, client.record_sliding_log("p", "r", "s", 1, START + 1000)));
    let seen = fetched(&mut store, client.fetch_sliding_log("p", "r", "s", START + 1000));
    assert_eq!(seen.count(), Some(2));
    let insert: Vec<&Vec<String>> =
        store.sent.iter().filter(|request| request[0] == "ZREMRANGEBYSCORE").collect();
    assert_eq!(
        insert[1],
        &vec![
            "ZREMRANGEBYSCORE".to_string(),
            "p:r:s".to_string(),
            "0".to_string(),
            "(1700000000000".to_string()
        ]
    );
    store.now_ms = START + 2001;
    assert!(allow(&mut store, client.record_sliding_log("p", "r", "s", 1, START + 2001)));
    let seen = fetched(&mut store, client.fetch_sliding_log("p", "r", "s", START + 2001));
    assert_eq!(seen.count(), Some(1));
}

#[test]
fn sliding_log_fetch_reports_stale_entries_until_the_next_record() {
    let mut store = Store::new();
    let client = RateLimiterRedis::open(Ok(()), 5).unwrap();
    store.now_ms = START;
    assert!(allow(&mut store, client.record_sliding_log("p", "r", "s", 2, START)));
    store.now_ms = START + 1500;
    assert!(allow(&mut store, client.record_sliding_log("p", "r", "s", 2, START + 1500)));
    // the first entry is older than the window now, but nothing pruned it
    store.now_ms = START + 2500;
    let seen = fetched(&mut store, client.fetch_sliding_log("p", "r", "s", START + 2500));
    assert_eq!(seen.count(), Some(2));
    // a window after the last record the whole ledger has expired
    store.now_ms = START + 3501;
    let seen = fetched(&mut store, client.fetch_sliding_log("p", "r", "s", START + 3501));
    assert_eq!(seen.count(), Some(0));
}

#[test]
fn sliding_log_same_millisecond_shares_an_entry() {
    let mut store = Store::new();
    let client = RateLimiterRedis::open(Ok(()), 2).unwrap();
    store.now_ms = START;
    for _ in 0..3 {
        assert!(allow(&mut store, client.record_sliding_log("p", "r", "s", 1, START)));
    }
    let seen = fetched(&mut store, client.fetch_sliding_log("p", "r", "s", START));
    assert_eq!(seen.count(), Some(1));
}

#[test]
fn sliding_window_estimate_weighs_the_previous_window() {
    let mut store = Store::new();
    let client = RateLimiterRedis::open(Ok(()), 10).unwrap();
    // window 10 s, capacity 100; seven calls in the window that starts at 1_000 s
    for i in 0..7u64 {
        let now = 1_000_000 + i * 1000;
        store.now_ms = now;
        assert!(allow(&mut store, client.record_sliding_window("p", "r", "s", 10, now)));
    }
    assert_eq!(store.number_at("p:r:s:1000"), Some(7));
    assert_eq!(store.deadline_of("p:r:s:1000"), Some(1_006_000 + 20_000));
    // in the next window, with three calls of its own so far
    for i in 0..3u64 {
        let now = 1_010_000 + i;
        store.now_ms = now;
        assert!(allow(&mut store, client.record_sliding_window("p", "r", "s", 10, now)));
    }
    let expected = [
        (1_010_002u64, 10u64), // 3 + round(7 * 9998 / 10000) = 3 + round(6.9986)
        (1_012_500, 8),        // 3 + round(7 * 0.75) = 3 + round(5.25)
        (1_015_000, 7),        // 3 + round(3.5), a half rounds up
        (1_017_143, 5),        // 3 + round(7 * 0.2857) = 3 + round(1.9999)
        (1_019_999, 3),        // 3 + round(0.0007)
        (1_020_000, 3),        // a window later the current counter has become the previous one
        (1_025_000, 2),        // round(3 * 0.5) = round(1.5)
        (1_030_000, 0),        // two windows later nothing is left
    ];
    let mut last = u64::MAX;
    for (now, want) in expected.iter() {
        store.now_ms = *now;
        let seen = count(&mut store, client.fetch_sliding_window("p", "r", "s", 10, *now));
        assert_eq!(seen, *want, "at {now}");
        if *now < 1_020_000 {
            assert!(seen <= last);
            last = seen;
        }
    }
}

#[test]
fn sliding_window_refuses_by_the_estimate() {
    let mut store = Store::new();
    let client = RateLimiterRedis::open(Ok(()), 2).unwrap();
    // capacity 2 in a 1 s window
    store.now_ms = START;
    assert!(allow(&mut store, client.record_sliding_window("p", "r", "s", 1, START)));
    assert!(allow(&mut store, client.record_sliding_window("p", "r", "s", 1, START + 1)));
    assert!(!allow(&mut store, client.record_sliding_window("p", "r", "s", 1, START + 2)));
    // early in the next window the previous two still weigh fully: 0 + round(2 * 0.9) = 2
    store.now_ms = START + 1100;
    assert!(!allow(&mut store, client.record_sliding_window("p", "r", "s", 1, START + 1100)));
    // later they weigh less: 0 + round(2 * 0.7) = 1
    store.now_ms = START + 1300;
    assert!(allow(&mut store, client.record_sliding_window("p", "r", "s", 1, START + 1300)));
    // now 1 + round(2 * 0.2) = 1
    store.now_ms = START + 1800;
    assert!(allow(&mut store, client.record_sliding_window("p", "r", "s", 1, START + 1800)));
    assert!(!allow(&mut store, client.record_sliding_window("p", "r", "s", 1, START + 1900)));
}

#[test]
fn sliding_window_reads_a_window_before_the_clocks_zero() {
    let mut store = Store::new();
    let client = RateLimiterRedis::open(Ok(()), 1).unwrap();
    store.now_ms = 500;
    assert!(allow(&mut store, client.record_sliding_window("p", "r", "s", 60, 500)));
    assert_eq!(store.sent[1], vec!["GET".to_string(), "p:r:s:-60".to_string()]);
    assert_eq!(store.sent[2], vec!["GET".to_string(), "p:r:s:0".to_string()]);
    assert_eq!(count(&mut store, client.fetch_sliding_window("p", "r", "s", 60, 500)), 1);
}

#[test]
fn leaky_bucket_queue_never_exceeds_capacity() {
    let mut store = Store::new();
    let client = RateLimiterRedis::open(Ok(()), 2).unwrap();
    // capacity 4 over 2 s
    let mut allowed = 0;
    for i in 0..10u64 {
        let now = START + i * 100;
        store.now_ms = now;
        if allow(&mut store, client.record_leaky_bucket("p", "r", "s", 2, now)) {
            allowed += 1;
        }
        assert!(count(&mut store, client.fetch_leaky_bucket("p", "r", "s", 2, now)) <= 4);
    }
    assert_eq!(allowed, 4);
    assert_eq!(
        store.keys.get("p:r:s").unwrap().held,
        Held::List(vec!["1700000000".to_string(); 4])
    );
    // the queue expires a window after the last admitted call
    assert_eq!(store.deadline_of("p:r:s"), Some(START + 300 + 2000));
}

fn queue_of(store: &mut Store, key: &str) -> Vec<String> {
    match store.live(key) {
        Some(Entry { held: Held::List(items), .. }) => items,
        Some(other) => panic!("{key} holds {other:?}"),
        None => Vec::new(),
    }
}

fn set_queue(store: &mut Store, key: &str, markers: &[i64], deadline: Option<u64>) {
    store.keys.insert(
        key.to_string(),
        Entry { held: Held::List(markers.iter().map(|m| m.to_string()).collect()), deadline },
    );
}

#[test]
fn leaky_bucket_leak_keeps_the_markers_of_the_current_window() {
    let mut store = Store::new();
    let client = RateLimiterRedis::open(Ok(()), 4).unwrap();
    // six calls in the window that starts at second 2, after two in the window before
    for now in [500u64, 1900, 2000, 2300, 2600, 3100, 3500, 3999] {
        store.now_ms = now;
        assert!(allow(&mut store, client.record_leaky_bucket("p", "r", "s", 2, now)));
    }
    assert_eq!(queue_of(&mut store, "p:r:s"), vec!["0", "1", "2", "2", "2", "3", "3", "3"]);
    let deadline = store.deadline_of("p:r:s");
    store.now_ms = 3999;
    store.sent.clear();
    let leak = client.consume_leaky_bucket("p", "r", "s", 2, 3999).unwrap();
    assert_eq!(drive(&mut store, leak), Ok(Outcome::Drained));
    assert_eq!(
        store.sent,
        vec![
            vec!["LRANGE".to_string(), "p:r:s".to_string(), "0".to_string(), "-1".to_string()],
            vec!["LTRIM".to_string(), "p:r:s".to_string(), "2".to_string(), "-1".to_string()],
        ]
    );
    assert_eq!(queue_of(&mut store, "p:r:s"), vec!["2", "2", "2", "3", "3", "3"]);
    assert_eq!(store.deadline_of("p:r:s"), deadline);
    assert_eq!(count(&mut store, client.fetch_leaky_bucket("p", "r", "s", 2, 3999)), 6);
    // in the next window all of them are stale
    store.now_ms = 4000;
    let leak = client.consume_leaky_bucket("p", "r", "s", 2, 4000).unwrap();
    assert_eq!(drive(&mut store, leak), Ok(Outcome::Drained));
    assert!(store.keys.get("p:r:s").is_none());
    assert_eq!(count(&mut store, client.fetch_leaky_bucket("p", "r", "s", 2, 4000)), 0);
}

#[test]
fn leaky_bucket_leak_spares_a_marker_of_this_second() {
    let mut store = Store::new();
    let client = RateLimiterRedis::open(Ok(()), 1).unwrap();
    store.now_ms = 100_000;
    set_queue(&mut store, "test4:data:andy", &[100], None);
    let leak = client.consume_leaky_bucket("test4", "data", "andy", 1, 100_000).unwrap();
    assert_eq!(drive(&mut store, leak), Ok(Outcome::Drained));
    assert_eq!(queue_of(&mut store, "test4:data:andy"), vec!["100"]);

    set_queue(&mut store, "test4:data:andy", &[5, 100], None);
    let leak = client.consume_leaky_bucket("test4", "data", "andy", 1, 100_999).unwrap();
    assert_eq!(drive(&mut store, leak), Ok(Outcome::Drained));
    assert_eq!(queue_of(&mut store, "test4:data:andy"), vec!["100"]);
}

#[test]
fn leaky_bucket_leak_over_stale_markers_leaves_nothing() {
    let mut store = Store::new();
    let client = RateLimiterRedis::open(Ok(()), 2).unwrap();
    store.now_ms = 1_000;
    set_queue(&mut store, "p:r:s", &[0, 0], None);
    store.sent.clear();
    let leak = client.consume_leaky_bucket("p", "r", "s", 1, 1_000).unwrap();
    assert_eq!(drive(&mut store, leak), Ok(Outcome::Drained));
    assert_eq!(
        store.sent[1],
        vec!["LTRIM".to_string(), "p:r:s".to_string(), "1".to_string(), "0".to_string()]
    );
    assert!(store.keys.get("p:r:s").is_none());
    assert_eq!(count(&mut store, client.fetch_leaky_bucket("p", "r", "s", 1, 1_000)), 0);
    assert!(allow(&mut store, client.record_leaky_bucket("p", "r", "s", 1, 1_000)));
}

#[test]
fn leaky_bucket_leak_drops_markers_ahead_of_the_window() {
    let mut store = Store::new();
    let client = RateLimiterRedis::open(Ok(()), 5).unwrap();
    store.now_ms = 10_500;
    set_queue(&mut store, "p:r:s", &[8, 9, 10, 10, 11, 12, 13], Some(99_000));
    store.sent.clear();
    let leak = client.consume_leaky_bucket("p", "r", "s", 2, 10_500).unwrap();
    assert_eq!(drive(&mut store, leak), Ok(Outcome::Drained));
    assert_eq!(
        store.sent[1],
        vec!["LTRIM".to_string(), "p:r:s".to_string(), "2".to_string(), "4".to_string()]
    );
    assert_eq!(queue_of(&mut store, "p:r:s"), vec!["10", "10", "11"]);
    assert_eq!(store.deadline_of("p:r:s"), Some(99_000));
}

#[test]
fn leaky_bucket_leak_refuses_a_queue_out_of_order() {
    let mut store = Store::new();
    let client = RateLimiterRedis::open(Ok(()), 5).unwrap();
    store.now_ms = 100_000;
    set_queue(&mut store, "p:r:s", &[100, 5, 100], None);
    store.sent.clear();
    let leak = client.consume_leaky_bucket("p", "r", "s", 1, 100_000).unwrap();
    assert_eq!(drive(&mut store, leak), Err(LimiterError::Command));
    assert_eq!(store.sent.len(), 1);
    assert_eq!(queue_of(&mut store, "p:r:s"), vec!["100", "5", "100"]);
    // markers out of order that do not part the window's markers are trimmed
    set_queue(&mut store, "p:r:s", &[7, 5, 100, 100, 3], None);
    let leak = client.consume_leaky_bucket("p", "r", "s", 1, 100_000).unwrap();
    assert_eq!(drive(&mut store, leak), Ok(Outcome::Drained));
    assert_eq!(queue_of(&mut store, "p:r:s"), vec!["100", "100"]);
}

#[test]
fn leaky_bucket_leak_on_an_absent_queue() {
    let mut store = Store::new();
    let client = RateLimiterRedis::open(Ok(()), 1).unwrap();
    store.now_ms = START;
    let leak = client.consume_leaky_bucket("p", "r", "s", 1, START).unwrap();
    assert_eq!(drive(&mut store, leak), Ok(Outcome::Drained));
    assert_eq!(count(&mut store, client.fetch_leaky_bucket("p", "r", "s", 1, START)), 0);
}

#[test]
fn token_bucket_takes_one_token_per_call() {
    let mut store = Store::new();
    let client = RateLimiterRedis::open(Ok(()), 2).unwrap();
    // capacity 6 over 3 s
    store.now_ms = START;
    assert_eq!(count(&mut store, client.fetch_token_bucket("p", "r", "s", 3, START)), 6);
    for i in 0..6u64 {
        let now = START + i * 400;
        store.now_ms = now;
        assert!(allow(&mut store, client.record_token_bucket("p", "r", "s", 3, now)), "call {i}");
        assert_eq!(count(&mut store, client.fetch_token_bucket("p", "r", "s", 3, now)), 5 - i);
        assert_eq!(store.number_at("p:r:s:remain_requests"), Some(5 - i as i64));
        assert_eq!(store.number_at("p:r:s:last_set_time"), Some(1_700_000_000));
    }
    store.now_ms = START + 2900;
    assert!(!allow(&mut store, client.record_token_bucket("p", "r", "s", 3, START + 2900)));
    assert_eq!(store.number_at("p:r:s:remain_requests"), Some(0));
    assert_eq!(store.deadline_of("p:r:s:remain_requests"), Some(START + 3000));
    assert_eq!(store.deadline_of("p:r:s:last_set_time"), Some(START + 3000));
}

#[test]
fn token_bucket_refills_all_at_once_after_a_window() {
    let mut store = Store::new();
    let client = RateLimiterRedis::open(Ok(()), 2).unwrap();
    // filled at 10.9 s, so the keys live until 11.9 s and the stamp says 10
    store.now_ms = 10_900;
    assert!(allow(&mut store, client.record_token_bucket("p", "r", "s", 1, 10_900)));
    assert!(allow(&mut store, client.record_token_bucket("p", "r", "s", 1, 10_950)));
    assert!(!allow(&mut store, client.record_token_bucket("p", "r", "s", 1, 10_999)));
    // at 11.5 s the second of the clock is one window past the stamp
    store.now_ms = 11_500;
    store.sent.clear();
    assert_eq!(count(&mut store, client.fetch_token_bucket("p", "r", "s", 1, 11_500)), 2);
    store.sent.clear();
    assert!(allow(&mut store, client.record_token_bucket("p", "r", "s", 1, 11_500)));
    let names: Vec<&str> = store.sent.iter().map(|request| request[0].as_str()).collect();
    assert_eq!(
        names,
        vec![
            "MULTI", "GET", "EXEC", "MULTI", "SET", "EXPIRE", "SET", "EXPIRE", "EXEC", "MULTI",
            "DECRBY", "EXEC"
        ]
    );
    assert_eq!(
        store.sent[4],
        vec!["SET".to_string(), "p:r:s:remain_requests".to_string(), "2".to_string()]
    );
    assert_eq!(
        store.sent[6],
        vec!["SET".to_string(), "p:r:s:last_set_time".to_string(), "11".to_string()]
    );
    assert_eq!(store.number_at("p:r:s:remain_requests"), Some(1));
    assert_eq!(store.number_at("p:r:s:last_set_time"), Some(11));
    assert_eq!(store.deadline_of("p:r:s:last_set_time"), Some(12_500));
}

#[test]
fn token_bucket_first_call_fills_the_bucket() {
    let mut store = Store::new();
    let client = RateLimiterRedis::open(Ok(()), 1).unwrap();
    store.now_ms = START;
    assert!(allow(&mut store, client.record_token_bucket("p", "r", "s", 1, START)));
    let names: Vec<&str> = store.sent.iter().map(|request| request[0].as_str()).collect();
    assert_eq!(
        names,
        vec![
            "MULTI", "GET", "EXEC", "MULTI", "SET", "EXPIRE", "SET", "EXPIRE", "EXEC", "MULTI",
            "DECRBY", "EXEC"
        ]
    );
    assert_eq!(
        store.sent[4],
        vec!["SET".to_string(), "p:r:s:last_set_time".to_string(), "1700000000".to_string()]
    );
    assert!(!allow(&mut store, client.record_token_bucket("p", "r", "s", 1, START + 1)));
    // after the keys have expired the bucket is filled again
    store.now_ms = START + 1001;
    assert!(allow(&mut store, client.record_token_bucket("p", "r", "s", 1, START + 1001)));
}

#[test]
fn token_bucket_puts_back_a_token_it_could_not_have() {
    // Another caller takes the last token between this caller's read and its
    // decrement: the decrement goes below zero and is undone.
    let mut store = Store::new();
    let client = RateLimiterRedis::open(Ok(()), 2).unwrap();
    store.now_ms = START;
    assert!(allow(&mut store, client.record_token_bucket("p", "r", "s", 1, START)));
    let mut exchange = client.record_token_bucket("p", "r", "s", 1, START).unwrap();
    let mut round = 0;
    let result = loop {
        match exchange.step() {
            Step::Done(result) => break result,
            Step::Read(_) => unreachable!(),
            Step::Send(pipeline) => {
                round += 1;
                if round == 3 {
                    store.shift("p:r:s:remain_requests", -1).unwrap();
                }
                let values = pipeline.query::<Vec<Option<i64>>>(&mut store).unwrap();
                exchange = exchange.advance(Reply::Values(values));
            }
        }
    };
    assert_eq!(result, Ok(Outcome::Verdict(false)));
    assert_eq!(round, 4);
    assert_eq!(store.number_at("p:r:s:remain_requests"), Some(0));
    assert_eq!(store.sent[store.sent.len() - 2][0], "INCRBY");
}

#[test]
fn token_bucket_fetch_with_a_missing_count() {
    let mut store = Store::new();
    store.now_ms = START;
    store.keys.insert(
        "p:r:s:last_set_time".to_string(),
        Entry { held: Held::Text("1700000000".to_string()), deadline: None },
    );
    let strict = RateLimiterRedis::open(Ok(()), 3).unwrap();
    let begun = strict.fetch_token_bucket("p", "r", "s", 2, START).unwrap();
    assert_eq!(drive(&mut store, begun), Err(LimiterError::Command));
    let begun = strict.record_token_bucket("p", "r", "s", 2, START).unwrap();
    assert_eq!(drive(&mut store, begun), Err(LimiterError::Command));
    let lenient = TokenBucketRateLimiter { limit_per_sec: 3 };
    let begun = lenient.fetch("p", "r", "s", 2, START).unwrap();
    assert_eq!(drive(&mut store, begun), Ok(Outcome::Count(6)));
}

#[test]
fn token_bucket_limiter_records_and_fetches() {
    let mut store = Store::new();
    let limiter = TokenBucketRateLimiter { limit_per_sec: 1 };
    store.now_ms = START;
    assert_eq!(count(&mut store, limiter.fetch("test5", "data", "andy", 1, START)), 1);
    assert!(limiter.can_make_request(1));
    assert!(allow(&mut store, limiter.record("test5", "data", "andy", 1, START)));
    let left = count(&mut store, limiter.fetch("test5", "data", "andy", 1, START));
    assert_eq!(left, 0);
    assert!(!limiter.can_make_request(left));
    assert!(!allow(&mut store, limiter.record("test5", "data", "andy", 1, START + 500)));
    store.now_ms = START + 1000;
    assert!(allow(&mut store, limiter.record("test5", "data", "andy", 1, START + 1000)));
    assert_eq!(limiter.record("a", "b", "c", 0, START).err(), Some(LimiterError::Configuration));
    assert_eq!(limiter.fetch("a", "b", "c", 0, START).err(), Some(LimiterError::Configuration));
}

#[test]
fn scenario_capacity_one_window_one_second() {
    // capacity = 1, window = 1 s: record, record, wait 1 s, record, fetch
    let mut store = Store::new();
    let client = RateLimiterRedis::open(Ok(()), 1).unwrap();
    store.now_ms = START + 200;
    assert!(allow(&mut store, client.record_fixed_window("p", "r", "s", 1, START + 200)));
    assert!(!allow(&mut store, client.record_fixed_window("p", "r", "s", 1, START + 300)));
    store.now_ms = START + 1300;
    assert!(allow(&mut store, client.record_fixed_window("p", "r", "s", 1, START + 1300)));
    assert_eq!(count(&mut store, client.fetch_fixed_window("p", "r", "s", 1, START + 1300)), 1);
}

#[test]
fn scenario_sliding_window_resolves_like_fixed_window() {
    let mut store = Store::new();
    let client = RateLimiterRedis::open(Ok(()), 1).unwrap();
    let first = [
        {
            store.now_ms = START + 100;
            allow(&mut store, client.record_fixed_window("fixed", "r", "s", 1, START + 100))
        },
        allow(&mut store, client.record_fixed_window("fixed", "r", "s", 1, START + 400)),
    ];
    let second = [
        allow(&mut store, client.record_sliding_window("sliding", "r", "s", 1, START + 100)),
        allow(&mut store, client.record_sliding_window("sliding", "r", "s", 1, START + 400)),
    ];
    assert_eq!(first, [true, false]);
    assert_eq!(second, first);
    assert_eq!(
        count(&mut store, client.fetch_sliding_window("sliding", "r", "s", 1, START + 400)),
        1
    );
    // after two windows the estimate is back at 0
    store.now_ms = START + 2400;
    assert_eq!(
        count(&mut store, client.fetch_sliding_window("sliding", "r", "s", 1, START + 2400)),
        0
    );
}

#[test]
fn a_connection_failure_ends_the_operation() {
    let mut store = Store::new();
    store.down = true;
    let client = RateLimiterRedis::open(Ok(()), 1).unwrap();
    let begun = client.record_fixed_window("p", "r", "s", 1, START).unwrap();
    assert_eq!(drive(&mut store, begun), Err(LimiterError::Connection));
    let begun = client.fetch_sliding_log("p", "r", "s", START).unwrap();
    assert_eq!(drive(&mut store, begun), Err(LimiterError::Connection));
}

#[test]
fn a_key_of_the_wrong_kind_is_a_command_error() {
    let mut store = Store::new();
    store.now_ms = START;
    store.keys.insert(
        "p:r:s".to_string(),
        Entry { held: Held::Text("7".to_string()), deadline: None },
    );
    store.keys.insert(
        "p:r:s:1700000000".to_string(),
        Entry { held: Held::List(vec!["x".to_string()]), deadline: None },
    );
    let client = RateLimiterRedis::open(Ok(()), 1).unwrap();
    let begun = client.record_sliding_log("p", "r", "s", 1, START).unwrap();
    assert_eq!(drive(&mut store, begun), Err(LimiterError::Command));
    let begun = client.record_leaky_bucket("p", "r", "s", 1, START).unwrap();
    assert_eq!(drive(&mut store, begun), Err(LimiterError::Command));
    let begun = client.consume_leaky_bucket("p", "r", "s", 1, START).unwrap();
    assert_eq!(drive(&mut store, begun), Err(LimiterError::Command));
    let begun = client.fetch_fixed_window("p", "r", "s", 1, START).unwrap();
    assert_eq!(drive(&mut store, begun), Err(LimiterError::Command));
    let begun = client.record_sliding_window("p", "r", "s", 1, START).unwrap();
    assert_eq!(drive(&mut store, begun), Err(LimiterError::Command));
}

#[test]
fn a_negative_counter_is_a_command_error() {
    let mut store = Store::new();
    store.now_ms = START;
    store.keys.insert(
        "p:r:s:1700000000".to_string(),
        Entry { held: Held::Text("-3".to_string()), deadline: None },
    );
    let client = RateLimiterRedis::open(Ok(()), 1).unwrap();
    let begun = client.record_fixed_window("p", "r", "s", 1, START).unwrap();
    assert_eq!(drive(&mut store, begun), Err(LimiterError::Command));
    let begun = client.fetch_fixed_window("p", "r", "s", 1, START).unwrap();
    assert_eq!(drive(&mut store, begun), Err(LimiterError::Command));
    let begun = client.fetch_sliding_window("p", "r", "s", 1, START).unwrap();
    assert_eq!(drive(&mut store, begun), Err(LimiterError::Command));
}

/// Plays several exchanges turn by turn, one round trip each in rotation,
/// and returns how each ended.
fn rotate(store: &mut Store, begun: Vec<Exchange>) -> Vec<Result<Outcome, LimiterError>> {
    let mut flights: Vec<Option<Exchange>> = begun.into_iter().map(Some).collect();
    let mut endings: Vec<Option<Result<Outcome, LimiterError>>> = vec![None; flights.len()];
    while endings.iter().any(|ending| ending.is_none()) {
        for (flight, ending) in flights.iter_mut().zip(endings.iter_mut()) {
            if ending.is_some() {
                continue;
            }
            let exchange = flight.take().unwrap();
            match exchange.step() {
                Step::Done(result) => *ending = Some(result),
                Step::Read(_) => unreachable!(),
                Step::Send(pipeline) => {
                    let values = pipeline.query::<Vec<Option<i64>>>(store).unwrap();
                    *flight = Some(exchange.advance(Reply::Values(values)));
                }
            }
            if ending.is_none() && flight.is_none() {
                unreachable!();
            }
        }
    }
    endings.into_iter().map(|ending| ending.unwrap()).collect()
}

#[test]
fn fixed_window_callers_in_lockstep_share_the_capacity() {
    let mut store = Store::new();
    let client = RateLimiterRedis::open(Ok(()), 3).unwrap();
    store.now_ms = START;
    let begun: Vec<Exchange> = (0..10u64)
        .map(|i| client.record_fixed_window("p", "r", "s", 1, START + i).unwrap())
        .collect();
    let endings = rotate(&mut store, begun);
    let allowed = endings.iter().filter(|ending| **ending == Ok(Outcome::Verdict(true))).count();
    let refused = endings.iter().filter(|ending| **ending == Ok(Outcome::Verdict(false))).count();
    assert_eq!(allowed, 3);
    assert_eq!(refused, 7);
    assert_eq!(store.number_at("p:r:s:1700000000"), Some(3));
    assert_eq!(count(&mut store, client.fetch_fixed_window("p", "r", "s", 1, START + 20)), 3);
}

#[test]
fn token_bucket_callers_in_lockstep_share_the_tokens() {
    let mut store = Store::new();
    let client = RateLimiterRedis::open(Ok(()), 4).unwrap();
    store.now_ms = START;
    // the first call fills the bucket and takes one of its four tokens
    assert!(allow(&mut store, client.record_token_bucket("p", "r", "s", 1, START)));
    let begun: Vec<Exchange> = (1..=10u64)
        .map(|i| client.record_token_bucket("p", "r", "s", 1, START + i).unwrap())
        .collect();
    let endings = rotate(&mut store, begun);
    let allowed = endings.iter().filter(|ending| **ending == Ok(Outcome::Verdict(true))).count();
    let refused = endings.iter().filter(|ending| **ending == Ok(Outcome::Verdict(false))).count();
    assert_eq!(allowed, 3);
    assert_eq!(refused, 7);
    assert_eq!(store.number_at("p:r:s:remain_requests"), Some(0));
    assert_eq!(count(&mut store, client.fetch_token_bucket("p", "r", "s", 1, START + 20)), 0);
}

#[test]
fn sliding_log_fetch_does_not_prune() {
    // records at 0 and 900 ms, a fetch at 1500 ms, window 1 s: the entry at 0 is
    // older than the window by then, but only a record removes it
    let mut store = Store::new();
    let client = RateLimiterRedis::open(Ok(()), 9).unwrap();
    store.now_ms = 0;
    assert!(allow(&mut store, client.record_sliding_log("p", "r", "s", 1, 0)));
    store.now_ms = 900;
    assert!(allow(&mut store, client.record_sliding_log("p", "r", "s", 1, 900)));
    store.now_ms = 1500;
    let seen = fetched(&mut store, client.fetch_sliding_log("p", "r", "s", 1500));
    assert_eq!(seen.count(), Some(2));
    // the ledger lives one window from the last allowed record, and no longer
    store.now_ms = 1900;
    let seen = fetched(&mut store, client.fetch_sliding_log("p", "r", "s", 1900));
    assert_eq!(seen.count(), Some(2));
    store.now_ms = 1901;
    let seen = fetched(&mut store, client.fetch_sliding_log("p", "r", "s", 1901));
    assert_eq!(seen.count(), Some(0));
}
