//! Limits and windows that are refused, and the arithmetic of time.

use rrr::clock::{capacity, seconds, MAX_WINDOW_SECS};
use rrr::error::{Fault, LimiterError};
use rrr::exchange::{Outcome, Reply, Step};
use rrr::rate_limiter_redis::RateLimiterRedis;
use rrr::rate_limiter_redis_trait::RateLimiterRedisTrait;
use rrr::token_bucket_rate_limiter_redis::TokenBucketRateLimiter;

#[test]
fn capacity_is_limit_times_window() {
    assert_eq!(capacity(1, 1), Ok(1));
    assert_eq!(capacity(3, 60), Ok(180));
    assert_eq!(capacity(8_589_934_600, MAX_WINDOW_SECS), Ok(9_223_372_036_854_775_800));
    assert_eq!(capacity(i64::MAX as u64, 1), Ok(9_223_372_036_854_775_807));
}

#[test]
fn capacity_refuses_what_cannot_be_used() {
    assert_eq!(capacity(0, 1), Err(LimiterError::Configuration));
    assert_eq!(capacity(1, 0), Err(LimiterError::Configuration));
    assert_eq!(capacity(0, 0), Err(LimiterError::Configuration));
    assert_eq!(capacity(1, MAX_WINDOW_SECS + 1), Err(LimiterError::Configuration));
    // more than the store's integers can count to
    assert_eq!(capacity(i64::MAX as u64 + 1, 1), Err(LimiterError::Configuration));
    assert_eq!(capacity(u64::MAX, 1), Err(LimiterError::Configuration));
    assert_eq!(capacity(u64::MAX, 2), Err(LimiterError::Configuration));
    assert_eq!(capacity(8_589_934_601, MAX_WINDOW_SECS), Err(LimiterError::Configuration));
}

#[test]
fn seconds_drop_the_milliseconds() {
    assert_eq!(seconds(0), 0);
    assert_eq!(seconds(999), 0);
    assert_eq!(seconds(1000), 1);
    assert_eq!(seconds(u64::MAX), 18_446_744_073_709_551);
}

/// The key of the counter that a fixed-window fetch reads first.
fn counter_key(now_ms: u64, size_secs: u64) -> String {
    let limiter = RateLimiterRedis::open(Ok(()), 1).unwrap();
    match limiter.fetch_fixed_window("p", "r", "s", size_secs, now_ms).unwrap().step() {
        Step::Send(pipeline) => {
            let first = pipeline.cmd_iter().next().unwrap();
            let key = first.args_iter().nth(1).unwrap();
            match key {
                redis::Arg::Simple(bytes) => String::from_utf8(bytes.to_vec()).unwrap(),
                redis::Arg::Cursor => panic!("a cursor for a key"),
            }
        }
        Step::Read(_) => panic!("a fetch reads no list"),
        Step::Done(result) => panic!("over before it began: {result:?}"),
    }
}

#[test]
fn epochs_are_times_truncated_to_the_window() {
    assert_eq!(counter_key(0, 7), "p:r:s:0");
    assert_eq!(counter_key(6_999, 7), "p:r:s:0");
    assert_eq!(counter_key(7_000, 7), "p:r:s:7");
    assert_eq!(counter_key(1_700_000_003_999, 60), "p:r:s:1699999980");
    assert_eq!(counter_key(1_700_000_003_999, 1), "p:r:s:1700000003");
    assert_eq!(counter_key(u64::MAX, MAX_WINDOW_SECS), "p:r:s:18446743858961187");
}

/// The estimate that a sliding-window fetch reports for two counters.
fn estimate(previous: u64, current: u64, now_ms: u64, size_secs: u64) -> u64 {
    let limiter = RateLimiterRedis::open(Ok(()), 1).unwrap();
    let begun = limiter.fetch_sliding_window("p", "r", "s", size_secs, now_ms).unwrap();
    let over = begun.advance(Reply::Values(vec![Some(previous as i64), Some(current as i64)]));
    match over.step() {
        Step::Done(Ok(Outcome::Count(estimate))) => estimate,
        _ => panic!("the fetch did not end in a count"),
    }
}

#[test]
fn open_refuses_a_zero_limit() {
    assert_eq!(RateLimiterRedis::open(Ok(()), 0).err(), Some(LimiterError::Configuration));
    assert_eq!(RateLimiterRedis::open(Ok(()), 7).unwrap().limit_per_sec, 7);
}

#[test]
fn open_builds_no_limiter_without_a_connection() {
    assert_eq!(
        RateLimiterRedis::open(Err(Fault::Connection), 7).err(),
        Some(LimiterError::Connection)
    );
    assert_eq!(
        RateLimiterRedis::open(Err(Fault::Connection), 0).err(),
        Some(LimiterError::Connection)
    );
    assert_eq!(RateLimiterRedis::open(Err(Fault::Command), 7).err(), Some(LimiterError::Command));
}

#[test]
fn every_operation_refuses_an_unusable_window() {
    let limiter = RateLimiterRedis::open(Ok(()), 2).unwrap();
    let zero = RateLimiterRedis { limit_per_sec: 0 };
    let bucket = TokenBucketRateLimiter { limit_per_sec: 2 };
    for (limiter, size) in
        [(&limiter, 0), (&limiter, MAX_WINDOW_SECS + 1), (&limiter, u64::MAX), (&zero, 1)]
    {
        let refused = Some(LimiterError::Configuration);
        assert_eq!(limiter.record_fixed_window("p", "r", "s", size, 5).err(), refused);
        assert_eq!(limiter.fetch_fixed_window("p", "r", "s", size, 5).err(), refused);
        assert_eq!(limiter.record_sliding_log("p", "r", "s", size, 5).err(), refused);
        assert_eq!(limiter.record_sliding_window("p", "r", "s", size, 5).err(), refused);
        assert_eq!(limiter.fetch_sliding_window("p", "r", "s", size, 5).err(), refused);
        assert_eq!(limiter.record_leaky_bucket("p", "r", "s", size, 5).err(), refused);
        assert_eq!(limiter.fetch_leaky_bucket("p", "r", "s", size, 5).err(), refused);
        assert_eq!(limiter.consume_leaky_bucket("p", "r", "s", size, 5).err(), refused);
        assert_eq!(limiter.record_token_bucket("p", "r", "s", size, 5).err(), refused);
        assert_eq!(limiter.fetch_token_bucket("p", "r", "s", size, 5).err(), refused);
        assert_eq!(limiter.can_make_request(0, size), Err(LimiterError::Configuration));
    }
    assert_eq!(bucket.record("p", "r", "s", 0, 5).err(), Some(LimiterError::Configuration));
    assert_eq!(
        bucket.fetch("p", "r", "s", MAX_WINDOW_SECS + 1, 5).err(),
        Some(LimiterError::Configuration)
    );
    // the longest window and the latest clock are accepted
    assert!(limiter.record_fixed_window("p", "r", "s", MAX_WINDOW_SECS, u64::MAX).is_ok());
    assert!(limiter.record_sliding_window("p", "r", "s", MAX_WINDOW_SECS, 0).is_ok());
    assert!(limiter.consume_leaky_bucket("p", "r", "s", MAX_WINDOW_SECS, u64::MAX).is_ok());
}

#[test]
fn can_make_request_compares_with_the_capacity() {
    let limiter = RateLimiterRedis::open(Ok(()), 3).unwrap();
    assert_eq!(limiter.can_make_request(0, 2), Ok(true));
    assert_eq!(limiter.can_make_request(5, 2), Ok(true));
    assert_eq!(limiter.can_make_request(6, 2), Ok(false));
    assert_eq!(limiter.can_make_request(u64::MAX, 2), Ok(false));
    let bucket = TokenBucketRateLimiter { limit_per_sec: 3 };
    assert!(bucket.can_make_request(1));
    assert!(!bucket.can_make_request(0));
}

#[test]
fn faults_are_told_apart_by_their_signs() {
    assert_eq!(Fault::from_signs(false, false, false, false), Fault::Command);
    assert_eq!(Fault::from_signs(true, false, false, false), Fault::Connection);
    assert_eq!(Fault::from_signs(false, true, false, false), Fault::Connection);
    assert_eq!(Fault::from_signs(false, false, true, false), Fault::Connection);
    assert_eq!(Fault::from_signs(false, false, false, true), Fault::Connection);
    assert_eq!(Fault::from_signs(true, true, true, true), Fault::Connection);
}

#[test]
fn errors_describe_themselves() {
    assert_eq!(LimiterError::from_fault(Fault::Connection), LimiterError::Connection);
    assert_eq!(LimiterError::from_fault(Fault::Command), LimiterError::Command);
    assert_eq!(LimiterError::Connection.describe(), "the store connection failed");
    assert_eq!(LimiterError::Command.describe(), "a store command failed");
    assert_eq!(LimiterError::Configuration.describe(), "the limit or window is not usable");
}

#[test]
fn outcomes_give_what_they_hold() {
    assert_eq!(Outcome::Verdict(true).verdict(), Some(true));
    assert_eq!(Outcome::Verdict(false).verdict(), Some(false));
    assert_eq!(Outcome::Verdict(true).count(), None);
    assert_eq!(Outcome::Count(3).count(), Some(3));
    assert_eq!(Outcome::Count(3).verdict(), None);
    assert_eq!(Outcome::Drained.count(), None);
    assert_eq!(Outcome::Drained.verdict(), None);
}

#[test]
fn estimate_adds_the_rounded_share() {
    // at the very start of a window the previous count weighs fully
    assert_eq!(estimate(10, 0, 20_000, 10), 10);
    assert_eq!(estimate(10, 4, 20_000, 10), 14);
    // a quarter into it, three quarters are left: round(7.5) = 8
    assert_eq!(estimate(10, 0, 22_500, 10), 8);
    // round(5 * 0.3) = round(1.5) = 2, exactly a half rounds up
    assert_eq!(estimate(5, 1, 27_000, 10), 3);
    // round(5 * 0.2999) = round(1.4995) = 1
    assert_eq!(estimate(5, 1, 27_001, 10), 2);
    // in the last millisecond: round(10 * 0.0001) = 0
    assert_eq!(estimate(10, 3, 29_999, 10), 3);
    // a one-second window: half of it left, and just less than half
    assert_eq!(estimate(1, 0, 1_500, 1), 1);
    assert_eq!(estimate(1, 0, 1_501, 1), 0);
    assert_eq!(estimate(0, 0, 1_501, 1), 0);
    // the largest counters a reply can carry, in the longest window
    let most = i64::MAX as u64;
    assert_eq!(estimate(most, most, 0, MAX_WINDOW_SECS), most + most);
    // 385 ms are left of the last second a clock can show: round(most * 0.385)
    assert_eq!(estimate(most, 0, u64::MAX, 1), 3_550_998_234_189_088_686);
}

#[test]
fn estimate_matches_floating_point_where_that_is_exact_enough() {
    for previous in [0u64, 1, 2, 3, 7, 10, 99, 1000] {
        for current in [0u64, 1, 5] {
            for offset in [0u64, 1, 250, 499, 500, 501, 750, 999, 1000, 1500, 2999] {
                let now = 9_000 + offset;
                let size = 3u64;
                let window_start = (now / 1000 / size) * size;
                let next = (window_start + size) * 1000;
                let weight = (next - now) as f64 / (size * 1000) as f64;
                let product = previous as f64 * weight;
                // skip the ties, where the rounding of the quotient decides
                if (product.fract() - 0.5).abs() < 1e-9 {
                    continue;
                }
                let expected = current + product.round() as u64;
                assert_eq!(estimate(previous, current, now, size), expected);
            }
        }
    }
}
