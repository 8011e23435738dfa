//! The texts of keys and numbers.

use rrr::error::LimiterError;
use rrr::keys::{
    can_name, holds_colon, last_set_time_key, previous_window_key, remaining_key, subject_key,
    window_key,
};
use rrr::rate_limiter_redis::RateLimiterRedis;
use rrr::rate_limiter_redis_trait::RateLimiterRedisTrait;
use rrr::token_bucket_rate_limiter_redis::TokenBucketRateLimiter;
use rrr::text::decimal_string;

#[test]
fn numbers_are_written_in_base_ten() {
    assert_eq!(decimal_string(0), "0");
    assert_eq!(decimal_string(7), "7");
    assert_eq!(decimal_string(9), "9");
    assert_eq!(decimal_string(10), "10");
    assert_eq!(decimal_string(1_234_567_890), "1234567890");
    assert_eq!(decimal_string(1_000_000), "1000000");
    assert_eq!(decimal_string(u64::MAX), "18446744073709551615");
    for n in [11u64, 99, 100, 101, 4_294_967_295, 4_294_967_296, 9_007_199_254_740_993] {
        assert_eq!(decimal_string(n), n.to_string());
    }
}

#[test]
fn keys_join_their_parts_with_colons() {
    assert_eq!(subject_key("test", "data", "andy").unwrap(), "test:data:andy");
    assert_eq!(subject_key("", "", "").unwrap(), "::");
    assert_eq!(window_key("test", "data", "andy", 0).unwrap(), "test:data:andy:0");
    assert_eq!(
        window_key("test", "data", "andy", 1_700_000_000).unwrap(),
        "test:data:andy:1700000000"
    );
    assert_eq!(
        last_set_time_key("test", "data", "andy").unwrap(),
        "test:data:andy:last_set_time"
    );
    assert_eq!(remaining_key("test", "data", "andy").unwrap(), "test:data:andy:remain_requests");
}

#[test]
fn the_previous_window_may_lie_before_zero() {
    assert_eq!(previous_window_key("t", "d", "a", 120, 60).unwrap(), "t:d:a:60");
    assert_eq!(previous_window_key("t", "d", "a", 60, 60).unwrap(), "t:d:a:0");
    assert_eq!(previous_window_key("t", "d", "a", 0, 60).unwrap(), "t:d:a:-60");
    assert_eq!(previous_window_key("t", "d", "a", 0, 1).unwrap(), "t:d:a:-1");
    assert_eq!(
        previous_window_key("t", "d", "a", 0, u64::MAX).unwrap(),
        "t:d:a:-18446744073709551615"
    );
}

#[test]
fn a_part_that_holds_the_separator_is_refused() {
    assert!(holds_colon(":"));
    assert!(holds_colon("a:b"));
    assert!(holds_colon("名:前"));
    assert!(!holds_colon(""));
    assert!(!holds_colon("名前;a.b"));
    assert!(can_name("a", "b", "c"));
    let refused = Err(LimiterError::Configuration);
    // "a:b", "c", "d" and "a", "b:c", "d" would make one key
    assert_eq!(subject_key("a:b", "c", "d"), refused);
    assert_eq!(subject_key("a", "b:c", "d"), refused);
    assert_eq!(subject_key("a", "b", "c:d"), refused);
    assert_eq!(window_key("a", "b", "c:7", 7), refused);
    assert_eq!(previous_window_key("a:", "b", "c", 7, 1), refused);
    assert_eq!(previous_window_key(":a", "b", "c", 0, 1), refused);
    assert_eq!(last_set_time_key("a", ":", "c"), refused);
    assert_eq!(remaining_key("a", "b", "c:last_set_time"), refused);
    let limiter = RateLimiterRedis::open(Ok(()), 1).unwrap();
    let bucket = TokenBucketRateLimiter { limit_per_sec: 1 };
    let refused = Some(LimiterError::Configuration);
    for (prefix, resource, subject) in [("a:b", "c", "d"), ("a", "b:c", "d"), ("a", "b", "c:d")] {
        assert_eq!(limiter.record_fixed_window(prefix, resource, subject, 1, 5).err(), refused);
        assert_eq!(limiter.fetch_fixed_window(prefix, resource, subject, 1, 5).err(), refused);
        assert_eq!(limiter.record_sliding_log(prefix, resource, subject, 1, 5).err(), refused);
        assert_eq!(limiter.fetch_sliding_log(prefix, resource, subject, 5).err(), refused);
        assert_eq!(limiter.record_sliding_window(prefix, resource, subject, 1, 5).err(), refused);
        assert_eq!(limiter.fetch_sliding_window(prefix, resource, subject, 1, 5).err(), refused);
        assert_eq!(limiter.record_leaky_bucket(prefix, resource, subject, 1, 5).err(), refused);
        assert_eq!(limiter.fetch_leaky_bucket(prefix, resource, subject, 1, 5).err(), refused);
        assert_eq!(limiter.consume_leaky_bucket(prefix, resource, subject, 1, 5).err(), refused);
        assert_eq!(limiter.record_token_bucket(prefix, resource, subject, 1, 5).err(), refused);
        assert_eq!(limiter.fetch_token_bucket(prefix, resource, subject, 1, 5).err(), refused);
        assert_eq!(bucket.record(prefix, resource, subject, 1, 5).err(), refused);
        assert_eq!(bucket.fetch(prefix, resource, subject, 1, 5).err(), refused);
    }
}

#[test]
fn different_windows_and_subjects_have_different_keys() {
    let keys = [
        window_key("p", "r", "s", 1).unwrap(),
        window_key("p", "r", "s", 10).unwrap(),
        window_key("p", "r", "s", 11).unwrap(),
        window_key("p", "r", "t", 1).unwrap(),
        window_key("p", "q", "s", 1).unwrap(),
        window_key("o", "r", "s", 1).unwrap(),
        previous_window_key("p", "r", "s", 0, 1).unwrap(),
        subject_key("p", "r", "s").unwrap(),
        last_set_time_key("p", "r", "s").unwrap(),
        remaining_key("p", "r", "s").unwrap(),
    ];
    for (i, a) in keys.iter().enumerate() {
        for (j, b) in keys.iter().enumerate() {
            assert_eq!(a == b, i == j);
        }
    }
}
