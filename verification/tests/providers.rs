use std::time::Duration;
use zeroclaw::providers::cache_tracker::CacheTracker;
use zeroclaw::providers::rate_limiter::ProviderRateLimiter;

// ---- rate_limiter

#[test]
fn allows_requests_under_limit() {
    let mut limiter = ProviderRateLimiter::new(5, Duration::from_secs(60));
    for _ in 0..5 {
        assert!(limiter.check().is_ok());
    }
}

#[test]
fn blocks_over_limit() {
    let mut limiter = ProviderRateLimiter::new(3, Duration::from_secs(60));
    assert!(limiter.check().is_ok());
    assert!(limiter.check().is_ok());
    assert!(limiter.check().is_ok());
    assert!(limiter.check().is_err());
}

#[test]
fn backoff_on_429() {
    let mut limiter = ProviderRateLimiter::new(100, Duration::from_secs(60));
    limiter.check().unwrap();
    limiter.record_rate_limited();
    // Should be in backoff
    assert!(limiter.check().is_err());
    assert!(limiter.stats().is_backing_off);
}

#[test]
fn backoff_doubles() {
    let mut limiter = ProviderRateLimiter::new(100, Duration::from_secs(60));
    limiter.record_rate_limited();
    assert_eq!(limiter.stats().backoff_multiplier, 2);
    limiter.record_rate_limited();
    assert_eq!(limiter.stats().backoff_multiplier, 4);
}

#[test]
fn success_resets_backoff_multiplier() {
    let mut limiter = ProviderRateLimiter::new(100, Duration::from_secs(60));
    limiter.record_rate_limited();
    limiter.record_rate_limited();
    assert_eq!(limiter.stats().backoff_multiplier, 4);
    limiter.record_success();
    assert_eq!(limiter.stats().backoff_multiplier, 1);
}

#[test]
fn backoff_caps_at_32x() {
    let mut limiter = ProviderRateLimiter::new(100, Duration::from_secs(60));
    for _ in 0..10 {
        limiter.record_rate_limited();
    }
    assert_eq!(limiter.stats().backoff_multiplier, 32);
}

#[test]
fn requests_leave_the_window() {
    let mut limiter = ProviderRateLimiter::new(2, Duration::from_secs(60));
    let second: u128 = 1_000_000_000;
    assert!(limiter.check_at(0).is_ok());
    assert!(limiter.check_at(10 * second).is_ok());
    assert_eq!(limiter.check_at(20 * second), Err(40 * second));
    assert!(limiter.check_at(61 * second).is_ok());
    assert_eq!(limiter.stats_at(61 * second).active_requests, 2);
}

#[test]
fn backoff_ends_after_its_time() {
    let mut limiter = ProviderRateLimiter::new(2, Duration::from_secs(60));
    let second: u128 = 1_000_000_000;
    limiter.record_rate_limited_at(0);
    assert_eq!(limiter.check_at(second), Err(4 * second));
    assert!(limiter.stats_at(second).is_backing_off);
    assert!(limiter.check_at(5 * second).is_ok());
}

#[test]
fn a_limiter_that_allows_nothing_refuses_for_a_window() {
    let mut limiter = ProviderRateLimiter::new(0, Duration::from_secs(60));
    assert_eq!(limiter.check(), Err(Duration::from_secs(60)));
    assert_eq!(limiter.check_at(7), Err(60_000_000_000));
    assert_eq!(limiter.stats().active_requests, 0);
}

#[test]
fn a_check_goes_by_the_whole_history() {
    let mut limiter = ProviderRateLimiter::new(2, Duration::from_secs(60));
    let second: u128 = 1_000_000_000;
    assert!(limiter.check_at(0).is_ok());
    limiter.record_rate_limited_at(second); // until 6
    assert_eq!(limiter.check_at(2 * second), Err(4 * second));
    limiter.record_rate_limited_at(3 * second); // until 13
    assert_eq!(limiter.check_at(6 * second), Err(7 * second));
    limiter.record_success();
    assert_eq!(limiter.check_at(7 * second), Err(6 * second));
    limiter.record_rate_limited_at(8 * second); // until 13 again, with the first multiplier
    assert_eq!(limiter.check_at(12 * second), Err(second));
    assert!(limiter.check_at(13 * second).is_ok());
    // The checks at 0 and 13 were allowed; the refused ones are not counted.
    assert_eq!(limiter.check_at(20 * second), Err(40 * second));
    assert_eq!(limiter.check_at(59 * second), Err(second));
    assert!(limiter.check_at(60 * second).is_ok());
    assert_eq!(limiter.check_at(60 * second), Err(13 * second));
}

// ---- cache_tracker

#[test]
fn first_call_no_break() {
    let mut tracker = CacheTracker::new();
    let result = tracker.record(1000, 800, 200);
    assert!(!result.is_cache_break);
}

#[test]
fn stable_cache_no_break() {
    let mut tracker = CacheTracker::new();
    tracker.record(1000, 800, 200);
    let result = tracker.record(1000, 790, 210);
    assert!(!result.is_cache_break);
    assert_eq!(result.consecutive_hits, 1);
}

#[test]
fn large_drop_triggers_break() {
    let mut tracker = CacheTracker::new();
    tracker.record(10000, 8000, 2000);
    let result = tracker.record(10000, 100, 9900);
    assert!(result.is_cache_break);
    assert_eq!(result.total_breaks, 1);
}

#[test]
fn absolute_drop_triggers_break() {
    let mut tracker = CacheTracker::new();
    tracker.record(5000, 4000, 1000);
    let result = tracker.record(5000, 1500, 3500);
    assert!(result.is_cache_break);
}

#[test]
fn reset_clears_baseline() {
    let mut tracker = CacheTracker::new();
    tracker.record(1000, 800, 200);
    tracker.reset();
    let result = tracker.record(1000, 100, 900);
    assert!(!result.is_cache_break); // no baseline after reset
}

#[test]
fn hit_rate_calculation() {
    let mut tracker = CacheTracker::new();
    tracker.record(1000, 800, 200); // baseline
    tracker.record(1000, 790, 210); // hit
    tracker.record(1000, 100, 900); // break
    tracker.record(1000, 780, 220); // hit
    // 2 hits, 1 break out of 3 comparisons = 66.67%
    let counts = tracker.hit_rate();
    let rate = 100.0 * counts.hits as f64 / counts.comparisons as f64;
    assert!((rate - 66.67).abs() < 1.0);
}

#[test]
fn a_reset_keeps_the_counts_of_the_session() {
    let mut tracker = CacheTracker::new();
    tracker.record(1000, 800, 200);
    tracker.record(1000, 790, 210);
    assert_eq!(tracker.record(1000, 100, 900).total_breaks, 1);
    let rate = tracker.hit_rate();
    assert_eq!((rate.hits, rate.comparisons), (1, 2));
    tracker.reset();
    assert_eq!(tracker.hit_rate(), rate);
    let next = tracker.record(1000, 0, 1000);
    assert!(!next.is_cache_break);
    assert_eq!((next.consecutive_hits, next.total_breaks), (0, 1));
}

#[test]
fn breaks_begin_above_the_two_limits() {
    let mut tracker = CacheTracker::new();
    tracker.record(0, 100_000, 0);
    assert!(!tracker.record(0, 98_000, 0).is_cache_break); // 2000 less
    assert!(tracker.record(0, 95_999, 0).is_cache_break); // 2001 less
    tracker.reset();
    tracker.record(0, 1000, 0);
    assert!(!tracker.record(0, 950, 0).is_cache_break); // exactly 5%
    assert!(tracker.record(0, 902, 0).is_cache_break); // more than 5%
}
