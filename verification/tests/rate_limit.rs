use xbridge::rate_limit::RateLimiter;

#[test]
fn rate_limiter_allows_within_limit() {
    let mut limiter = RateLimiter::new(100, 0);
    for _ in 0..100 {
        assert!(limiter.try_acquire(0));
    }
}

#[test]
fn rate_limiter_rejects_over_burst() {
    let mut limiter = RateLimiter::new(10, 0);
    // Burst is 2x rate = 20 tokens
    for _ in 0..20 {
        assert!(limiter.try_acquire(0));
    }
    assert!(!limiter.try_acquire(0));
}

#[test]
fn tokens_come_back_at_the_rate() {
    let mut limiter = RateLimiter::new(10, 1_000);
    for _ in 0..20 {
        assert!(limiter.try_acquire(1_000));
    }
    assert!(!limiter.try_acquire(100_000_999));
    assert!(limiter.try_acquire(100_001_000));
    assert!(!limiter.try_acquire(100_001_000));
}

#[test]
fn tokens_stop_at_the_burst() {
    let mut limiter = RateLimiter::new(3, 0);
    let later = 3_600_000_000_000;
    let mut passed = 0;
    while limiter.try_acquire(later) {
        passed += 1;
    }
    assert_eq!(passed, 6);
}

#[test]
fn rate_of_zero_lets_nothing_through() {
    let mut limiter = RateLimiter::new(0, 0);
    assert!(!limiter.try_acquire(u64::MAX));
}

#[test]
fn no_more_pass_than_burst_and_rate_allow() {
    let mut limiter = RateLimiter::new(5, 0);
    let mut passed = 0u64;
    let mut now = 0;
    for step in 0..10_000u64 {
        now += step * 37 % 11_000_000;
        if limiter.try_acquire(now) {
            passed += 1;
        }
    }
    assert!(passed * 1_000_000_000 <= 10_000_000_000 + now * 5);
}

#[test]
fn time_that_runs_backwards_gives_nothing() {
    let mut limiter = RateLimiter::new(1, 5_000_000_000);
    assert!(limiter.try_acquire(5_000_000_000));
    assert!(limiter.try_acquire(5_000_000_000));
    assert!(!limiter.try_acquire(0));
}
