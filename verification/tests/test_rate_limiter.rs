use flood::rate_limiter::{acquire_wait, RateLimiter};

#[test]
fn test_throttle_reduces_rate() {
    let mut limiter = RateLimiter::new(1000);
    limiter.throttle();
    assert!(limiter.effective_rate() <= 500);
}

#[test]
fn test_unthrottle_restores_rate() {
    let mut limiter = RateLimiter::new(1000);
    limiter.throttle();
    assert!(limiter.effective_rate() <= 500);
    limiter.unthrottle();
    assert!(limiter.effective_rate() > 500);
}

#[test]
fn test_throttle_minimum_rate() {
    let mut limiter = RateLimiter::new(10);
    for _ in 0..20 {
        limiter.throttle();
    }
    assert!(limiter.effective_rate() >= 1);
}

#[test]
fn throttle_and_unthrottle_exact_values() {
    let mut limiter = RateLimiter::new(1000);
    limiter.throttle();
    assert_eq!(limiter.effective_rate(), 500);
    assert!(limiter.is_throttled());
    limiter.unthrottle();
    assert_eq!(limiter.effective_rate(), 625);
    for _ in 0..10 {
        limiter.unthrottle();
    }
    assert_eq!(limiter.effective_rate(), 1000);
    assert!(!limiter.is_throttled());
    assert_eq!(limiter.base_rate(), 1000);
}

#[test]
fn unthrottle_adds_one_when_a_quarter_is_nothing() {
    let mut limiter = RateLimiter::new(10);
    for _ in 0..5 {
        limiter.throttle();
    }
    assert_eq!(limiter.effective_rate(), 1);
    limiter.unthrottle();
    assert_eq!(limiter.effective_rate(), 2);
    limiter.unthrottle();
    assert_eq!(limiter.effective_rate(), 3);
}

#[test]
fn unlimited_rate_is_never_throttled() {
    let mut limiter = RateLimiter::new(0);
    assert!(!limiter.is_throttled());
    limiter.throttle();
    assert_eq!(limiter.effective_rate(), 1);
    assert!(!limiter.is_throttled());
    limiter.unthrottle();
    assert_eq!(limiter.effective_rate(), 0);
}

#[test]
fn unthrottle_matches_float_formula_near_the_top() {
    let mut limiter = RateLimiter::new(u32::MAX);
    limiter.throttle();
    let current = limiter.effective_rate();
    limiter.unthrottle();
    let expected = ((current as f64 * 1.25) as u32).min(u32::MAX);
    assert_eq!(limiter.effective_rate(), expected);
    assert_eq!(limiter.effective_rate(), 2684354558);
}

#[test]
fn pacing_decisions() {
    assert_eq!(acquire_wait(0, 10, 0), None);
    assert_eq!(acquire_wait(100, 10_000_000, 4_000_000), Some(6_000_000));
    assert_eq!(acquire_wait(100, 10_000_000, 12_000_000), Some(0));
}

#[test]
fn repeated_unthrottles_restore_the_configured_rate() {
    for base in [1u32, 2, 7, 50, 1000] {
        let mut limiter = RateLimiter::new(base);
        for _ in 0..40 {
            limiter.throttle();
        }
        let short = base - limiter.effective_rate();
        for _ in 0..short {
            limiter.unthrottle();
        }
        assert_eq!(limiter.effective_rate(), base);
    }
}

#[test]
fn pacing_at_a_rate_spaces_requests_by_its_interval() {
    let interval = 1_000_000_000u64 / 100;
    let mut clock = 0u64;
    let mut last = 0u64;
    let mut sent = Vec::new();
    for _ in 0..10 {
        let wait = acquire_wait(100, interval, clock - last).unwrap();
        clock += wait;
        sent.push(clock);
        last = clock;
    }
    for pair in sent.windows(2) {
        assert!(pair[1] - pair[0] >= interval);
    }
}
