use icutil::rate_limiter::RateLimiter;
use icutil::reading::VolumeError;

#[test]
fn fixed_window_boundary() {
    // Three admitted calls inside a 60-tick window, the fourth rejected,
    // and a fresh call admitted once the window has passed.
    let mut limiter = RateLimiter::new(60, 3);
    let caller = 7u64;
    assert!(limiter.check_rate_limit(caller, 0).is_ok());
    assert!(limiter.check_rate_limit(caller, 10).is_ok());
    assert!(limiter.check_rate_limit(caller, 20).is_ok());
    let r = limiter.check_rate_limit(caller, 30);
    assert!(matches!(r, Err(VolumeError::RateLimit(_))));
    assert!(limiter.check_rate_limit(caller, 61).is_ok());
}

#[test]
fn rejection_carries_wait_hint() {
    let mut limiter = RateLimiter::new(60, 1);
    let caller = 1u64;
    assert!(limiter.check_rate_limit(caller, 100).is_ok());
    match limiter.check_rate_limit(caller, 130) {
        Err(VolumeError::RateLimit(wait)) => assert_eq!(wait, 30),
        other => panic!("expected a rate limit rejection, got {:?}", other),
    }
}

#[test]
fn callers_are_limited_independently() {
    let mut limiter = RateLimiter::new(60, 2);
    assert!(limiter.check_rate_limit(1, 0).is_ok());
    assert!(limiter.check_rate_limit(1, 1).is_ok());
    assert!(matches!(
        limiter.check_rate_limit(1, 2),
        Err(VolumeError::RateLimit(_))
    ));
    assert!(limiter.check_rate_limit(2, 2).is_ok());
    assert!(limiter.check_rate_limit(2, 3).is_ok());
}

#[test]
fn rejection_does_not_extend_the_window() {
    let mut limiter = RateLimiter::new(60, 1);
    let caller = 5u64;
    assert!(limiter.check_rate_limit(caller, 0).is_ok());
    for t in 1..5u64 {
        assert!(matches!(
            limiter.check_rate_limit(caller, t),
            Err(VolumeError::RateLimit(_))
        ));
    }
    assert!(limiter.check_rate_limit(caller, 61).is_ok());
}
