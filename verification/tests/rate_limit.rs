use bnu_core::rate_limit::{backoff_for, is_fatal_http, Acquire, RateLimiter, BACKOFF_OTHER_SECS};

#[test]
fn fatal_classification() {
    assert!(is_fatal_http("语音转写返回 400: bad audio"));
    assert!(is_fatal_http("对话模型返回 403: forbidden"));
    assert!(!is_fatal_http("语音转写返回 429: too many requests"));
    assert!(!is_fatal_http("语音转写返回 500: boom"));
    assert!(!is_fatal_http("请求失败: connection reset"));
}

#[test]
fn backoff_scales_with_attempt() {
    assert_eq!(backoff_for("语音转写返回 429: too many requests", 1), 15);
    assert_eq!(backoff_for("语音转写返回 429: too many requests", 3), 45);
    assert_eq!(backoff_for("请求失败: connection reset", 2), 4);
    assert_eq!(backoff_for("boom", 0), BACKOFF_OTHER_SECS);
}

#[test]
fn rate_limiter_allows_within_window_then_waits() {
    let mut limiter = RateLimiter::new(2, 300);
    assert_eq!(limiter.acquire_at(1_000), Acquire::Granted);
    assert_eq!(limiter.acquire_at(1_010), Acquire::Granted);
    assert_eq!(limiter.acquire_at(1_020), Acquire::Wait(280));
    assert_eq!(limiter.acquire_at(1_300), Acquire::Granted);
    assert_eq!(limiter.acquire_at(1_305), Acquire::Wait(5));
    assert_eq!(limiter.acquire_at(1_310), Acquire::Granted);
}

#[test]
fn zero_limit_still_grants_one() {
    let mut limiter = RateLimiter::new(0, 1000);
    assert_eq!(limiter.acquire_at(0), Acquire::Granted);
    assert_eq!(limiter.acquire_at(0), Acquire::Wait(1000));
    let mut zero_window = RateLimiter::new(1, 0);
    assert_eq!(zero_window.acquire_at(5), Acquire::Granted);
    assert_eq!(zero_window.acquire_at(5), Acquire::Granted);
}

#[test]
fn no_window_holds_more_grants_than_the_limit() {
    let mut l = bnu_core::rate_limit::RateLimiter::new(3, 1000);
    let mut granted: Vec<u64> = Vec::new();
    let mut t = 0u64;
    for step in 0..200u64 {
        if l.acquire_at(t) == bnu_core::rate_limit::Acquire::Granted {
            granted.push(t);
        }
        t += 37 + (step % 5) * 11;
    }
    assert_eq!(&granted[..3], &[0, 37, 85]);
    for &end in &granted {
        let n = granted.iter().filter(|&&g| g <= end && end - g < 1000).count();
        assert!(n <= 3);
    }
}
