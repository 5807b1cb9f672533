use rate_limiter::fixed_window::FixedWindowLimiter;
use rate_limiter::leaking_bucket::LeakyBucketRateLimiter;
use rate_limiter::leaky_bucket::LeakyBucketLimiter;
use rate_limiter::sliding_window::SlidingWindowLimiter;
use rate_limiter::token_bucket::TokenBucketLimiter;
use rate_limiter::traits::IRateLimiter;

// Fixed window with the default configuration (limit 10 per 10 s window):
// ten requests at t=0 are admitted, the eleventh at t=1 is rejected, and a
// request in the next window at t=11 is admitted again.
#[test]
fn fixed_window_scenario() {
    let ip = String::from("a");
    let mut limiter = FixedWindowLimiter::new();
    for _ in 0..10 {
        assert!(limiter.validate_at(&ip, 0));
    }
    assert!(!limiter.validate_at(&ip, 1));
    assert!(limiter.validate_at(&ip, 11));
}

// The admitted count within one window never passes the limit, whatever mix
// of call times inside the window is used.
#[test]
fn fixed_window_bound_within_window() {
    let ip = String::from("a");
    let mut limiter = FixedWindowLimiter::with_config(3, 100);
    let mut admitted = 0;
    for t in [50u64, 50, 60, 70, 80, 99, 99] {
        if limiter.validate_at(&ip, t) {
            admitted += 1;
        }
    }
    assert_eq!(admitted, 3);
}

// Linearized concurrency: when exactly the limit remains and more callers
// race for it, exactly the limit is admitted and the rest rejected.
#[test]
fn exact_remaining_admissions() {
    let ip = String::from("a");
    let mut limiter = FixedWindowLimiter::with_config(5, 10);
    let mut results = Vec::new();
    for _ in 0..8 {
        results.push(limiter.validate_at(&ip, 0));
    }
    let admitted = results.iter().filter(|r| **r).count();
    assert_eq!(admitted, 5);
    assert_eq!(results[..5], [true, true, true, true, true]);
    assert_eq!(results[5..], [false, false, false]);
}

// Per-key isolation: exhausting client a's budget leaves client b's record
// untouched, and b's first request is still admitted.
#[test]
fn per_key_isolation() {
    let a = String::from("a");
    let b = String::from("b");
    let mut limiter = FixedWindowLimiter::with_config(1, 10);
    assert!(limiter.validate_at(&b, 0));
    let b_status_before = limiter.limiter_status(&b);
    assert!(limiter.validate_at(&a, 0));
    assert!(!limiter.validate_at(&a, 0));
    assert!(!limiter.validate_at(&a, 1));
    let b_status_after = limiter.limiter_status(&b);
    assert_eq!(b_status_before, b_status_after);
}

// Idempotent status: repeated reads without an intervening validate return
// identical text, and the text is an exact function of the recorded state.
#[test]
fn status_idempotent() {
    let ip = String::from("a");
    let mut limiter = FixedWindowLimiter::new();
    assert!(limiter.validate_at(&ip, 0));
    assert!(limiter.validate_at(&ip, 0));
    let first = limiter.limiter_status(&ip);
    let second = limiter.limiter_status(&ip);
    assert_eq!(first, second);
    assert_eq!(first, "ip: a,requests: 2");
}

// The decimal rendering inside status lines is exact for multi-digit
// values.
#[test]
fn status_multi_digit() {
    let ip = String::from("a");
    let mut limiter = FixedWindowLimiter::with_config(1000, 10);
    for _ in 0..12 {
        assert!(limiter.validate_at(&ip, 0));
    }
    assert_eq!(limiter.limiter_status(&ip), "ip: a,requests: 12");
}

// The empty key is accepted and scopes its own record, acting as the
// reserved anonymous client.
#[test]
fn empty_key_is_its_own_client() {
    let anon = String::from("");
    let named = String::from("a");
    let mut limiter = FixedWindowLimiter::with_config(1, 10);
    assert!(limiter.validate_at(&anon, 0));
    assert!(!limiter.validate_at(&anon, 0));
    assert!(limiter.validate_at(&named, 0));
}

// The clock-reading entry point: a fresh client's first request is always
// admitted, whatever the wall-clock reading was.
#[test]
fn validate_reads_clock() {
    let ip = String::from("a");
    let mut limiter = FixedWindowLimiter::new();
    assert!(limiter.validate(&ip));
}

// Monotonic window alignment, observed through the sliding-window status: a
// record created at t=3 rolled at t=27 lands on window start 23, still
// congruent to 3 modulo the window length 10.
#[test]
fn window_alignment_keeps_grid() {
    let ip = String::from("a");
    let mut limiter = SlidingWindowLimiter::new();
    assert!(limiter.validate_at(&ip, 3));
    assert!(limiter.validate_at(&ip, 27));
    let status = limiter.limiter_status(&ip);
    assert_eq!(status, "ip: a, Requests: 1, Last Requests: 0, Window Start Time: 23");
}

// Sliding window smoothing: a burst of the full limit at t is admitted, and
// a second burst half a window later is rejected before any of it is
// admitted.
#[test]
fn sliding_window_smoothing() {
    let ip = String::from("a");
    let mut limiter = SlidingWindowLimiter::new();
    for _ in 0..10 {
        assert!(limiter.validate_at(&ip, 100));
    }
    for _ in 0..10 {
        assert!(!limiter.validate_at(&ip, 105));
    }
}

// After the window rolls, the previous window's weight decays: at t=115 the
// estimate is 10 * 5/10 = 5, so requests are admitted again.
#[test]
fn sliding_window_decay() {
    let ip = String::from("a");
    let mut limiter = SlidingWindowLimiter::new();
    for _ in 0..10 {
        assert!(limiter.validate_at(&ip, 100));
    }
    assert!(limiter.validate_at(&ip, 115));
}

// More than one idle window clears the previous count entirely.
#[test]
fn sliding_window_long_idle_clears() {
    let ip = String::from("a");
    let mut limiter = SlidingWindowLimiter::new();
    for _ in 0..10 {
        assert!(limiter.validate_at(&ip, 100));
    }
    for _ in 0..10 {
        assert!(limiter.validate_at(&ip, 120));
    }
}

// Token bucket with the default configuration (capacity 10, refill interval
// 10 s, 2 tokens per refill), starting full: ten requests at t=0 are
// admitted, the eleventh is rejected; after 10 s exactly two more are
// admitted before the third fails.
#[test]
fn token_bucket_scenario() {
    let ip = String::from("a");
    let mut limiter = TokenBucketLimiter::new();
    for _ in 0..10 {
        assert!(limiter.validate_at(&ip, 0));
    }
    assert!(!limiter.validate_at(&ip, 0));
    assert!(limiter.validate_at(&ip, 10));
    assert!(limiter.validate_at(&ip, 10));
    assert!(!limiter.validate_at(&ip, 10));
}

// Token bucket capping: however long the idle time, the bucket refills only
// up to its capacity.
#[test]
fn token_bucket_capping() {
    let ip = String::from("a");
    let mut limiter = TokenBucketLimiter::new();
    for _ in 0..10 {
        assert!(limiter.validate_at(&ip, 0));
    }
    let mut admitted = 0;
    for _ in 0..20 {
        if limiter.validate_at(&ip, 1_000_000) {
            admitted += 1;
        }
    }
    assert_eq!(admitted, 10);
    assert_eq!(limiter.limiter_status(&ip), "ip: a, Tokens: 0");
}

// The refill carries partial intervals: 15 s elapsed is one whole interval
// (2 tokens), and the leftover 5 s is not lost — 5 more seconds complete
// the next interval.
#[test]
fn token_bucket_carries_remainder() {
    let ip = String::from("a");
    let mut limiter = TokenBucketLimiter::new();
    for _ in 0..10 {
        assert!(limiter.validate_at(&ip, 0));
    }
    assert!(limiter.validate_at(&ip, 15));
    assert!(limiter.validate_at(&ip, 15));
    assert!(!limiter.validate_at(&ip, 15));
    assert!(limiter.validate_at(&ip, 20));
    assert!(limiter.validate_at(&ip, 20));
    assert!(!limiter.validate_at(&ip, 20));
}

// Token bucket status is an exact function of the recorded state.
#[test]
fn token_bucket_status() {
    let ip = String::from("a");
    let mut limiter = TokenBucketLimiter::new();
    assert!(limiter.validate_at(&ip, 0));
    assert_eq!(limiter.limiter_status(&ip), "ip: a, Tokens: 9");
    let again = limiter.limiter_status(&ip);
    assert_eq!(again, "ip: a, Tokens: 9");
}

// The per-client leaky bucket starts with two units immediately available:
// two requests are admitted at once, the third is rejected until the bucket
// drains.
#[test]
fn leaky_bucket_initial_units() {
    let ip = String::from("a");
    let mut limiter = LeakyBucketLimiter::new();
    assert!(limiter.validate(&ip));
    assert!(limiter.validate(&ip));
    assert!(!limiter.validate(&ip));
    let status = limiter.limiter_status(&ip);
    assert_eq!(status, "ip: a, balance: 0");
}

// Leaky-bucket clients are isolated: exhausting one client's bucket leaves
// another client's bucket full.
#[test]
fn leaky_bucket_isolation() {
    let a = String::from("a");
    let b = String::from("b");
    let mut limiter = LeakyBucketLimiter::new();
    assert!(limiter.validate(&a));
    assert!(limiter.validate(&a));
    assert!(!limiter.validate(&a));
    assert!(limiter.validate(&b));
    assert!(limiter.validate(&b));
    assert!(!limiter.validate(&b));
}

// The global single-bucket variant shares its two initial units across all
// requests and reports its balance.
#[test]
fn global_leaky_bucket() {
    let limiter = LeakyBucketRateLimiter::new();
    assert!(limiter.validate());
    assert!(limiter.validate());
    assert!(!limiter.validate());
    assert_eq!(limiter.limiter_status(), "Requests: 0");
}

// The weighted estimate itself, mid-window after a rollover: one request in
// the current window plus ten in the previous window weighted by the five
// unexpired seconds of a ten-second window gives 1 + 10 * 5 / 10 = 6.
#[test]
fn sliding_window_estimate_value() {
    let ip = String::from("a");
    let mut limiter = SlidingWindowLimiter::new();
    for _ in 0..10 {
        assert!(limiter.validate_at(&ip, 100));
    }
    assert!(limiter.validate_at(&ip, 115));
    assert_eq!(limiter.calculate_requests_in_sliding_window(&ip, 115), 6);
}

// Decimal rendering is exact across digit-count boundaries.
#[test]
fn decimal_rendering() {
    assert_eq!(rate_limiter::text::u64_to_string(0), "0");
    assert_eq!(rate_limiter::text::u64_to_string(9), "9");
    assert_eq!(rate_limiter::text::u64_to_string(10), "10");
    assert_eq!(rate_limiter::text::u64_to_string(12345), "12345");
    assert_eq!(
        rate_limiter::text::u64_to_string(u64::MAX),
        "18446744073709551615"
    );
}

// The clock source hands back a plausible wall-clock reading in seconds.
#[test]
fn clock_reads_seconds() {
    let t = rate_limiter::time_utils::get_current_time();
    assert!(t > 1_000_000_000);
}
