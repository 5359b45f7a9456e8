use tunnel_control::bandwidth::{AgentLimiter, BandwidthLimiter, Bucket, Grant};

/// Passes the bytes at the simulated time and says when they passed.
fn pace(mut draw: impl FnMut(u64) -> Grant, mut now: u64) -> u64 {
    loop {
        match draw(now) {
            Grant::Pass => return now,
            Grant::Wait(ns) => {
                assert!(ns <= 500_000_000);
                now += ns.max(1);
            }
        }
    }
}

#[test]
fn bandwidth_limiter_caps_throughput() {
    let mut limiter = BandwidthLimiter::new(1);
    let device: u128 = 7;
    let mut now: u64 = 0;
    let mut sent = 0usize;
    while sent < 500_000 {
        now = pace(|at| limiter.acquire(device, 1_250, at), now);
        sent += 1_250;
    }
    let elapsed = now as f64 / 1e9;
    assert!(elapsed >= 2.5 && elapsed < 6.0, "elapsed {elapsed}");
}

#[test]
fn bandwidth_limiter_disabled_passes_through() {
    let mut limiter = BandwidthLimiter::new(1);
    limiter.set_mbps(0);
    for _ in 0..100 {
        assert_eq!(limiter.acquire(7, 64 * 1024, 0), Grant::Pass);
    }
    assert_eq!(limiter.current_mbps(), 0);
}

#[test]
fn bandwidth_limiter_per_device_buckets_do_not_share_tokens() {
    let mut limiter = BandwidthLimiter::new(1);
    assert_eq!(limiter.acquire(1, 125_000, 0), Grant::Pass);
    assert_eq!(limiter.acquire(2, 125_000, 0), Grant::Pass);
    assert!(matches!(limiter.acquire(1, 1, 0), Grant::Wait(_)));
}

#[test]
fn agent_limiter_paces_outbound_at_cap() {
    let mut limiter = AgentLimiter::new(1, 0);
    let mut now: u64 = 0;
    let mut sent = 0usize;
    while sent < 500_000 {
        now = pace(|at| limiter.acquire(1_250, at), now);
        sent += 1_250;
    }
    let elapsed = now as f64 / 1e9;
    assert!(elapsed >= 2.5 && elapsed < 6.0, "elapsed {elapsed}");
}

#[test]
fn agent_limiter_disabled_passes_through() {
    let mut limiter = AgentLimiter::new(0, 0);
    for _ in 0..100 {
        assert_eq!(limiter.acquire(64 * 1024, 0), Grant::Pass);
    }
}

#[test]
fn missing_tokens_set_the_wait() {
    let mut bucket = Bucket::full(8, 0);
    assert_eq!(bucket.draw(8, 1_000_000, 0), Grant::Pass);
    // One megabyte per second: 1000 bytes take a millisecond.
    assert_eq!(bucket.draw(8, 1_000, 0), Grant::Wait(1_000_000));
    assert_eq!(bucket.draw(8, 1_000, 1_000_000), Grant::Pass);
    // No wait is longer than half a second.
    assert_eq!(bucket.draw(8, 1_000_000, 1_000_000), Grant::Wait(500_000_000));
}

#[test]
fn cap_changes_take_effect() {
    let mut limiter = AgentLimiter::new(1, 0);
    assert_eq!(limiter.acquire(125_000, 0), Grant::Pass);
    assert!(matches!(limiter.acquire(1, 0), Grant::Wait(_)));
    limiter.set_mbps(0);
    assert_eq!(limiter.acquire(1_000_000, 0), Grant::Pass);
}

#[test]
fn a_full_second_is_the_most_a_bucket_saves() {
    let mut limiter = BandwidthLimiter::new(8);
    assert_eq!(limiter.acquire(1, 1_000_000, 0), Grant::Pass);
    assert_eq!(limiter.acquire(1, 1_000_000, 3_600_000_000_000), Grant::Pass);
    assert!(matches!(limiter.acquire(1, 1, 3_600_000_000_000), Grant::Wait(_)));
}
