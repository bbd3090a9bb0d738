//! Per-peer rate limiting, with tokens counted in floating-point numbers.

use mesh_supervisor::config::RateLimiterConfig;
use mesh_supervisor::id::{EndpointId, KeyMap};
use mesh_supervisor::ratelimit::{Bucket, RateLimiter};
use mesh_supervisor::time::Duration;

fn test_rate_cfg() -> RateLimiterConfig<f64> {
    RateLimiterConfig::at_rate(20.0, 10.0)
}

fn charge(tokens: f64, span: Duration, cfg: RateLimiterConfig<f64>) -> (f64, bool) {
    let filled = (tokens + span.nanos as f64 / 1e9 * cfg.refill).min(cfg.burst);
    if filled >= 1.0 {
        (filled - 1.0, true)
    } else {
        (filled, false)
    }
}

fn random_peer() -> EndpointId {
    EndpointId {
        bytes: *iroh::SecretKey::generate().public().as_bytes(),
    }
}

fn numbered_peer(n: u32) -> EndpointId {
    let mut bytes = [0u8; 32];
    bytes[..4].copy_from_slice(&n.to_be_bytes());
    EndpointId { bytes }
}

fn at(ms: u64) -> Duration {
    Duration::from_millis(ms)
}

#[test]
fn rate_limiter_allows_burst_then_blocks() {
    let cfg = test_rate_cfg();
    let mut limiter = RateLimiter::new(cfg);
    let peer = random_peer();

    // A full burst is admitted back-to-back...
    for _ in 0..cfg.burst as u32 {
        assert!(limiter.allow(peer, at(0), charge));
    }
    // ...then the bucket is empty.
    assert!(
        !limiter.allow(peer, at(0), charge),
        "burst exhausted should be limited"
    );

    // A different peer has its own bucket, unaffected.
    assert!(limiter.allow(random_peer(), at(0), charge));
}

#[test]
fn rate_limiter_evicts_lru_when_full() {
    let cfg = test_rate_cfg();
    let mut limiter = RateLimiter::new(cfg);
    let peers: Vec<EndpointId> = (0..cfg.max_buckets as u32 + 1).map(numbered_peer).collect();

    // Touch each peer once in order, a little later each time.
    let mut now = 0;
    for peer in &peers {
        assert!(limiter.allow(*peer, at(now), charge));
        now += 1;
    }

    assert_eq!(
        limiter.len(),
        cfg.max_buckets,
        "bucket count should be capped"
    );

    // The first peer (oldest last_used) should have been evicted.
    assert!(
        !limiter.contains(&peers[0]),
        "oldest peer should be evicted"
    );
    assert!(limiter.contains(&peers[1]));

    // Re-allowing the evicted peer creates a new bucket; count stays capped.
    assert!(limiter.allow(peers[0], at(now), charge));
    assert_eq!(limiter.len(), cfg.max_buckets);
    assert!(!limiter.contains(&peers[1]));
}

#[test]
fn other_peers_leave_a_bucket_as_it_is_or_take_it_away() {
    let cfg = RateLimiterConfig {
        max_buckets: 2,
        ..test_rate_cfg()
    };
    let mut limiter = RateLimiter::new(cfg);
    let peer = numbered_peer(1);
    for _ in 0..20 {
        assert!(limiter.allow(peer, at(5), charge));
    }

    // At the cap others push each other out: the peer, used last, stays spent.
    assert!(limiter.allow(numbered_peer(2), at(1), charge));
    assert!(limiter.allow(numbered_peer(3), at(2), charge));
    assert!(limiter.contains(&peer) && !limiter.contains(&numbered_peer(2)));
    assert_eq!(limiter.len(), 2);
    assert!(!limiter.allow(peer, at(5), charge));

    // Once evicted it starts anew, with a full bucket.
    assert!(limiter.allow(numbered_peer(3), at(6), charge));
    assert!(limiter.allow(numbered_peer(4), at(7), charge));
    assert!(!limiter.contains(&peer));
    for _ in 0..20 {
        assert!(limiter.allow(peer, at(8), charge));
    }
    assert!(!limiter.allow(peer, at(8), charge));
    assert_eq!(limiter.len(), 2);
}

#[test]
fn evict_stale_removes_idle_peers() {
    let cfg = test_rate_cfg();
    let now = Duration::from_secs(1_000);
    let old = random_peer();
    let recent = random_peer();
    let mut buckets = KeyMap::new();
    buckets.insert(
        old,
        Bucket {
            tokens: 0.0,
            last_used: Duration {
                nanos: now.nanos - cfg.eviction_ttl.nanos - Duration::from_secs(1).nanos,
            },
        },
    );
    buckets.insert(
        recent,
        Bucket {
            tokens: 0.0,
            last_used: now,
        },
    );

    RateLimiter::evict_stale(&mut buckets, now, cfg.eviction_ttl);

    assert!(buckets.get(&old).is_none());
    assert!(buckets.get(&recent).is_some());
}

#[test]
fn a_bucket_idle_for_exactly_its_lifetime_stays() {
    let cfg = test_rate_cfg();
    let peer = numbered_peer(1);
    let mut buckets = KeyMap::new();
    buckets.insert(
        peer,
        Bucket {
            tokens: 0.0,
            last_used: Duration::from_secs(10),
        },
    );
    RateLimiter::evict_stale(&mut buckets, Duration::from_secs(100), cfg.eviction_ttl);
    assert!(buckets.get(&peer).is_some());
    RateLimiter::evict_stale(
        &mut buckets,
        Duration {
            nanos: Duration::from_secs(100).nanos + 1,
        },
        cfg.eviction_ttl,
    );
    assert!(buckets.get(&peer).is_none());
}

#[test]
fn buckets_refill_over_time_up_to_the_burst() {
    let cfg = test_rate_cfg();
    let mut limiter = RateLimiter::new(cfg);
    let peer = numbered_peer(7);
    for _ in 0..20 {
        assert!(limiter.allow(peer, at(0), charge));
    }
    assert!(!limiter.allow(peer, at(0), charge));

    // Ten tokens a second: one after a tenth of a second.
    assert!(limiter.allow(peer, at(100), charge));
    assert!(!limiter.allow(peer, at(100), charge));

    // However long the peer stays away, it gets no more than a burst.
    for _ in 0..20 {
        assert!(limiter.allow(peer, at(60_000), charge));
    }
    assert!(!limiter.allow(peer, at(60_000), charge));
}

#[test]
fn cleaning_up_drops_idle_peers_too() {
    let mut cfg = test_rate_cfg();
    cfg.max_buckets = 2;
    let mut limiter = RateLimiter::new(cfg);
    limiter.allow(numbered_peer(1), at(0), charge);
    limiter.allow(numbered_peer(2), at(1), charge);
    assert_eq!(limiter.len(), 2);

    // The third peer goes over the cap: the oldest is evicted, and with it the
    // second, which has been idle for too long.
    limiter.allow(numbered_peer(3), at(200_000), charge);
    assert_eq!(limiter.len(), 1);
    assert!(limiter.contains(&numbered_peer(3)));
}

#[test]
fn evicting_from_nothing_changes_nothing() {
    let mut buckets: KeyMap<EndpointId, Bucket<u32>> = KeyMap::new();
    RateLimiter::evict_lru(&mut buckets);
    assert_eq!(buckets.len(), 0);
}

#[test]
fn admissions_are_a_burst_and_what_is_refilled() {
    let cfg = test_rate_cfg();
    let mut limiter = RateLimiter::new(cfg);
    let peer = numbered_peer(1);
    // Over two seconds: a burst of 20, and 10 a second.
    let mut admitted = 0;
    for ms in (0..=2_000).step_by(50) {
        for _ in 0..3 {
            if limiter.allow(peer, at(ms), charge) {
                admitted += 1;
            }
        }
    }
    assert_eq!(admitted, 40);
}

#[test]
fn a_refused_request_takes_no_token() {
    let mut limiter = RateLimiter::new(test_rate_cfg());
    let peer = numbered_peer(1);
    for _ in 0..20 {
        assert!(limiter.allow(peer, at(0), charge));
    }
    // Half a token is there, and stays there.
    assert!(!limiter.allow(peer, at(50), charge));
    assert!(!limiter.allow(peer, at(50), charge));
    assert!(limiter.allow(peer, at(100), charge));
}
