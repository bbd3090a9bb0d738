//! The rate limiter: whose request is charged to which bucket, and which bucket goes.

use vstd::prelude::*;

use crate::config::RateLimiterConfig;
use crate::id::{EndpointId, Key, KeyMap, ProcKey};
use crate::ratelimit::{Bucket, RateLimiter};
use crate::time::Duration;

verus! {

/// A new limiter knows nobody and goes by the rate that it is given.
pub proof fn new_limiters_know_nobody<T: Copy>(
    cfg: RateLimiterConfig<T>,
    l: RateLimiter<T>,
    n: usize,
    peer: EndpointId,
    r: bool,
)
    requires
        call_ensures(RateLimiter::<T>::new, (cfg,), l),
        call_ensures(RateLimiter::<T>::len, (&l,), n),
        call_ensures(RateLimiter::<T>::contains, (&l, &peer), r),
    ensures
        n == 0,
        !r,
        l.config() == cfg,
{
}

/// A limiter tells how many peers have a bucket, and which.
pub proof fn limiters_tell_whom_they_know<T: Copy>(
    l: RateLimiter<T>,
    n: usize,
    peer: EndpointId,
    r: bool,
)
    requires
        call_ensures(RateLimiter::<T>::len, (&l,), n),
        call_ensures(RateLimiter::<T>::contains, (&l, &peer), r),
    ensures
        n == l@.dom().len(),
        r <==> l@.dom().contains(peer),
{
}

/// A request is charged to the bucket of its own peer: the step gets what that bucket
/// held, how long it has filled up since, and the rate, or a full bucket if there was
/// none; and what it says is left is what the bucket holds from now on. No other
/// bucket changes. A bucket goes only to make room: that of the peer that was away for
/// longest, or one that was idle for too long.
pub proof fn requests_are_charged_to_their_peer<
    T: Copy,
    F: Fn(T, Duration, RateLimiterConfig<T>) -> (T, bool),
>(
    l: &mut RateLimiter<T>,
    peer: EndpointId,
    now: Duration,
    step: F,
    allowed: bool,
    held: T,
    span: Duration,
    other: EndpointId,
    third: EndpointId,
)
    requires
        old(l).wf(),
        call_ensures(RateLimiter::<T>::allow::<F>, (l, peer, now, step), allowed),
        old(l)@.contains_key(peer) ==> span.nanos == if now.nanos > old(l)@[peer].last_used.nanos {
            now.nanos - old(l)@[peer].last_used.nanos
        } else {
            0
        },
        old(l)@.contains_key(peer) ==> held == old(l)@[peer].tokens,
        !old(l)@.contains_key(peer) ==> span.nanos == 0 && held == old(l).config().burst,
        other != peer,
    ensures
        final(l).config() == old(l).config(),
        exists|t: T| #[trigger]
            call_ensures(step, (held, span, old(l).config()), (t, allowed)) && (
            final(l)@.contains_key(peer) ==> final(l)@[peer].tokens == t && final(l)@[peer].last_used
                == now),
        final(l)@.contains_key(other) ==> old(l)@.contains_key(other) && final(l)@[other]
            == old(l)@[other],
        old(l)@.len() < old(l).config().max_buckets || old(l)@.contains_key(peer) && old(l)@.len()
            <= old(l).config().max_buckets ==> final(l)@.contains_key(peer) && (
        final(l)@.contains_key(other) <==> old(l)@.contains_key(other)),
        old(l)@.len() == old(l).config().max_buckets && !old(l)@.contains_key(peer)
            && old(l)@.contains_key(other) && now.nanos > old(l)@[other].last_used.nanos + old(
            l,
        ).config().eviction_ttl.nanos ==> !final(l)@.contains_key(other),
        old(l)@.len() <= old(l).config().max_buckets ==> final(l)@.len()
            <= old(l).config().max_buckets,
        old(l)@.contains_key(other) && !final(l)@.contains_key(other) ==> {
            ||| now.nanos > old(l)@[other].last_used.nanos + old(l).config().eviction_ttl.nanos
            ||| old(l)@[other].last_used.nanos <= now.nanos && (old(l)@.contains_key(third) && third
                != peer ==> old(l)@[other].last_used.nanos <= old(l)@[third].last_used.nanos)
        },
{
    let cfg = old(l).config();
    let before = old(l)@;
    let after = final(l)@;
    RateLimiter::<T>::lemma_finite(*old(l));
    crate::ratelimit::peers_are_limited_apart(
        step,
        before,
        cfg,
        peer,
        now,
        after,
        allowed,
        other,
    );
    let t = crate::ratelimit::lemma_charged(step, before, cfg, peer, now, after, allowed);
    let was = crate::ratelimit::charged(before, cfg, peer, now);
    assert(span == crate::ratelimit::elapsed(now, was.last_used));
    assert(call_ensures(step, (was.tokens, span, cfg), (t, allowed)));
    let u = choose|u: T| #[trigger]
        crate::ratelimit::charges_to(step, was, now, cfg, u, allowed) && crate::ratelimit::cleaned(
            before.insert(peer, Bucket { tokens: u, last_used: now }),
            after,
            cfg,
            now,
        );
    let full = before.insert(peer, Bucket { tokens: u, last_used: now });
    if before.len() == cfg.max_buckets && !before.contains_key(peer) {
        assert(full.dom() =~= before.dom().insert(peer));
        assert(full.len() > cfg.max_buckets);
    }
    if before.contains_key(other) && !after.contains_key(other) {
        assert(full.len() > cfg.max_buckets);
        let mid = choose|mid: Map<EndpointId, Bucket<T>>| #[trigger]
            crate::ratelimit::lru_evicted(full, mid) && after == crate::ratelimit::fresh_buckets(
                mid,
                now,
                cfg.eviction_ttl,
            );
        assert(full.dom().contains(peer));
        let k = choose|k: EndpointId| #[trigger]
            crate::ratelimit::least_used(full, k) && mid == full.remove(k);
        if k == other {
            assert(full.contains_key(peer) && full[peer].last_used == now);
            if before.contains_key(third) && third != peer {
                assert(full.contains_key(third));
            }
        } else {
            assert(mid.contains_key(other));
        }
    }
}

/// To make room, a bucket goes that no other was unused for longer than.
pub proof fn the_longest_away_goes<T: Copy>(
    b: &mut KeyMap<EndpointId, Bucket<T>>,
    gone: EndpointId,
    other: EndpointId,
)
    requires
        old(b).wf(),
        call_ensures(RateLimiter::<T>::evict_lru, (b,), ()),
        old(b)@.contains_key(gone),
        !final(b)@.contains_key(gone),
    ensures
        old(b)@.contains_key(other) ==> old(b)@[gone].last_used.nanos
            <= old(b)@[other].last_used.nanos,
        old(b)@.contains_key(other) && other != gone ==> final(b)@.contains_key(other)
            && final(b)@[other] == old(b)@[other],
        final(b)@.contains_key(other) ==> old(b)@.contains_key(other),
        final(b)@.len() == old(b)@.len() - 1,
{
    old(b).lemma_finite();
    let k = choose|k: EndpointId| #[trigger]
        crate::ratelimit::least_used(old(b)@, k) && final(b)@ == old(b)@.remove(k);
    assert(old(b)@.dom().contains(gone));
    assert(old(b)@.dom().len() > 0) by {
        assert(old(b)@.dom().remove(gone).len() + 1 == old(b)@.dom().len());
    }
}

/// An idle bucket goes once it was not used for longer than it may be, and not before.
pub proof fn idle_buckets_go<T: Copy>(
    b: &mut KeyMap<EndpointId, Bucket<T>>,
    now: Duration,
    ttl: Duration,
    peer: EndpointId,
)
    requires
        call_ensures(RateLimiter::<T>::evict_stale, (b, now, ttl), ()),
    ensures
        final(b)@.contains_key(peer) <==> old(b)@.contains_key(peer) && now.nanos
            - old(b)@[peer].last_used.nanos <= ttl.nanos,
        final(b)@.contains_key(peer) ==> final(b)@[peer] == old(b)@[peer],
{
}

/// A map gives back what was last put under a key, and nothing else changes.
pub proof fn maps_give_back_what_was_put<K: Key, V: Copy>(
    m: &mut KeyMap<K, V>,
    k: K,
    v: V,
    was: Option<V>,
    before: Option<V>,
    now: Option<V>,
    other: K,
    a: Option<V>,
    b: Option<V>,
)
    requires
        call_ensures(KeyMap::<K, V>::get, (&*old(m), &k), before),
        call_ensures(KeyMap::<K, V>::get, (&*old(m), &other), a),
        call_ensures(KeyMap::<K, V>::insert, (m, k, v), was),
        call_ensures(KeyMap::<K, V>::get, (&*final(m), &k), now),
        call_ensures(KeyMap::<K, V>::get, (&*final(m), &other), b),
    ensures
        now == Some(v),
        was == before,
        other != k ==> a == b,
{
}

/// Two keys are the same if all their bytes are, and a process is told apart by its
/// node and its handle.
pub proof fn keys_are_compared_in_full(
    a: EndpointId,
    b: EndpointId,
    x: u64,
    y: u64,
    nodes: bool,
    procs: bool,
)
    requires
        call_ensures(<EndpointId as Key>::same, (&a, &b), nodes),
        call_ensures(
            <ProcKey as Key>::same,
            (&ProcKey { node: a, handle: x }, &ProcKey { node: b, handle: y }),
            procs,
        ),
    ensures
        nodes <==> a.bytes@ == b.bytes@,
        procs <==> a.bytes@ == b.bytes@ && x == y,
{
    if a.bytes@ == b.bytes@ {
        assert(a.bytes =~= b.bytes);
    }
}

/// A new map holds nothing.
pub proof fn new_maps_hold_nothing<K: Key, V: Copy>(
    m: KeyMap<K, V>,
    k: K,
    r: Option<V>,
    n: usize,
)
    requires
        call_ensures(KeyMap::<K, V>::new, (), m),
        call_ensures(KeyMap::<K, V>::get, (&m, &k), r),
        call_ensures(KeyMap::<K, V>::len, (&m,), n),
    ensures
        r is None,
        n == 0,
{
}

/// What is dropped from a map is gone, and nothing else is.
pub proof fn dropped_entries_are_gone<K: Key, V: Copy>(
    m: &mut KeyMap<K, V>,
    i: usize,
    e: (K, V),
    gone: Option<V>,
    other: K,
    a: Option<V>,
    b: Option<V>,
)
    requires
        call_ensures(KeyMap::<K, V>::at, (&*old(m), i), e),
        call_ensures(KeyMap::<K, V>::get, (&*old(m), &other), a),
        call_ensures(KeyMap::<K, V>::remove_at, (m, i), ()),
        call_ensures(KeyMap::<K, V>::get, (&*final(m), &e.0), gone),
        call_ensures(KeyMap::<K, V>::get, (&*final(m), &other), b),
    ensures
        gone is None,
        other != e.0 ==> a == b,
{
}

} // verus!
