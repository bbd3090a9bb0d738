//! Per-peer request rate limiting: a token bucket for every peer. Each control
//! request is its own connection, so the limit is on the peer, not on the
//! connection.
//!
//! How many tokens a bucket holds is a number of type `T`, and the arithmetic on
//! it is the caller's: the limiter says which bucket a request is charged to,
//! what the bucket held and for how long it has filled up, and keeps what the
//! caller makes of it.

use vstd::prelude::*;

use crate::config::RateLimiterConfig;
use crate::id::{EndpointId, KeyMap};
use crate::time::Duration;

verus! {

/// One peer's bucket.
#[derive(Debug, Clone, Copy)]
pub struct Bucket<T> {
    pub tokens: T,
    /// When it was last charged, on the limiter's clock.
    pub last_used: Duration,
}

/// Per-peer request rate limiter. Points in time are spans since one fixed start.
#[derive(Debug)]
pub struct RateLimiter<T> {
    cfg: RateLimiterConfig<T>,
    buckets: KeyMap<EndpointId, Bucket<T>>,
}

impl<T> View for RateLimiter<T> {
    type V = Map<EndpointId, Bucket<T>>;

    closed spec fn view(&self) -> Map<EndpointId, Bucket<T>> {
        self.buckets@
    }
}

/// How long it is from `then` to `now`; nothing if the clock went back.
pub open spec fn elapsed(now: Duration, then: Duration) -> Duration {
    Duration {
        nanos: if now.nanos >= then.nanos {
            (now.nanos - then.nanos) as u128
        } else {
            0
        },
    }
}

/// The bucket that a request of `peer` is charged to: its own, or a full one.
pub open spec fn charged<T>(
    m: Map<EndpointId, Bucket<T>>,
    cfg: RateLimiterConfig<T>,
    peer: EndpointId,
    now: Duration,
) -> Bucket<T> {
    if m.contains_key(peer) {
        m[peer]
    } else {
        Bucket { tokens: cfg.burst, last_used: now }
    }
}

/// Whether `step` may leave `tokens` in the bucket `was` and decide `allowed`.
pub open spec fn charges_to<T, F: Fn(T, Duration, RateLimiterConfig<T>) -> (T, bool)>(
    step: F,
    was: Bucket<T>,
    now: Duration,
    cfg: RateLimiterConfig<T>,
    tokens: T,
    allowed: bool,
) -> bool {
    call_ensures(step, (was.tokens, elapsed(now, was.last_used), cfg), (tokens, allowed))
}

/// Whether no bucket has been idle for longer than that of `k`.
pub open spec fn least_used<T>(m: Map<EndpointId, Bucket<T>>, k: EndpointId) -> bool {
    m.contains_key(k) && forall|q: EndpointId| #[trigger]
        m.contains_key(q) ==> m[k].last_used.nanos <= m[q].last_used.nanos
}

/// Whether `after` is `before` without one of its least recently used buckets.
pub open spec fn lru_evicted<T>(
    before: Map<EndpointId, Bucket<T>>,
    after: Map<EndpointId, Bucket<T>>,
) -> bool {
    if before.dom() =~= Set::<EndpointId>::empty() {
        after == before
    } else {
        exists|k: EndpointId| #[trigger] least_used(before, k) && after == before.remove(k)
    }
}

/// The buckets that were used within `ttl` before `now`.
pub open spec fn fresh_buckets<T>(
    m: Map<EndpointId, Bucket<T>>,
    now: Duration,
    ttl: Duration,
) -> Map<EndpointId, Bucket<T>> {
    m.restrict(Set::new(|k: EndpointId| now.nanos <= m[k].last_used.nanos + ttl.nanos))
}

/// Whether `after` is what a cleanup at `now` may leave of `before`: over the
/// cap, a least recently used bucket goes, and with it every idle one.
pub open spec fn cleaned<T>(
    before: Map<EndpointId, Bucket<T>>,
    after: Map<EndpointId, Bucket<T>>,
    cfg: RateLimiterConfig<T>,
    now: Duration,
) -> bool {
    if before.len() > cfg.max_buckets {
        exists|mid: Map<EndpointId, Bucket<T>>| #[trigger]
            lru_evicted(before, mid) && after == fresh_buckets(mid, now, cfg.eviction_ttl)
    } else {
        after == before
    }
}

/// Whether charging a request of `peer` at `now` may turn the buckets `before` into
/// `after` and decide `allowed`: the peer's bucket is charged with `step`, and then
/// the buckets are cleaned up.
pub open spec fn limits_to<T, F: Fn(T, Duration, RateLimiterConfig<T>) -> (T, bool)>(
    step: F,
    before: Map<EndpointId, Bucket<T>>,
    cfg: RateLimiterConfig<T>,
    peer: EndpointId,
    now: Duration,
    after: Map<EndpointId, Bucket<T>>,
    allowed: bool,
) -> bool {
    exists|t: T| #[trigger]
        charges_to(step, charged(before, cfg, peer, now), now, cfg, t, allowed) && cleaned(
            before.insert(peer, Bucket { tokens: t, last_used: now }),
            after,
            cfg,
            now,
        )
}

impl<T: Copy> RateLimiter<T> {
    pub closed spec fn wf(&self) -> bool {
        self.buckets.wf()
    }

    pub closed spec fn config(&self) -> RateLimiterConfig<T> {
        self.cfg
    }

    /// There are finitely many buckets.
    pub proof fn lemma_finite(l: RateLimiter<T>)
        requires
            l.wf(),
        ensures
            l@.dom().finite(),
    {
        l.buckets.lemma_finite();
    }

    /// A limiter that has seen no peer yet.
    pub fn new(cfg: RateLimiterConfig<T>) -> (l: RateLimiter<T>)
        ensures
            l.wf(),
            l.config() == cfg,
            l@ == Map::<EndpointId, Bucket<T>>::empty(),
    {
        RateLimiter { cfg, buckets: KeyMap::new() }
    }

    /// The number of peers with a bucket.
    pub fn len(&self) -> (n: usize)
        requires
            self.wf(),
        ensures
            n == self@.len(),
    {
        self.buckets.len()
    }

    /// Whether `peer` has a bucket.
    pub fn contains(&self, peer: &EndpointId) -> (r: bool)
        requires
            self.wf(),
        ensures
            r == self@.contains_key(*peer),
    {
        self.buckets.get(peer).is_some()
    }

    /// Charges one request of `peer` at `now`. `step` is handed what the peer's
    /// bucket held, for how long it has filled up since and the parameters; it
    /// says what the bucket holds afterwards and whether the request is admitted.
    pub fn allow<F: Fn(T, Duration, RateLimiterConfig<T>) -> (T, bool)>(
        &mut self,
        peer: EndpointId,
        now: Duration,
        step: F,
    ) -> (allowed: bool)
        requires
            old(self).wf(),
            forall|t: T, d: Duration, c: RateLimiterConfig<T>| #[trigger]
                call_requires(step, (t, d, c)),
        ensures
            final(self).wf(),
            final(self).config() == old(self).config(),
            limits_to(
                step,
                old(self)@,
                old(self).config(),
                peer,
                now,
                final(self)@,
                allowed,
            ),
            old(self)@.len() <= old(self).config().max_buckets ==> final(self)@.len() <= old(
                self,
            ).config().max_buckets,
    {
        proof {
            self.buckets.lemma_finite();
        }
        let was = match self.buckets.get(&peer) {
            Some(b) => b,
            None => Bucket { tokens: self.cfg.burst, last_used: now },
        };
        let span = Duration {
            nanos: if now.nanos >= was.last_used.nanos {
                now.nanos - was.last_used.nanos
            } else {
                0
            },
        };
        let (tokens, allowed) = step(was.tokens, span, self.cfg);
        assert(charges_to(step, was, now, self.cfg, tokens, allowed));
        assert(was == charged(old(self)@, old(self).config(), peer, now));
        self.buckets.insert(peer, Bucket { tokens, last_used: now });
        let ghost charged_map = self.buckets@;
        assert(charged_map == old(self)@.insert(peer, Bucket { tokens, last_used: now }));
        if self.buckets.len() > self.cfg.max_buckets {
            Self::evict_lru(&mut self.buckets);
            let ghost mid = self.buckets@;
            Self::evict_stale(&mut self.buckets, now, self.cfg.eviction_ttl);
            proof {
                assert(lru_evicted(charged_map, mid));
                assert(self@ == fresh_buckets(mid, now, self.cfg.eviction_ttl));
            }
        }
        assert(cleaned(charged_map, self@, self.cfg, now));
        assert(limits_to(step, old(self)@, old(self).config(), peer, now, self@, allowed));
        allowed
    }

    /// Drops a least recently used bucket.
    pub fn evict_lru(buckets: &mut KeyMap<EndpointId, Bucket<T>>)
        requires
            old(buckets).wf(),
        ensures
            final(buckets).wf(),
            lru_evicted(old(buckets)@, final(buckets)@),
            old(buckets)@.len() > 0 ==> final(buckets)@.len() == old(buckets)@.len() - 1,
            final(buckets)@.submap_of(old(buckets)@),
    {
        proof {
            buckets.lemma_finite();
        }
        let n: usize = buckets.len();
        if n == 0 {
            assert(buckets@.dom() =~= Set::<EndpointId>::empty());
            return ;
        }
        let mut best: usize = 0;
        let mut i: usize = 1;
        while i < n
            invariant
                buckets.wf(),
                n == buckets@.len(),
                best < i <= n,
                forall|j: int|
                    0 <= j < i ==> buckets.at_spec(best as int).1.last_used.nanos <= (
                    #[trigger] buckets.at_spec(j)).1.last_used.nanos,
            decreases n - i,
        {
            if buckets.at(i).1.last_used.nanos < buckets.at(best).1.last_used.nanos {
                best = i;
            }
            i = i + 1;
        }
        let ghost k = buckets.at_spec(best as int).0;
        let (_k, _b) = buckets.at(best);
        proof {
            assert forall|q: EndpointId| #[trigger] buckets@.contains_key(q) implies buckets@[k].last_used.nanos
                <= buckets@[q].last_used.nanos by {
                let j = buckets.lemma_position(q);
            }
            assert(least_used(buckets@, k));
        }
        buckets.remove_at(best);
    }

    /// Drops the buckets that have not been used within `eviction_ttl` before `now`.
    pub fn evict_stale(
        buckets: &mut KeyMap<EndpointId, Bucket<T>>,
        now: Duration,
        eviction_ttl: Duration,
    )
        requires
            old(buckets).wf(),
        ensures
            final(buckets).wf(),
            final(buckets)@ == fresh_buckets(old(buckets)@, now, eviction_ttl),
            final(buckets)@.len() <= old(buckets)@.len(),
    {
        let ghost before = buckets@;
        let mut i: usize = 0;
        while i < buckets.len()
            invariant
                buckets.wf(),
                i <= buckets@.len() <= before.len(),
                buckets@.submap_of(before),
                forall|q: EndpointId| #[trigger]
                    before.contains_key(q) && !buckets@.contains_key(q) ==> now.nanos
                        > before[q].last_used.nanos + eviction_ttl.nanos,
                forall|j: int|
                    0 <= j < i ==> now.nanos <= (#[trigger] buckets.at_spec(j)).1.last_used.nanos
                        + eviction_ttl.nanos,
            decreases buckets@.len() - i,
        {
            let (k, b) = buckets.at(i);
            let idle = now.nanos > b.last_used.nanos && now.nanos - b.last_used.nanos
                > eviction_ttl.nanos;
            if idle {
                buckets.remove_at(i);
            } else {
                i = i + 1;
            }
        }
        proof {
            let m = buckets@;
            assert forall|q: EndpointId| #[trigger] m.contains_key(q) implies now.nanos
                <= m[q].last_used.nanos + eviction_ttl.nanos by {
                let j = buckets.lemma_position(q);
            }
            assert(m =~= fresh_buckets(before, now, eviction_ttl));
        }
    }
}

/// One peer's request leaves another's bucket as it is, or takes it away with an
/// eviction: it never adds to it nor takes from it. As long as there is room for
/// both, it takes none away either.
pub proof fn peers_are_limited_apart<T, F: Fn(T, Duration, RateLimiterConfig<T>) -> (T, bool)>(
    step: F,
    before: Map<EndpointId, Bucket<T>>,
    cfg: RateLimiterConfig<T>,
    peer: EndpointId,
    now: Duration,
    after: Map<EndpointId, Bucket<T>>,
    allowed: bool,
    other: EndpointId,
)
    requires
        limits_to(step, before, cfg, peer, now, after, allowed),
        other != peer,
    ensures
        after.contains_key(other) ==> before.contains_key(other) && after[other] == before[other],
        before.dom().finite() && (before.len() < cfg.max_buckets || before.contains_key(peer)
            && before.len() <= cfg.max_buckets) ==> after.contains_key(peer)
            && after.contains_key(other) == before.contains_key(other),
{
    let t = choose|t: T| #[trigger]
        charges_to(step, charged(before, cfg, peer, now), now, cfg, t, allowed) && cleaned(
            before.insert(peer, Bucket { tokens: t, last_used: now }),
            after,
            cfg,
            now,
        );
    let full = before.insert(peer, Bucket { tokens: t, last_used: now });
    assert(full.dom() =~= before.dom().insert(peer));
    if before.contains_key(peer) {
        assert(full.dom() =~= before.dom());
    }
    lemma_cleaning_only_drops(full, after, cfg, now);
}

/// A cleanup keeps what it does not drop.
proof fn lemma_cleaning_only_drops<T>(
    before: Map<EndpointId, Bucket<T>>,
    after: Map<EndpointId, Bucket<T>>,
    cfg: RateLimiterConfig<T>,
    now: Duration,
)
    requires
        cleaned(before, after, cfg, now),
    ensures
        after.submap_of(before),
        before.dom().finite() && before.len() <= cfg.max_buckets + 1 ==> after.dom().finite()
            && after.len() <= cfg.max_buckets,
{
    if before.len() > cfg.max_buckets {
        let mid = choose|mid: Map<EndpointId, Bucket<T>>| #[trigger]
            lru_evicted(before, mid) && after == fresh_buckets(mid, now, cfg.eviction_ttl);
        assert(after.dom().subset_of(mid.dom()));
        if before.dom().finite() {
            if before.dom() =~= Set::<EndpointId>::empty() {
                assert(before.len() == 0);
            } else {
                let k = choose|k: EndpointId| #[trigger]
                    least_used(before, k) && mid == before.remove(k);
                assert(mid.dom() =~= before.dom().remove(k));
                assert(mid.len() == before.len() - 1);
                vstd::set_lib::lemma_len_subset(after.dom(), mid.dom());
            }
        }
    }
}

/// One request, and what came of it.
pub struct Call {
    pub peer: EndpointId,
    pub now: Duration,
    pub allowed: bool,
}

/// Whether the requests, made one after the other, may take the buckets through
/// these states.
pub open spec fn calls_run<T, F: Fn(T, Duration, RateLimiterConfig<T>) -> (T, bool)>(
    step: F,
    cfg: RateLimiterConfig<T>,
    calls: Seq<Call>,
    states: Seq<Map<EndpointId, Bucket<T>>>,
) -> bool {
    &&& states.len() == calls.len() + 1
    &&& forall|i: int|
        0 <= i < calls.len() ==> limits_to(
            step,
            states[i],
            cfg,
            (#[trigger] calls[i]).peer,
            calls[i].now,
            states[i + 1],
            calls[i].allowed,
        )
}

/// A run's first part is a run.
proof fn lemma_calls_before<T, F: Fn(T, Duration, RateLimiterConfig<T>) -> (T, bool)>(
    step: F,
    cfg: RateLimiterConfig<T>,
    calls: Seq<Call>,
    states: Seq<Map<EndpointId, Bucket<T>>>,
)
    requires
        calls_run(step, cfg, calls, states),
        calls.len() > 0,
    ensures
        calls_run(step, cfg, calls.drop_last(), states.drop_last()),
        limits_to(
            step,
            states.drop_last().last(),
            cfg,
            calls.last().peer,
            calls.last().now,
            states.last(),
            calls.last().allowed,
        ),
{
    let c = calls.drop_last();
    let s = states.drop_last();
    assert forall|i: int| 0 <= i < c.len() implies limits_to(
        step,
        s[i],
        cfg,
        (#[trigger] c[i]).peer,
        c[i].now,
        s[i + 1],
        c[i].allowed,
    ) by {
        assert(c[i] == calls[i]);
    }
    let n = calls.len() - 1;
    assert(calls[n] == calls.last());
}

/// However many requests other peers make, a peer's bucket stays as it is, unless
/// it is evicted.
pub proof fn other_peers_never_charge_a_bucket<
    T,
    F: Fn(T, Duration, RateLimiterConfig<T>) -> (T, bool),
>(
    step: F,
    cfg: RateLimiterConfig<T>,
    calls: Seq<Call>,
    states: Seq<Map<EndpointId, Bucket<T>>>,
    peer: EndpointId,
)
    requires
        calls_run(step, cfg, calls, states),
        forall|i: int| 0 <= i < calls.len() ==> (#[trigger] calls[i]).peer != peer,
    ensures
        states.last().contains_key(peer) ==> states[0].contains_key(peer) && states.last()[peer]
            == states[0][peer],
    decreases calls.len(),
{
    if calls.len() > 0 {
        let c = calls.drop_last();
        let s = states.drop_last();
        lemma_calls_before(step, cfg, calls, states);
        assert forall|i: int| 0 <= i < c.len() implies (#[trigger] c[i]).peer != peer by {
            assert(c[i] == calls[i]);
        }
        other_peers_never_charge_a_bucket(step, cfg, c, s, peer);
        let last = calls[calls.len() - 1];
        peers_are_limited_apart(
            step,
            s.last(),
            cfg,
            last.peer,
            last.now,
            states.last(),
            last.allowed,
            peer,
        );
    }
}

/// However many peers make requests, no more than the configured number of them has
/// a bucket.
pub proof fn buckets_stay_capped<T, F: Fn(T, Duration, RateLimiterConfig<T>) -> (T, bool)>(
    step: F,
    cfg: RateLimiterConfig<T>,
    calls: Seq<Call>,
    states: Seq<Map<EndpointId, Bucket<T>>>,
)
    requires
        calls_run(step, cfg, calls, states),
        states[0].dom().finite(),
        states[0].len() <= cfg.max_buckets,
    ensures
        states.last().dom().finite(),
        states.last().len() <= cfg.max_buckets,
    decreases calls.len(),
{
    if calls.len() > 0 {
        lemma_calls_before(step, cfg, calls, states);
        buckets_stay_capped(step, cfg, calls.drop_last(), states.drop_last());
        let before = states.drop_last().last();
        let last = calls.last();
        let t = choose|t: T| #[trigger]
            charges_to(
                step,
                charged(before, cfg, last.peer, last.now),
                last.now,
                cfg,
                t,
                last.allowed,
            ) && cleaned(
                before.insert(last.peer, Bucket { tokens: t, last_used: last.now }),
                states.last(),
                cfg,
                last.now,
            );
        let full = before.insert(last.peer, Bucket { tokens: t, last_used: last.now });
        assert(full.dom() =~= before.dom().insert(last.peer));
        lemma_cleaning_only_drops(full, states.last(), cfg, last.now);
    }
}

/// Whether a step never leaves a bucket with a number of tokens that is not `ok`,
/// if it was before.
pub open spec fn step_keeps<T, F: Fn(T, Duration, RateLimiterConfig<T>) -> (T, bool)>(
    step: F,
    cfg: RateLimiterConfig<T>,
    ok: spec_fn(T) -> bool,
) -> bool {
    forall|t: T, d: Duration, out: (T, bool)|
        ok(t) && #[trigger] call_ensures(step, (t, d, cfg), out) ==> ok(out.0)
}

/// What holds of a full bucket and is kept by every step, such as that there are no
/// fewer tokens than none and no more than a burst, holds of every bucket after any
/// number of requests.
pub proof fn tokens_stay_within<T, F: Fn(T, Duration, RateLimiterConfig<T>) -> (T, bool)>(
    step: F,
    cfg: RateLimiterConfig<T>,
    calls: Seq<Call>,
    states: Seq<Map<EndpointId, Bucket<T>>>,
    ok: spec_fn(T) -> bool,
    peer: EndpointId,
)
    requires
        calls_run(step, cfg, calls, states),
        step_keeps(step, cfg, ok),
        ok(cfg.burst),
        forall|q: EndpointId| #[trigger] states[0].contains_key(q) ==> ok(states[0][q].tokens),
    ensures
        states.last().contains_key(peer) ==> ok(states.last()[peer].tokens),
    decreases calls.len(),
{
    if calls.len() > 0 {
        lemma_calls_before(step, cfg, calls, states);
        let s = states.drop_last();
        let before = s.last();
        let last = calls.last();
        assert(s[0] == states[0]);
        tokens_stay_within(step, cfg, calls.drop_last(), s, ok, peer);
        tokens_stay_within(step, cfg, calls.drop_last(), s, ok, last.peer);
        let was = charged(before, cfg, last.peer, last.now);
        let t = choose|t: T| #[trigger]
            charges_to(step, was, last.now, cfg, t, last.allowed) && cleaned(
                before.insert(last.peer, Bucket { tokens: t, last_used: last.now }),
                states.last(),
                cfg,
                last.now,
            );
        assert(ok(was.tokens));
        assert(ok((t, last.allowed).0));
        lemma_cleaning_only_drops(
            before.insert(last.peer, Bucket { tokens: t, last_used: last.now }),
            states.last(),
            cfg,
            last.now,
        );
    }
}

/// How many of the requests of `peer` are admitted.
pub open spec fn admitted(calls: Seq<Call>, peer: EndpointId) -> nat
    decreases calls.len(),
{
    if calls.len() == 0 {
        0
    } else {
        admitted(calls.drop_last(), peer) + (if calls.last().peer == peer && calls.last().allowed {
            1nat
        } else {
            0nat
        })
    }
}

/// Whether `step` keeps the books of a token bucket, in units of which a number of
/// tokens is worth `worth` and one token `one`. What is left, and the token that an
/// admitted request takes, come out of what was there and what has been refilled
/// since, up to a burst; nothing is owed; and a refused request takes no token.
pub open spec fn step_pays<T, F: Fn(T, Duration, RateLimiterConfig<T>) -> (T, bool)>(
    step: F,
    cfg: RateLimiterConfig<T>,
    worth: spec_fn(T) -> int,
    one: int,
) -> bool {
    forall|t: T, d: Duration, out: (T, bool)| #[trigger]
        call_ensures(step, (t, d, cfg), out) ==> {
            let spent = worth(out.0) + (if out.1 {
                one
            } else {
                0
            });
            &&& 1_000_000_000 * (spent - worth(t)) <= worth(cfg.refill) * d.nanos
            &&& spent <= worth(cfg.burst)
            &&& worth(t) >= 0 ==> worth(out.0) >= 0
            &&& !out.1 && worth(t) <= worth(cfg.burst) ==> worth(out.0) >= worth(t)
        }
}

/// A request that is refused takes no token.
pub proof fn refused_requests_take_no_token<
    T,
    F: Fn(T, Duration, RateLimiterConfig<T>) -> (T, bool),
>(
    step: F,
    before: Map<EndpointId, Bucket<T>>,
    cfg: RateLimiterConfig<T>,
    peer: EndpointId,
    now: Duration,
    after: Map<EndpointId, Bucket<T>>,
    worth: spec_fn(T) -> int,
    one: int,
)
    requires
        limits_to(step, before, cfg, peer, now, after, false),
        step_pays(step, cfg, worth, one),
        before.contains_key(peer) ==> worth(before[peer].tokens) <= worth(cfg.burst),
    ensures
        after.contains_key(peer) ==> worth(after[peer].tokens) >= worth(
            charged(before, cfg, peer, now).tokens,
        ),
{
    lemma_charged(step, before, cfg, peer, now, after, false);
}

/// What a request leaves in the peer's bucket, if the bucket is not evicted at once.
pub proof fn lemma_charged<T, F: Fn(T, Duration, RateLimiterConfig<T>) -> (T, bool)>(
    step: F,
    before: Map<EndpointId, Bucket<T>>,
    cfg: RateLimiterConfig<T>,
    peer: EndpointId,
    now: Duration,
    after: Map<EndpointId, Bucket<T>>,
    allowed: bool,
) -> (t: T)
    requires
        limits_to(step, before, cfg, peer, now, after, allowed),
    ensures
        charges_to(step, charged(before, cfg, peer, now), now, cfg, t, allowed),
        after.contains_key(peer) ==> after[peer] == (Bucket { tokens: t, last_used: now }),
{
    let t = choose|t: T| #[trigger]
        charges_to(step, charged(before, cfg, peer, now), now, cfg, t, allowed) && cleaned(
            before.insert(peer, Bucket { tokens: t, last_used: now }),
            after,
            cfg,
            now,
        );
    lemma_cleaning_only_drops(
        before.insert(peer, Bucket { tokens: t, last_used: now }),
        after,
        cfg,
        now,
    );
    t
}

/// Whether the clock does not go back between the requests.
pub open spec fn in_order(calls: Seq<Call>) -> bool {
    forall|i: int, j: int|
        0 <= i <= j < calls.len() ==> (#[trigger] calls[i]).now.nanos <= (
        #[trigger] calls[j]).now.nanos
}

/// Whether the bucket of `peer`, once it has been charged, is there whenever the next
/// request comes.
pub open spec fn never_evicted<T>(
    calls: Seq<Call>,
    states: Seq<Map<EndpointId, Bucket<T>>>,
    peer: EndpointId,
) -> bool {
    forall|i: int, k: int|
        0 <= i < k < calls.len() && (#[trigger] calls[i]).peer == peer ==> (
        #[trigger] states[k]).contains_key(peer)
}

/// Whether `peer` makes any of the requests.
pub open spec fn asks(calls: Seq<Call>, peer: EndpointId) -> bool {
    exists|i: int| 0 <= i < calls.len() && (#[trigger] calls[i]).peer == peer
}

/// Of the requests that a peer makes while its bucket is not evicted, no more are
/// admitted than a burst and what is refilled from the first request to the last:
/// `burst + refill * d`, if that takes `d` seconds.
pub proof fn admissions_are_bounded<T, F: Fn(T, Duration, RateLimiterConfig<T>) -> (T, bool)>(
    step: F,
    cfg: RateLimiterConfig<T>,
    calls: Seq<Call>,
    states: Seq<Map<EndpointId, Bucket<T>>>,
    worth: spec_fn(T) -> int,
    one: int,
    peer: EndpointId,
)
    requires
        calls_run(step, cfg, calls, states),
        calls.len() > 0,
        in_order(calls),
        never_evicted(calls, states, peer),
        step_pays(step, cfg, worth, one),
        worth(cfg.burst) >= 0,
        worth(cfg.refill) >= 0,
        states[0].contains_key(peer) ==> worth(states[0][peer].tokens) >= 0,
    ensures
        1_000_000_000 * (one * admitted(calls, peer)) <= 1_000_000_000 * worth(cfg.burst) + worth(
            cfg.refill,
        ) * (calls.last().now.nanos - calls[0].now.nanos),
{
    lemma_books(step, cfg, calls, states, worth, one, peer);
}

/// The books of a peer's bucket over a run of requests.
proof fn lemma_books<T, F: Fn(T, Duration, RateLimiterConfig<T>) -> (T, bool)>(
    step: F,
    cfg: RateLimiterConfig<T>,
    calls: Seq<Call>,
    states: Seq<Map<EndpointId, Bucket<T>>>,
    worth: spec_fn(T) -> int,
    one: int,
    peer: EndpointId,
)
    requires
        calls_run(step, cfg, calls, states),
        calls.len() > 0,
        in_order(calls),
        never_evicted(calls, states, peer),
        step_pays(step, cfg, worth, one),
        worth(cfg.burst) >= 0,
        worth(cfg.refill) >= 0,
        states[0].contains_key(peer) ==> worth(states[0][peer].tokens) >= 0,
    ensures
        1_000_000_000 * (one * admitted(calls, peer)) <= 1_000_000_000 * worth(cfg.burst) + worth(
            cfg.refill,
        ) * (calls.last().now.nanos - calls[0].now.nanos),
        states.last().contains_key(peer) ==> worth(states.last()[peer].tokens) >= 0,
        !asks(calls, peer) ==> admitted(calls, peer) == 0,
        states.last().contains_key(peer) && asks(calls, peer) ==> {
            let b = states.last()[peer];
            &&& calls[0].now.nanos <= b.last_used.nanos <= calls.last().now.nanos
            &&& 1_000_000_000 * (worth(b.tokens) + one * admitted(calls, peer)) <= 1_000_000_000
                * worth(cfg.burst) + worth(cfg.refill) * (b.last_used.nanos - calls[0].now.nanos)
        },
    decreases calls.len(),
{
    let n = calls.len() - 1;
    let c = calls.drop_last();
    let s = states.drop_last();
    let last = calls[n];
    let before = s.last();
    let r = worth(cfg.refill);
    lemma_calls_before(step, cfg, calls, states);
    assert(calls.last() == last);
    assert(before == states[n]);
    if n > 0 {
        assert forall|i: int, j: int| 0 <= i <= j < c.len() implies (
        #[trigger] c[i]).now.nanos <= (#[trigger] c[j]).now.nanos by {
            assert(c[i] == calls[i] && c[j] == calls[j]);
        }
        assert forall|i: int, k: int|
            0 <= i < k < c.len() && (#[trigger] c[i]).peer == peer implies (
        #[trigger] s[k]).contains_key(peer) by {
            assert(c[i] == calls[i] && s[k] == states[k]);
        }
        assert(s[0] == states[0]);
        lemma_books(step, cfg, c, s, worth, one, peer);
        assert(c[0] == calls[0] && c.last() == calls[n - 1]);
        assert(calls[n - 1].now.nanos <= last.now.nanos);
        if asks(c, peer) {
            let i = choose|i: int| 0 <= i < c.len() && (#[trigger] c[i]).peer == peer;
            assert(calls[i].peer == peer);
            assert(states[n].contains_key(peer));
        }
    } else {
        assert(c =~= Seq::<Call>::empty());
        assert(!asks(c, peer));
    }
    assert(calls[0].now.nanos <= last.now.nanos);
    let a0 = admitted(c, peer);
    let a1 = admitted(calls, peer);
    if asks(calls, peer) && last.peer != peer {
        let i = choose|i: int| 0 <= i < calls.len() && (#[trigger] calls[i]).peer == peer;
        assert(c[i].peer == peer);
    }
    if asks(c, peer) {
        let i = choose|i: int| 0 <= i < c.len() && (#[trigger] c[i]).peer == peer;
        assert(calls[i].peer == peer);
    }
    let span = last.now.nanos - calls[0].now.nanos;
    assert(r * span >= 0) by (nonlinear_arith)
        requires
            r >= 0,
            span >= 0,
    ;
    if last.peer != peer {
        peers_are_limited_apart(
            step,
            before,
            cfg,
            last.peer,
            last.now,
            states.last(),
            last.allowed,
            peer,
        );
        assert(a1 == a0);
        if n > 0 {
            let was = calls[n - 1].now.nanos - calls[0].now.nanos;
            assert(r * was <= r * span) by (nonlinear_arith)
                requires
                    r >= 0,
                    was <= span,
            ;
        } else {
            assert(a0 == 0);
            assert(one * a0 == 0) by (nonlinear_arith)
                requires
                    a0 == 0,
            ;
        }
    } else {
        let was = charged(before, cfg, peer, last.now);
        let t = lemma_charged(step, before, cfg, peer, last.now, states.last(), last.allowed);
        let paid: int = if last.allowed {
            one
        } else {
            0
        };
        let d = elapsed(last.now, was.last_used);
        assert(call_ensures(step, (was.tokens, d, cfg), (t, last.allowed)));
        let bit: nat = if last.allowed {
            1
        } else {
            0
        };
        assert(a1 == a0 + bit);
        assert(one * a1 == one * a0 + paid) by (nonlinear_arith)
            requires
                a1 == a0 + bit,
                paid == (if bit == 1 {
                    one
                } else {
                    0
                }),
                bit == 0 || bit == 1,
        ;
        assert(calls[n].peer == peer);
        assert(worth(was.tokens) >= 0);
        if asks(c, peer) {
            let gone = was.last_used.nanos - calls[0].now.nanos;
            assert(d.nanos == span - gone);
            assert(r * span == r * gone + r * d.nanos) by (nonlinear_arith)
                requires
                    span == gone + d.nanos,
            ;
        } else {
            assert(a0 == 0);
            assert(one * a0 == 0) by (nonlinear_arith)
                requires
                    a0 == 0,
            ;
        }
    }
}

} // verus!
