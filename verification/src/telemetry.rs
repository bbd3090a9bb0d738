//! The lossy telemetry plane: supervisors gossip signed snapshots of their process
//! tables, and watchers check, order and compare them.

use vstd::prelude::*;

use crate::id::{EndpointId, KeyMap, ProcKey};
use crate::proto::{Handle, ProcInfo, ProcState, Usage};
use crate::time::Duration;

verus! {

/// The label of the public topic, on which supervisors and watchers without a
/// shared secret meet.
pub const DEFAULT_TOPIC_LABEL: &'static str = "p2p-telemtry/telemetry/1";

/// A tick further than this many milliseconds from now is rejected.
pub const MAX_TICK_AGE_MS: u64 = 10_000;

/// The BLAKE3 hash of these bytes.
pub uninterp spec fn blake3_hash(bytes: Seq<u8>) -> Seq<u8>;

/// `blake3::hash`: the 32 bytes of the hash.
#[verifier::external_body]
fn hash(bytes: &[u8]) -> (r: [u8; 32])
    ensures
        r@ == blake3_hash(bytes@),
{
    *blake3::hash(bytes).as_bytes()
}

/// The topic to use: the hash of the shared secret if there is one, so that peers
/// without it cannot compute the topic; else the hash of a well-known label.
pub fn topic_for(secret: Option<&str>) -> (topic: [u8; 32])
    ensures
        topic@ == blake3_hash(
            vstd::utf8::encode_utf8(
                match secret {
                    Some(s) => s@,
                    None => DEFAULT_TOPIC_LABEL@,
                },
            ),
        ),
{
    let label = match secret {
        Some(s) => s,
        None => DEFAULT_TOPIC_LABEL,
    };
    hash(label.as_bytes())
}

/// What a clock that reads `since_epoch` after the Unix epoch shows in
/// milliseconds; nothing if it is before the epoch.
pub open spec fn millis(since_epoch: Option<Duration>) -> u64 {
    match since_epoch {
        Some(d) => (d.nanos as int / 1_000_000 % 0x1_0000_0000_0000_0000) as u64,
        None => 0,
    }
}

/// Milliseconds since the Unix epoch, in 64 bits; 0 if the clock is before it.
pub fn now_millis(since_epoch: Option<Duration>) -> (ms: u64)
    ensures
        ms == millis(since_epoch),
{
    match since_epoch {
        Some(d) => (d.nanos / 1_000_000 % 0x1_0000_0000_0000_0000) as u64,
        None => 0,
    }
}

/// How far two points in time are apart.
pub open spec fn distance(a: u64, b: u64) -> nat {
    if a <= b {
        (b - a) as nat
    } else {
        (a - b) as nat
    }
}

/// Whether a tick stamped `ts` is within the default window around `now`, in
/// either direction.
pub fn fresh(ts: u64, now: u64) -> (r: bool)
    ensures
        r == (distance(ts, now) <= MAX_TICK_AGE_MS),
{
    if ts <= now {
        now - ts <= MAX_TICK_AGE_MS
    } else {
        ts - now <= MAX_TICK_AGE_MS
    }
}

/// Whether a tick stamped `ts` is within `window` of `now`, in whole milliseconds.
pub open spec fn within(ts: u64, now: u64, window: Duration) -> bool {
    distance(ts, now) <= window.nanos as nat / 1_000_000
}

/// Whether a tick stamped `ts` is within `window` of `now`, in either direction.
pub fn fresh_within(ts: u64, now: u64, window: Duration) -> (r: bool)
    ensures
        r == within(ts, now, window),
{
    let far: u64 = if ts <= now {
        now - ts
    } else {
        ts - now
    };
    far as u128 <= window.nanos / 1_000_000
}

/// A tick's authenticated content: one supervisor's process table at a moment in
/// time.
#[derive(Debug, Clone, PartialEq)]
pub struct Tick {
    pub from: EndpointId,
    /// Counts the publisher's ticks, from 1.
    pub seq: u64,
    /// When it was taken, in milliseconds since the Unix epoch.
    pub ts: u64,
    pub stats: Vec<ProcInfo>,
}

/// Why a tick could not be made or is not accepted.
#[derive(Debug, Clone, Copy, PartialEq, Eq, Structural)]
pub enum TickError {
    /// The tick cannot be put into bytes.
    Encode,
    /// These bytes are no tick.
    Malformed,
    /// The signature is not that of the publisher named in the tick.
    Forged,
}

/// The public key of a secret key.
pub uninterp spec fn public_key(secret: Seq<u8>) -> Seq<u8>;

/// The signature under a message by a secret key.
pub uninterp spec fn signature(secret: Seq<u8>, msg: Seq<u8>) -> Seq<u8>;

/// Whether a signature under a message holds by a public key.
pub uninterp spec fn verifies(key: Seq<u8>, msg: Seq<u8>, sig: Seq<u8>) -> bool;

/// Whether a signature's nonce is the curve's neutral element: a one and 31 zeros.
pub open spec fn neutral_nonce(sig: Seq<u8>) -> bool {
    sig[0] == 1 && forall|i: int| 1 <= i < 32 ==> #[trigger] sig[i] == 0
}

/// `iroh::SecretKey::public`: the public key's 32 bytes.
#[verifier::external_body]
fn public_bytes(secret: &[u8; 32]) -> (r: [u8; 32])
    ensures
        r@ == public_key(secret@),
{
    *iroh::SecretKey::from_bytes(secret).public().as_bytes()
}

/// `iroh::SecretKey::sign`: the signature's 64 bytes. It holds by the secret key's
/// own public key, unless its nonce came out as the curve's neutral element, which
/// strict verification rejects.
#[verifier::external_body]
fn sign_bytes(secret: &[u8; 32], msg: &[u8]) -> (sig: [u8; 64])
    ensures
        sig@ == signature(secret@, msg@),
        !neutral_nonce(sig@) ==> verifies(public_key(secret@), msg@, sig@),
{
    iroh::SecretKey::from_bytes(secret).sign(msg).to_bytes()
}

/// `iroh::PublicKey::verify`: whether the signature holds. Bytes that are no public
/// key verify nothing.
#[verifier::external_body]
fn verify_bytes(key: &[u8; 32], msg: &[u8], sig: &[u8; 64]) -> (r: bool)
    ensures
        r == verifies(key@, msg@, sig@),
{
    match iroh::PublicKey::from_bytes(key) {
        Ok(k) => k.verify(msg, &iroh::Signature::from_bytes(sig)).is_ok(),
        Err(_) => false,
    }
}

/// A number in groups of seven bits, the least significant first; all but the last
/// are marked.
pub open spec fn varint(n: nat) -> Seq<u8>
    decreases n,
{
    if n < 128 {
        seq![n as u8]
    } else {
        seq![(n % 128 + 128) as u8] + varint(n / 128)
    }
}

/// The wire form of a body and its signature: the body's length, the body, and the
/// signature.
pub open spec fn envelope(body: Seq<u8>, sig: Seq<u8>) -> Seq<u8> {
    varint(body.len()) + body + sig
}

/// The body and the signature that a wire form holds, on a machine whose words have
/// this many bits: a length that does not fit one is refused.
pub uninterp spec fn unsealed(wire: Seq<u8>, word_bits: u32) -> Option<(Seq<u8>, Seq<u8>)>;

/// The body and the signature that a wire form holds.
pub open spec fn opened(wire: Seq<u8>) -> Option<(Seq<u8>, Seq<u8>)> {
    unsealed(wire, usize::BITS)
}

/// `postcard::to_allocvec` on a body and its signature: the length of the body as a
/// variable-length number, its bytes, and the signature's 64 bytes. What it makes
/// reads back as what went in.
#[verifier::external_body]
fn seal(body: &Vec<u8>, sig: &[u8; 64]) -> (wire: Vec<u8>)
    ensures
        wire@ == envelope(body@, sig@),
        unsealed(wire@, usize::BITS) == Some((body@, sig@)),
{
    postcard::to_allocvec(&(body, iroh::Signature::from_bytes(sig))).expect("vectors grow")
}

/// `postcard::from_bytes` into a body and its signature. The length in front of the
/// body is read as a machine word.
#[verifier::external_body]
fn unseal(wire: &[u8]) -> (r: Option<(Vec<u8>, [u8; 64])>)
    ensures
        match r {
            Some((body, sig)) => unsealed(wire@, usize::BITS) == Some((body@, sig@)),
            None => unsealed(wire@, usize::BITS) is None,
        },
{
    match postcard::from_bytes::<(Vec<u8>, iroh::Signature)>(wire) {
        Ok((body, sig)) => Some((body, sig.to_bytes())),
        Err(_) => None,
    }
}

/// Whether `tick` may be published as `wire` by the holder of `secret`.
pub open spec fn signs_to<E: Fn(&Tick) -> Option<Vec<u8>>>(
    encode: E,
    secret: Seq<u8>,
    tick: Tick,
    wire: Seq<u8>,
) -> bool {
    exists|body: Vec<u8>| #[trigger]
        call_ensures(encode, (&tick,), Some(body)) && wire == envelope(
            body@,
            signature(secret, body@),
        ) && opened(wire) == Some((body@, signature(secret, body@))) && (!neutral_nonce(
            signature(secret, body@),
        ) ==> verifies(public_key(secret), body@, signature(secret, body@)))
}

/// Whether `tick` is what the holder of `secret` reports.
pub open spec fn authored(
    tick: Tick,
    secret: Seq<u8>,
    seq: u64,
    ts: u64,
    stats: Seq<ProcInfo>,
) -> bool {
    tick.from.bytes@ == public_key(secret) && tick.seq == seq && tick.ts == ts && tick.stats@
        == stats
}

/// Whether these may be the bytes in which the holder of `secret` publishes what it
/// reports.
pub open spec fn signed<E: Fn(&Tick) -> Option<Vec<u8>>>(
    encode: E,
    secret: Seq<u8>,
    seq: u64,
    ts: u64,
    stats: Seq<ProcInfo>,
    wire: Seq<u8>,
) -> bool {
    exists|tick: Tick| #[trigger]
        authored(tick, secret, seq, ts, stats) && signs_to(encode, secret, tick, wire)
}

/// Whether what the holder of `secret` reports may be impossible to put into bytes.
pub open spec fn unsignable<E: Fn(&Tick) -> Option<Vec<u8>>>(
    encode: E,
    secret: Seq<u8>,
    seq: u64,
    ts: u64,
    stats: Seq<ProcInfo>,
) -> bool {
    exists|tick: Tick| #[trigger]
        authored(tick, secret, seq, ts, stats) && call_ensures(encode, (&tick,), None)
}

/// Puts a tick into bytes with `encode`, signs them as the holder of `secret`, and
/// makes the wire form. Who published it, when, and the count are under the
/// signature, so that none can be forged.
pub fn sign_tick<E: Fn(&Tick) -> Option<Vec<u8>>>(
    secret: &[u8; 32],
    seq: u64,
    ts: u64,
    stats: Vec<ProcInfo>,
    encode: E,
) -> (r: Result<Vec<u8>, TickError>)
    requires
        forall|t: &Tick| #[trigger] call_requires(encode, (t,)),
    ensures
        match r {
            Ok(wire) => signed(encode, secret@, seq, ts, stats@, wire@),
            Err(e) => e == TickError::Encode && unsignable(encode, secret@, seq, ts, stats@),
        },
{
    let tick = Tick { from: EndpointId { bytes: public_bytes(secret) }, seq, ts, stats };
    assert(authored(tick, secret@, seq, ts, stats@));
    match encode(&tick) {
        None => Err(TickError::Encode),
        Some(body) => {
            let sig = sign_bytes(secret, body.as_slice());
            let wire = seal(&body, &sig);
            assert(signs_to(encode, secret@, tick, wire@));
            Ok(wire)
        },
    }
}

/// Whether a body may be read as a tick of a publisher whose signature is not under
/// it.
pub open spec fn misattributed<D: Fn(&[u8]) -> Option<Tick>>(
    decode: D,
    body: Seq<u8>,
    sig: Seq<u8>,
) -> bool {
    exists|tick: Tick| #[trigger]
        crate::proto::decodes_to(decode, body, Some(tick)) && !verifies(
            tick.from.bytes@,
            body,
            sig,
        )
}

/// Whether `open_tick` may answer `r` for these bytes.
pub open spec fn opens_to<D: Fn(&[u8]) -> Option<Tick>>(
    decode: D,
    content: Seq<u8>,
    r: Result<Tick, TickError>,
) -> bool {
    match opened(content) {
        None => r == Err::<Tick, TickError>(TickError::Malformed),
        Some((body, sig)) => match r {
            Ok(tick) => crate::proto::decodes_to(decode, body, Some(tick)) && verifies(
                tick.from.bytes@,
                body,
                sig,
            ),
            Err(TickError::Malformed) => crate::proto::decodes_to(decode, body, None),
            Err(e) => e == TickError::Forged && misattributed(decode, body, sig),
        },
    }
}

/// Takes a tick from the wire: reads its body with `decode`, and accepts it only
/// if the signature under the body is that of the publisher named in it.
pub fn open_tick<D: Fn(&[u8]) -> Option<Tick>>(content: &[u8], decode: D) -> (r: Result<
    Tick,
    TickError,
>)
    requires
        forall|p: &[u8]| #[trigger] call_requires(decode, (p,)),
    ensures
        opens_to(decode, content@, r),
{
    let (body, sig) = match unseal(content) {
        Some(parts) => parts,
        None => {
            return Err(TickError::Malformed);
        },
    };
    let ghost parsed = (body@, sig@);
    assert(opened(content@) == Some(parsed));
    match decode(body.as_slice()) {
        None => {
            assert(crate::proto::decodes_to(decode, parsed.0, None));
            Err(TickError::Malformed)
        },
        Some(tick) => {
            assert(crate::proto::decodes_to(decode, parsed.0, Some(tick)));
            if verify_bytes(&tick.from.bytes, body.as_slice(), &sig) {
                Ok(tick)
            } else {
                assert(misattributed(decode, parsed.0, parsed.1));
                Err(TickError::Forged)
            }
        },
    }
}

/// A watcher opens what a publisher signed, and gets the very tick: its author,
/// count, time and contents. That holds by a codec that reads back, and of every
/// signature that strict verification does not reject for its nonce.
pub proof fn signed_ticks_open<
    E: Fn(&Tick) -> Option<Vec<u8>>,
    D: Fn(&[u8]) -> Option<Tick>,
>(
    encode: E,
    decode: D,
    secret: Seq<u8>,
    seq: u64,
    ts: u64,
    stats: Seq<ProcInfo>,
    wire: Seq<u8>,
    r: Result<Tick, TickError>,
)
    requires
        forall|t: Tick| #[trigger] crate::proto::reads_back(encode, decode, t),
        signed(encode, secret, seq, ts, stats, wire),
        opened(wire) matches Some((body, sig)) && !neutral_nonce(sig),
        opens_to(decode, wire, r),
    ensures
        r matches Ok(tick) && authored(tick, secret, seq, ts, stats),
{
    let tick = choose|tick: Tick| #[trigger]
        authored(tick, secret, seq, ts, stats) && signs_to(encode, secret, tick, wire);
    let body = choose|body: Vec<u8>| #[trigger]
        call_ensures(encode, (&tick,), Some(body)) && wire == envelope(
            body@,
            signature(secret, body@),
        ) && opened(wire) == Some((body@, signature(secret, body@))) && (!neutral_nonce(
            signature(secret, body@),
        ) ==> verifies(public_key(secret), body@, signature(secret, body@)));
    assert(crate::proto::encodes_to(encode, tick, body@));
    assert(crate::proto::reads_back(encode, decode, tick));
    match r {
        Ok(t) => {
            assert(crate::proto::decodes_to(decode, body@, Some(t)));
        },
        Err(TickError::Malformed) => {
            assert(crate::proto::decodes_to(decode, body@, None));
        },
        Err(_) => {
            let t = choose|t: Tick| #[trigger]
                crate::proto::decodes_to(decode, body@, Some(t)) && !verifies(
                    t.from.bytes@,
                    body@,
                    signature(secret, body@),
                );
            assert(crate::proto::decodes_to(decode, body@, Some(t)));
        },
    }
}

/// Whether a body can only be read as a tick of `author`, if as any.
pub open spec fn claims<D: Fn(&[u8]) -> Option<Tick>>(
    decode: D,
    body: Seq<u8>,
    author: EndpointId,
) -> bool {
    forall|tick: Tick| #[trigger]
        crate::proto::decodes_to(decode, body, Some(tick)) ==> tick.from == author
}

/// No tick is accepted in the name of a publisher whose signature is not under it:
/// one whose body claims to be from such a victim is an error.
pub proof fn forged_ticks_are_rejected<D: Fn(&[u8]) -> Option<Tick>>(
    decode: D,
    content: Seq<u8>,
    body: Seq<u8>,
    sig: Seq<u8>,
    victim: EndpointId,
    r: Result<Tick, TickError>,
)
    requires
        opened(content) == Some((body, sig)),
        !verifies(victim.bytes@, body, sig),
        opens_to(decode, content, r),
    ensures
        r matches Ok(tick) ==> tick.from != victim,
        claims(decode, body, victim) ==> r is Err,
{
}

/// One supervisor's side of the telemetry plane.
#[derive(Debug, Clone, Copy, PartialEq, Eq, Structural)]
pub struct Publisher {
    /// How many ticks it has made.
    pub seq: u64,
}

impl Publisher {
    /// A publisher that has made no tick yet.
    pub fn new() -> (p: Publisher)
        ensures
            p.seq == 0,
    {
        Publisher { seq: 0 }
    }

    /// The next tick to broadcast: none while there is nothing to report. Ticks
    /// are counted from 1.
    pub fn publish<E: Fn(&Tick) -> Option<Vec<u8>>>(
        &mut self,
        secret: &[u8; 32],
        ts: u64,
        stats: Vec<ProcInfo>,
        encode: E,
    ) -> (r: Option<Result<Vec<u8>, TickError>>)
        requires
            old(self).seq < u64::MAX,
            forall|t: &Tick| #[trigger] call_requires(encode, (t,)),
        ensures
            stats@.len() == 0 ==> r is None && *final(self) == *old(self),
            stats@.len() > 0 ==> final(self).seq == old(self).seq + 1 && match r {
                Some(Ok(wire)) => signed(
                    encode,
                    secret@,
                    (old(self).seq + 1) as u64,
                    ts,
                    stats@,
                    wire@,
                ),
                Some(Err(e)) => e == TickError::Encode && unsignable(
                    encode,
                    secret@,
                    (old(self).seq + 1) as u64,
                    ts,
                    stats@,
                ),
                None => false,
            },
    {
        if stats.len() == 0 {
            return None;
        }
        self.seq = self.seq + 1;
        Some(sign_tick(secret, self.seq, ts, stats, encode))
    }
}

/// How much CPU time a process used between two samples, and how long that took.
#[derive(Debug, Clone, Copy, PartialEq, Eq, Structural)]
pub struct CpuDelta {
    pub usec: u64,
    pub ms: u64,
}

/// What one sample of a process tells.
#[derive(Debug, Clone, Copy, PartialEq)]
pub struct Report {
    pub handle: Handle,
    pub pid: u32,
    pub state: ProcState,
    /// `None` without a usage sample.
    pub usage: Option<Usage>,
    /// `None` without an earlier sample to compare with.
    pub cpu: Option<CpuDelta>,
}

/// What two samples, of CPU time and time, tell: nothing if no time went by
/// between them.
pub open spec fn cpu_delta(before: (u64, u64), now: (u64, u64)) -> Option<CpuDelta> {
    if now.1 > before.1 {
        Some(
            CpuDelta {
                usec: if now.0 >= before.0 {
                    (now.0 - before.0) as u64
                } else {
                    0
                },
                ms: (now.1 - before.1) as u64,
            },
        )
    } else {
        None
    }
}

/// What a watcher reports of one process, given its last sample of each.
pub open spec fn report(
    prev: Map<ProcKey, (u64, u64)>,
    from: EndpointId,
    ts: u64,
    s: ProcInfo,
) -> Report {
    let key = ProcKey { node: from, handle: s.handle };
    Report {
        handle: s.handle,
        pid: s.pid,
        state: s.state,
        usage: s.usage,
        cpu: match s.usage {
            Some(u) => if prev.contains_key(key) {
                cpu_delta(prev[key], (u.cpu_usec, ts))
            } else {
                None
            },
            None => None,
        },
    }
}

/// The last samples once one process's is taken in.
pub open spec fn sampled(
    prev: Map<ProcKey, (u64, u64)>,
    from: EndpointId,
    ts: u64,
    s: ProcInfo,
) -> Map<ProcKey, (u64, u64)> {
    match s.usage {
        Some(u) => prev.insert(ProcKey { node: from, handle: s.handle }, (u.cpu_usec, ts)),
        None => prev,
    }
}

/// The last samples once a list of processes is taken in, one after the other.
pub open spec fn all_sampled(
    prev: Map<ProcKey, (u64, u64)>,
    from: EndpointId,
    ts: u64,
    stats: Seq<ProcInfo>,
) -> Map<ProcKey, (u64, u64)>
    decreases stats.len(),
{
    if stats.len() == 0 {
        prev
    } else {
        sampled(all_sampled(prev, from, ts, stats.drop_last()), from, ts, stats.last())
    }
}

/// What a watcher reports of a list of processes.
pub open spec fn reports(
    prev: Map<ProcKey, (u64, u64)>,
    from: EndpointId,
    ts: u64,
    stats: Seq<ProcInfo>,
) -> Seq<Report> {
    Seq::new(
        stats.len(),
        |i: int| report(all_sampled(prev, from, ts, stats.take(i)), from, ts, stats[i]),
    )
}

/// What a watcher knows.
pub struct WatcherView {
    /// The time of the last tick accepted from each publisher.
    pub latest: Map<EndpointId, u64>,
    /// The last CPU time of each process, and when it was sampled.
    pub prev: Map<ProcKey, (u64, u64)>,
    /// How far from now a tick may be.
    pub window: Duration,
}

impl WatcherView {
    /// Whether a tick is accepted: it is within the window, and newer than the
    /// last one accepted from its publisher.
    pub open spec fn accepts(self, from: EndpointId, ts: u64, now: u64) -> bool {
        within(ts, now, self.window) && (self.latest.contains_key(from) ==> ts > self.latest[from])
    }

    /// What the watcher knows once it has accepted a tick.
    pub open spec fn learned(self, tick: Tick) -> WatcherView {
        WatcherView {
            latest: self.latest.insert(tick.from, tick.ts),
            prev: all_sampled(self.prev, tick.from, tick.ts, tick.stats@),
            window: self.window,
        }
    }

    /// What the watcher knows once it has seen a tick at `now`.
    pub open spec fn saw(self, tick: Tick, now: u64) -> WatcherView {
        if self.accepts(tick.from, tick.ts, now) {
            self.learned(tick)
        } else {
            self
        }
    }
}

/// What becomes of a message from the topic.
#[derive(Debug)]
pub enum Received {
    /// It is no verified tick.
    Rejected(TickError),
    /// It is a tick, but outside the window or not newer than the last.
    Stale(Tick),
    /// It is a new tick, and this is what it tells of each process.
    Accepted(Tick, Vec<Report>),
}

/// A watcher of the telemetry topic.
#[derive(Debug)]
pub struct Watcher {
    latest: KeyMap<EndpointId, u64>,
    prev: KeyMap<ProcKey, (u64, u64)>,
    window: Duration,
}

impl View for Watcher {
    type V = WatcherView;

    closed spec fn view(&self) -> WatcherView {
        WatcherView { latest: self.latest@, prev: self.prev@, window: self.window }
    }
}

impl Watcher {
    pub closed spec fn wf(&self) -> bool {
        self.latest.wf() && self.prev.wf()
    }

    /// A watcher that has seen nothing yet and accepts ticks within `window`.
    pub fn new(window: Duration) -> (w: Watcher)
        ensures
            w.wf(),
            w@ == (WatcherView { latest: Map::empty(), prev: Map::empty(), window }),
    {
        Watcher { latest: KeyMap::new(), prev: KeyMap::new(), window }
    }

    /// Takes in one process of an accepted tick.
    fn sample(&mut self, from: EndpointId, ts: u64, s: &ProcInfo) -> (r: Report)
        requires
            old(self).wf(),
        ensures
            final(self).wf(),
            final(self)@ == (WatcherView {
                prev: sampled(old(self)@.prev, from, ts, *s),
                ..old(self)@
            }),
            r == report(old(self)@.prev, from, ts, *s),
    {
        let cpu = match s.usage {
            None => None,
            Some(u) => {
                let key = ProcKey { node: from, handle: s.handle };
                match self.prev.insert(key, (u.cpu_usec, ts)) {
                    None => None,
                    Some((usec, at)) => if ts > at {
                        let used: u64 = if u.cpu_usec >= usec {
                            u.cpu_usec - usec
                        } else {
                            0
                        };
                        Some(CpuDelta { usec: used, ms: ts - at })
                    } else {
                        None
                    },
                }
            },
        };
        Report { handle: s.handle, pid: s.pid, state: s.state, usage: s.usage, cpu }
    }

    /// Takes in a verified tick at `now`. A tick that is outside the window, or
    /// not newer than the last one accepted from its publisher, is dropped and
    /// leaves no trace.
    pub fn observe(&mut self, tick: &Tick, now: u64) -> (r: Option<Vec<Report>>)
        requires
            old(self).wf(),
        ensures
            final(self).wf(),
            final(self)@ == old(self)@.saw(*tick, now),
            match r {
                Some(v) => old(self)@.accepts(tick.from, tick.ts, now) && v@ == reports(
                    old(self)@.prev,
                    tick.from,
                    tick.ts,
                    tick.stats@,
                ),
                None => !old(self)@.accepts(tick.from, tick.ts, now),
            },
    {
        let ghost start = self@;
        let ghost stats = tick.stats@;
        if !fresh_within(tick.ts, now, self.window) {
            return None;
        }
        if let Some(last) = self.latest.get(&tick.from) {
            if tick.ts <= last {
                return None;
            }
        }
        self.latest.insert(tick.from, tick.ts);
        let mut v: Vec<Report> = Vec::new();
        let mut i: usize = 0;
        assert(stats.take(0) =~= Seq::<ProcInfo>::empty());
        while i < tick.stats.len()
            invariant
                i <= stats.len(),
                stats == tick.stats@,
                self.wf(),
                self@.latest == start.latest.insert(tick.from, tick.ts),
                self@.window == start.window,
                self@.prev == all_sampled(start.prev, tick.from, tick.ts, stats.take(i as int)),
                v@.len() == i,
                forall|j: int|
                    0 <= j < i ==> #[trigger] v@[j] == report(
                        all_sampled(start.prev, tick.from, tick.ts, stats.take(j)),
                        tick.from,
                        tick.ts,
                        stats[j],
                    ),
            decreases stats.len() - i,
        {
            let r = self.sample(tick.from, tick.ts, &tick.stats[i]);
            v.push(r);
            assert(stats.take(i + 1).drop_last() =~= stats.take(i as int));
            assert(stats.take(i + 1).last() == stats[i as int]);
            i = i + 1;
        }
        assert(stats.take(stats.len() as int) =~= stats);
        assert(v@ =~= reports(start.prev, tick.from, tick.ts, stats));
        Some(v)
    }

    /// Takes in a message from the topic at `now`.
    pub fn receive<D: Fn(&[u8]) -> Option<Tick>>(&mut self, content: &[u8], now: u64, decode: D) -> (r:
        Received)
        requires
            old(self).wf(),
            forall|p: &[u8]| #[trigger] call_requires(decode, (p,)),
        ensures
            final(self).wf(),
            match r {
                Received::Rejected(e) => opens_to(decode, content@, Err(e)) && final(self)@ == old(
                    self,
                )@,
                Received::Stale(tick) => opens_to(decode, content@, Ok(tick)) && !old(
                    self,
                )@.accepts(tick.from, tick.ts, now) && final(self)@ == old(self)@,
                Received::Accepted(tick, v) => {
                    &&& opens_to(decode, content@, Ok(tick))
                    &&& old(self)@.accepts(tick.from, tick.ts, now)
                    &&& final(self)@ == old(self)@.learned(tick)
                    &&& v@ == reports(old(self)@.prev, tick.from, tick.ts, tick.stats@)
                },
            },
    {
        match open_tick(content, decode) {
            Err(e) => Received::Rejected(e),
            Ok(tick) => match self.observe(&tick, now) {
                None => Received::Stale(tick),
                Some(v) => Received::Accepted(tick, v),
            },
        }
    }
}

/// What a watcher knows after a run of ticks, each seen at its own time.
pub open spec fn watched(w: WatcherView, ticks: Seq<Tick>, times: Seq<u64>) -> WatcherView
    decreases ticks.len(),
{
    if ticks.len() == 0 {
        w
    } else {
        watched(w, ticks.drop_last(), times.drop_last()).saw(ticks.last(), times.last())
    }
}

/// The time of the last tick accepted from a publisher never goes back, whatever
/// arrives in whatever order.
pub proof fn latest_never_goes_back(
    w: WatcherView,
    ticks: Seq<Tick>,
    times: Seq<u64>,
    from: EndpointId,
)
    requires
        ticks.len() == times.len(),
        w.latest.contains_key(from),
    ensures
        watched(w, ticks, times).latest.contains_key(from),
        watched(w, ticks, times).latest[from] >= w.latest[from],
    decreases ticks.len(),
{
    if ticks.len() > 0 {
        latest_never_goes_back(w, ticks.drop_last(), times.drop_last(), from);
    }
}

/// A tick that was accepted once is dropped ever after, however often it is
/// replayed, and so is every older one of the same publisher.
pub proof fn replays_are_dropped(
    w: WatcherView,
    tick: Tick,
    seen_at: u64,
    ticks: Seq<Tick>,
    times: Seq<u64>,
    replay: Tick,
    now: u64,
)
    requires
        w.accepts(tick.from, tick.ts, seen_at),
        ticks.len() == times.len(),
        replay.from == tick.from,
        replay.ts <= tick.ts,
    ensures
        ({
            let later = watched(w.saw(tick, seen_at), ticks, times);
            !later.accepts(replay.from, replay.ts, now) && later.saw(replay, now) == later
        }),
{
    latest_never_goes_back(w.saw(tick, seen_at), ticks, times, tick.from);
}

/// The CPU time that a watcher counts over a run of samples of one process.
pub open spec fn counted(samples: Seq<(u64, u64)>) -> int
    decreases samples.len(),
{
    if samples.len() <= 1 {
        0
    } else {
        counted(samples.drop_last()) + (match cpu_delta(
            samples[samples.len() - 2],
            samples.last(),
        ) {
            Some(d) => d.usec as int,
            None => 0,
        })
    }
}

/// Ticks carry totals, so that a dropped one loses nothing: however many of a
/// process's samples arrive, what is counted over them is the difference between
/// the last and the first.
pub proof fn dropped_ticks_lose_nothing(samples: Seq<(u64, u64)>)
    requires
        samples.len() > 0,
        forall|i: int, j: int|
            0 <= i < j < samples.len() ==> (#[trigger] samples[i]).0 <= (#[trigger] samples[j]).0
                && samples[i].1 < samples[j].1,
    ensures
        counted(samples) == samples.last().0 - samples[0].0,
    decreases samples.len(),
{
    if samples.len() > 1 {
        let before = samples.drop_last();
        assert forall|i: int, j: int| 0 <= i < j < before.len() implies (#[trigger] before[i]).0 <= (
        #[trigger] before[j]).0 && before[i].1 < before[j].1 by {
            assert(before[i] == samples[i] && before[j] == samples[j]);
        }
        dropped_ticks_lose_nothing(before);
        assert(before.last() == samples[samples.len() - 2]);
        assert(samples.last() == samples[samples.len() - 1]);
    }
}

} // verus!
