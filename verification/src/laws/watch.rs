//! The telemetry plane: what is published, what is believed, and what a watcher tells.

use vstd::prelude::*;

use crate::id::{EndpointId, ProcKey};
use crate::proto::{Handle, ProcInfo};
use crate::telemetry::{Publisher, Received, Report, Tick, TickError, Watcher};
use crate::time::Duration;

verus! {

/// Peers with the same secret meet on the same topic. Those without one meet on the
/// topic of a label that everybody knows.
pub proof fn topics_are_hashes(
    secret: &str,
    label: &str,
    a: [u8; 32],
    b: [u8; 32],
    c: [u8; 32],
)
    requires
        label@ == "p2p-telemtry/telemetry/1"@,
        call_ensures(crate::telemetry::topic_for, (Some(secret),), a),
        call_ensures(crate::telemetry::topic_for, (None,), b),
        call_ensures(crate::telemetry::topic_for, (Some(label),), c),
    ensures
        a@ == crate::telemetry::blake3_hash(vstd::utf8::encode_utf8(secret@)),
        b@ == c@,
{
}

/// A clock shows whole milliseconds since the epoch, rounded down, as long as they fit
/// into 64 bits; before the epoch it shows none.
pub proof fn clocks_show_milliseconds(d: Duration, a: u64, b: u64)
    requires
        call_ensures(crate::telemetry::now_millis, (Some(d),), a),
        call_ensures(crate::telemetry::now_millis, (None,), b),
        d.nanos < 0x1_0000_0000_0000_0000 * 1_000_000,
    ensures
        a * 1_000_000 <= d.nanos < (a + 1) * 1_000_000,
        b == 0,
{
}

/// A tick counts as fresh within ten seconds of now, before or after.
pub proof fn ticks_are_fresh_for_ten_seconds(ts: u64, now: u64, r: bool)
    requires
        call_ensures(crate::telemetry::fresh, (ts, now), r),
    ensures
        r <==> ts <= now + 10_000 && now <= ts + 10_000,
{
}

/// A tick is within a window of now if it is no further from it, before or after, than
/// the window is long in whole milliseconds.
pub proof fn windows_reach_both_ways(ts: u64, now: u64, window: Duration, r: bool)
    requires
        call_ensures(crate::telemetry::fresh_within, (ts, now, window), r),
    ensures
        r <==> (now - ts) * 1_000_000 <= window.nanos && (ts - now) * 1_000_000 <= window.nanos,
{
}

/// A publisher counts its ticks from one, and makes none while there is nothing to
/// report. What it makes opens as its own: its key, its count, the time and the
/// processes that it was given. That holds by a codec that reads back, and of every
/// signature that strict verification does not reject for its nonce.
pub proof fn published_ticks_open<
    E: Fn(&Tick) -> Option<Vec<u8>>,
    D: Fn(&[u8]) -> Option<Tick>,
>(
    p: &mut Publisher,
    first: Publisher,
    secret: [u8; 32],
    ts: u64,
    stats: Vec<ProcInfo>,
    encode: E,
    r: Option<Result<Vec<u8>, TickError>>,
    content: &[u8],
    decode: D,
    o: Result<Tick, TickError>,
)
    requires
        call_ensures(Publisher::new, (), first),
        old(p).seq < u64::MAX,
        call_ensures(Publisher::publish::<E>, (p, &secret, ts, stats, encode), r),
        forall|t: Tick| #[trigger] crate::proto::reads_back(encode, decode, t),
        call_ensures(crate::telemetry::open_tick::<D>, (content, decode), o),
    ensures
        first.seq == 0,
        r is None <==> stats@.len() == 0,
        final(p).seq == old(p).seq + (if stats@.len() == 0 {
            0int
        } else {
            1
        }),
        r matches Some(Err(e)) ==> e is Encode,
        r matches Some(Ok(wire)) && content@ == wire@
            && (crate::telemetry::opened(wire@) matches Some((body, sig)) && !(sig[0] == 1
            && forall|i: int| 1 <= i < 32 ==> #[trigger] sig[i] == 0)) ==> {
            &&& o is Ok
            &&& o->Ok_0.from.bytes@ == crate::telemetry::public_key(secret@)
            &&& o->Ok_0.seq == old(p).seq + 1
            &&& o->Ok_0.ts == ts
            &&& o->Ok_0.stats@ == stats@
        },
{
    if let Some(Ok(wire)) = r {
        if content@ == wire@ && (crate::telemetry::opened(wire@) matches Some((body, sig)) && !(
        sig[0] == 1 && forall|i: int| 1 <= i < 32 ==> #[trigger] sig[i] == 0)) {
            crate::telemetry::signed_ticks_open(
                encode,
                decode,
                secret@,
                (old(p).seq + 1) as u64,
                ts,
                stats@,
                wire@,
                o,
            );
        }
    }
}

/// What a key's holder signs opens as that holder's, with the count, the time and the
/// processes that went in.
pub proof fn signed_ticks_are_opened<
    E: Fn(&Tick) -> Option<Vec<u8>>,
    D: Fn(&[u8]) -> Option<Tick>,
>(
    secret: [u8; 32],
    seq: u64,
    ts: u64,
    stats: Vec<ProcInfo>,
    encode: E,
    wire: Vec<u8>,
    content: &[u8],
    decode: D,
    o: Result<Tick, TickError>,
)
    requires
        call_ensures(
            crate::telemetry::sign_tick::<E>,
            (&secret, seq, ts, stats, encode),
            Ok(wire),
        ),
        forall|t: Tick| #[trigger] crate::proto::reads_back(encode, decode, t),
        content@ == wire@,
        call_ensures(crate::telemetry::open_tick::<D>, (content, decode), o),
        crate::telemetry::opened(wire@) matches Some((body, sig)) && !(sig[0] == 1 && forall|i: int|
            1 <= i < 32 ==> #[trigger] sig[i] == 0),
    ensures
        o is Ok,
        o->Ok_0.from.bytes@ == crate::telemetry::public_key(secret@),
        o->Ok_0.seq == seq,
        o->Ok_0.ts == ts,
        o->Ok_0.stats@ == stats@,
{
    crate::telemetry::signed_ticks_open(encode, decode, secret@, seq, ts, stats@, wire@, o);
}

/// No tick is believed that is not signed by the publisher that it names: the
/// signature in the message verifies the very bytes that the tick is read from by that
/// publisher's key. What holds no body and signature is no tick.
pub proof fn believed_ticks_are_signed<D: Fn(&[u8]) -> Option<Tick>>(
    content: &[u8],
    decode: D,
    o: Result<Tick, TickError>,
)
    requires
        call_ensures(crate::telemetry::open_tick::<D>, (content, decode), o),
    ensures
        crate::telemetry::opened(content@) is None ==> o == Err::<Tick, TickError>(
            TickError::Malformed,
        ),
        o matches Ok(tick) ==> (crate::telemetry::opened(content@) matches Some((body, sig))
            && crate::telemetry::verifies(tick.from.bytes@, body, sig) && exists|p: &[u8]|
            p@ == body && #[trigger] call_ensures(decode, (p,), Some(tick))),
        o matches Err(e) ==> e is Malformed || e is Forged,
{
}

/// A tick that is read and signed by whom it names is believed.
pub proof fn signed_ticks_are_believed<D: Fn(&[u8]) -> Option<Tick>>(
    content: &[u8],
    decode: D,
    body: Seq<u8>,
    sig: Seq<u8>,
    tick: Tick,
    o: Result<Tick, TickError>,
)
    requires
        call_ensures(crate::telemetry::open_tick::<D>, (content, decode), o),
        crate::telemetry::opened(content@) == Some((body, sig)),
        forall|p: &[u8], out: Option<Tick>|
            p@ == body && #[trigger] call_ensures(decode, (p,), out) ==> out == Some(tick),
    ensures
        crate::telemetry::verifies(tick.from.bytes@, body, sig) ==> o == Ok::<Tick, TickError>(
            tick,
        ),
        !crate::telemetry::verifies(tick.from.bytes@, body, sig) ==> o == Err::<Tick, TickError>(
            TickError::Forged,
        ),
{
    match o {
        Ok(t) => {
            assert(crate::proto::decodes_to(decode, body, Some(t)));
            let p = choose|p: &[u8]| p@ == body && #[trigger] call_ensures(decode, (p,), Some(t));
        },
        Err(TickError::Malformed) => {
            assert(crate::proto::decodes_to(decode, body, None));
            let p = choose|p: &[u8]|
                p@ == body && #[trigger] call_ensures(decode, (p,), None::<Tick>);
        },
        Err(_) => {
            let t = choose|t: Tick| #[trigger]
                crate::proto::decodes_to(decode, body, Some(t)) && !crate::telemetry::verifies(
                    t.from.bytes@,
                    body,
                    sig,
                );
            let p = choose|p: &[u8]| p@ == body && #[trigger] call_ensures(decode, (p,), Some(t));
        },
    }
}

/// The CPU time in the last sample of `h` among these processes.
pub open spec fn sample_in(stats: Seq<ProcInfo>, h: Handle) -> Option<u64>
    decreases stats.len(),
{
    if stats.len() == 0 {
        None
    } else if stats.last().handle == h && stats.last().usage is Some {
        Some(stats.last().usage->0.cpu_usec)
    } else {
        sample_in(stats.drop_last(), h)
    }
}

/// The CPU time and the time of the last sample, among the ticks that a watcher told
/// something of, of process `h` of the node `from`.
pub open spec fn last_sample(
    ticks: Seq<Tick>,
    told: Seq<Option<Vec<Report>>>,
    from: EndpointId,
    h: Handle,
) -> Option<(u64, u64)>
    decreases ticks.len(),
{
    if ticks.len() == 0 {
        None
    } else {
        let tick = ticks.last();
        if told.last() is Some && tick.from == from && sample_in(tick.stats@, h) is Some {
            Some((sample_in(tick.stats@, h)->0, tick.ts))
        } else {
            last_sample(ticks.drop_last(), told.drop_last(), from, h)
        }
    }
}

/// Whether some tick of `from` was told of.
pub open spec fn heard_of(
    ticks: Seq<Tick>,
    told: Seq<Option<Vec<Report>>>,
    from: EndpointId,
) -> bool {
    exists|k: int|
        0 <= k < ticks.len() && (#[trigger] ticks[k]).from == from && told[k] is Some
}

/// Whether `ts` is the time of the newest tick of `from` that was told of.
pub open spec fn newest(
    ticks: Seq<Tick>,
    told: Seq<Option<Vec<Report>>>,
    from: EndpointId,
    ts: u64,
) -> bool {
    &&& exists|k: int|
        0 <= k < ticks.len() && (#[trigger] ticks[k]).from == from && told[k] is Some
            && ticks[k].ts == ts
    &&& forall|k: int|
        0 <= k < ticks.len() && (#[trigger] ticks[k]).from == from && told[k] is Some
            ==> ticks[k].ts <= ts
}

/// The last samples of a tick's processes replace those of the same processes, and no
/// others.
proof fn lemma_samples(
    prev: Map<ProcKey, (u64, u64)>,
    from: EndpointId,
    ts: u64,
    stats: Seq<ProcInfo>,
    key: ProcKey,
)
    ensures
        ({
            let now = crate::telemetry::all_sampled(prev, from, ts, stats);
            if key.node == from && sample_in(stats, key.handle) is Some {
                now.contains_key(key) && now[key] == (sample_in(stats, key.handle)->0, ts)
            } else {
                now.contains_key(key) == prev.contains_key(key) && (prev.contains_key(key)
                    ==> now[key] == prev[key])
            }
        }),
    decreases stats.len(),
{
    if stats.len() > 0 {
        lemma_samples(prev, from, ts, stats.drop_last(), key);
    }
}

/// What a watcher holds before the last tick of a run is the last sample of each
/// process, and the time of the newest tick of each node.
proof fn lemma_watched(
    ms: Seq<&mut Watcher>,
    window: Duration,
    ticks: Seq<Tick>,
    times: Seq<u64>,
    told: Seq<Option<Vec<Report>>>,
    from: EndpointId,
    h: Handle,
)
    requires
        0 < ticks.len() == ms.len(),
        times.len() == ms.len(),
        told.len() == ms.len(),
        call_ensures(Watcher::new, (window,), *ms[0]),
        forall|i: int|
            0 <= i < ms.len() ==> call_ensures(
                Watcher::observe,
                (#[trigger] ms[i], &ticks[i], times[i]),
                told[i],
            ),
        forall|i: int| 0 <= i < ms.len() - 1 ==> *final(#[trigger] ms[i]) == *ms[i + 1],
    ensures
        ({
            let now = (*ms.last())@;
            let key = ProcKey { node: from, handle: h };
            let t = ticks.drop_last();
            let r = told.drop_last();
            &&& now.window == window
            &&& now.prev.contains_key(key) <==> last_sample(t, r, from, h) is Some
            &&& last_sample(t, r, from, h) matches Some(s) ==> now.prev[key] == s
                && now.latest.contains_key(from) && s.1 <= now.latest[from]
            &&& now.latest.contains_key(from) <==> heard_of(t, r, from)
            &&& now.latest.contains_key(from) ==> newest(t, r, from, now.latest[from])
        }),
    decreases ticks.len(),
{
    let t = ticks.drop_last();
    let r = told.drop_last();
    let n = ms.len() - 1;
    if n > 0 {
        let ms0 = ms.drop_last();
        let tm0 = times.drop_last();
        assert forall|i: int| 0 <= i < ms0.len() implies call_ensures(
            Watcher::observe,
            (#[trigger] ms0[i], &t[i], tm0[i]),
            r[i],
        ) by {
            assert(ms0[i] == ms[i]);
        }
        assert forall|i: int| 0 <= i < ms0.len() - 1 implies *final(#[trigger] ms0[i]) == *ms0[i
            + 1] by {
            assert(ms0[i] == ms[i]);
        }
        lemma_watched(ms0, window, t, tm0, r, from, h);
        let k0 = n - 1;
        let tick = ticks[k0];
        let m = ms[k0];
        assert(ms0.last() == m);
        assert(t.last() == tick && r.last() == told[k0]);
        assert(call_ensures(Watcher::observe, (ms[k0], &ticks[k0], times[k0]), told[k0]));
        assert(*final(ms[k0]) == *ms[n]);
        assert(ms.last() == ms[n]);
        let was = (*m)@;
        let now = (*ms[n])@;
        let key = ProcKey { node: from, handle: h };
        lemma_samples(was.prev, tick.from, tick.ts, tick.stats@, key);
        let pt = t.drop_last();
        let pr = r.drop_last();
        if heard_of(pt, pr, from) {
            let k = choose|k: int|
                0 <= k < pt.len() && (#[trigger] pt[k]).from == from && pr[k] is Some && pt[k].ts
                    == was.latest[from];
            assert(t[k].from == from && r[k] is Some && t[k].ts == was.latest[from]);
        }
        if tick.from == from && told[k0] is Some {
            assert(t[k0].from == from && r[k0] is Some && t[k0].ts == tick.ts);
        }
        if heard_of(t, r, from) {
            let k = choose|k: int|
                0 <= k < t.len() && (#[trigger] t[k]).from == from && r[k] is Some;
            if k < k0 {
                assert(pt[k] == t[k] && pr[k] == r[k]);
            }
        }
        assert forall|k: int|
            0 <= k < t.len() && (#[trigger] t[k]).from == from && r[k] is Some implies t[k].ts
            <= now.latest[from] by {
            if k < k0 {
                assert(pt[k] == t[k] && pr[k] == r[k]);
            }
        }
    } else {
        assert(t =~= Seq::<Tick>::empty());
    }
}

/// In any run of ticks that a new watcher is shown, one is believed if and only if it
/// is within the window and newer than every tick that was believed of the same node
/// before; one that is not believed leaves no trace.
pub proof fn only_new_ticks_are_believed(
    ms: Seq<&mut Watcher>,
    window: Duration,
    ticks: Seq<Tick>,
    times: Seq<u64>,
    told: Seq<Option<Vec<Report>>>,
)
    requires
        0 < ticks.len() == ms.len(),
        times.len() == ms.len(),
        told.len() == ms.len(),
        call_ensures(Watcher::new, (window,), *ms[0]),
        forall|i: int|
            0 <= i < ms.len() ==> call_ensures(
                Watcher::observe,
                (#[trigger] ms[i], &ticks[i], times[i]),
                told[i],
            ),
        forall|i: int| 0 <= i < ms.len() - 1 ==> *final(#[trigger] ms[i]) == *ms[i + 1],
    ensures
        ({
            let n = ms.len() - 1;
            let tick = ticks[n];
            let now = times[n];
            &&& told[n] is Some <==> {
                &&& (now - tick.ts) * 1_000_000 <= window.nanos
                &&& (tick.ts - now) * 1_000_000 <= window.nanos
                &&& forall|k: int|
                    0 <= k < n && (#[trigger] ticks[k]).from == tick.from && told[k] is Some
                        ==> ticks[k].ts < tick.ts
            }
            &&& told[n] is None ==> (*final(ms[n]))@ == (*ms[n])@
        }),
{
    let n = ms.len() - 1;
    let tick = ticks[n];
    let t = ticks.drop_last();
    let r = told.drop_last();
    lemma_watched(ms, window, ticks, times, told, tick.from, 0);
    assert(call_ensures(Watcher::observe, (ms[n], &ticks[n], times[n]), told[n]));
    let was = (*ms[n])@;
    if was.latest.contains_key(tick.from) {
        let k = choose|k: int|
            0 <= k < t.len() && (#[trigger] t[k]).from == tick.from && r[k] is Some && t[k].ts
                == was.latest[tick.from];
        assert(ticks[k].from == tick.from && told[k] is Some);
        assert forall|k: int|
            0 <= k < n && (#[trigger] ticks[k]).from == tick.from && told[k] is Some implies ticks[k].ts
            <= was.latest[tick.from] by {
            assert(t[k] == ticks[k] && r[k] == told[k]);
        }
    } else {
        assert forall|k: int|
            0 <= k < n && (#[trigger] ticks[k]).from == tick.from && told[k] is Some implies ticks[k].ts
            < tick.ts by {
            assert(t[k] == ticks[k] && r[k] == told[k]);
        }
    }
}

/// A watcher tells of every process of a tick, in order, what the tick says of it.
pub proof fn watchers_tell_what_ticks_say(
    m: &mut Watcher,
    tick: Tick,
    now: u64,
    v: Vec<Report>,
    i: int,
)
    requires
        call_ensures(Watcher::observe, (m, &tick, now), Some(v)),
        0 <= i < tick.stats@.len(),
    ensures
        v@.len() == tick.stats@.len(),
        v@[i].handle == tick.stats@[i].handle,
        v@[i].pid == tick.stats@[i].pid,
        v@[i].state == tick.stats@[i].state,
        v@[i].usage == tick.stats@[i].usage,
        v@[i].cpu is Some ==> tick.stats@[i].usage is Some,
{
}

/// In any run of ticks that a new watcher is shown, the CPU figure of a process is the
/// difference, in CPU time and in time, between its sample in this tick and the last
/// one that was believed of the same process of the same node. There is a figure
/// whenever there is such an earlier sample, and no other process and no other node has
/// a part in it. A process that a tick names twice is compared once.
pub proof fn cpu_figures_compare_a_process_with_itself(
    ms: Seq<&mut Watcher>,
    window: Duration,
    ticks: Seq<Tick>,
    times: Seq<u64>,
    told: Seq<Option<Vec<Report>>>,
    i: int,
)
    requires
        0 < ticks.len() == ms.len(),
        times.len() == ms.len(),
        told.len() == ms.len(),
        call_ensures(Watcher::new, (window,), *ms[0]),
        forall|i: int|
            0 <= i < ms.len() ==> call_ensures(
                Watcher::observe,
                (#[trigger] ms[i], &ticks[i], times[i]),
                told[i],
            ),
        forall|i: int| 0 <= i < ms.len() - 1 ==> *final(#[trigger] ms[i]) == *ms[i + 1],
        told.last() is Some,
        0 <= i < ticks.last().stats@.len(),
        ticks.last().stats@[i].usage is Some,
    ensures
        ({
            let tick = ticks.last();
            let h = tick.stats@[i].handle;
            let cpu = told.last()->0@[i].cpu;
            let used = tick.stats@[i].usage->0.cpu_usec;
            let again = exists|j: int|
                0 <= j < i && (#[trigger] tick.stats@[j]).handle == h && tick.stats@[j].usage is Some;
            match last_sample(ticks.drop_last(), told.drop_last(), tick.from, h) {
                None => cpu is None,
                Some((before, at)) => {
                    &&& cpu is Some <==> !again
                    &&& cpu is Some ==> {
                        &&& at + cpu->0.ms == tick.ts
                        &&& cpu->0.ms > 0
                        &&& before <= used ==> before + cpu->0.usec == used
                        &&& before > used ==> cpu->0.usec == 0
                    }
                },
            }
        }),
{
    let n = ms.len() - 1;
    let tick = ticks[n];
    let h = tick.stats@[i].handle;
    let key = ProcKey { node: tick.from, handle: h };
    lemma_watched(ms, window, ticks, times, told, tick.from, h);
    assert(call_ensures(Watcher::observe, (ms[n], &ticks[n], times[n]), told[n]));
    let was = (*ms[n])@;
    let head = tick.stats@.take(i);
    assert forall|j: int| 0 <= j < head.len() implies #[trigger] head[j] == tick.stats@[j] by {}
    lemma_sample_in(head, h);
    if exists|j: int| 0 <= j < i && (#[trigger] tick.stats@[j]).handle == h && tick.stats@[j].usage
        is Some {
        let j = choose|j: int|
            0 <= j < i && (#[trigger] tick.stats@[j]).handle == h && tick.stats@[j].usage is Some;
        assert(head[j].handle == h);
    }
    lemma_samples(was.prev, tick.from, tick.ts, head, key);
    assert(told[n]->0@[i] == crate::telemetry::report(
        crate::telemetry::all_sampled(was.prev, tick.from, tick.ts, head),
        tick.from,
        tick.ts,
        tick.stats@[i],
    ));
}

/// A process has a sample in a list if and only if the list holds one.
proof fn lemma_sample_in(stats: Seq<ProcInfo>, h: Handle)
    ensures
        sample_in(stats, h) is Some <==> exists|j: int|
            0 <= j < stats.len() && (#[trigger] stats[j]).handle == h && stats[j].usage is Some,
    decreases stats.len(),
{
    if stats.len() > 0 {
        let r = stats.drop_last();
        let n = stats.len() - 1;
        lemma_sample_in(r, h);
        assert(stats[n] == stats.last());
        if sample_in(r, h) is Some {
            let j = choose|j: int|
                0 <= j < r.len() && (#[trigger] r[j]).handle == h && r[j].usage is Some;
            assert(stats[j].handle == h);
        }
        if exists|j: int|
            0 <= j < stats.len() && (#[trigger] stats[j]).handle == h && stats[j].usage is Some {
            let j = choose|j: int|
                0 <= j < stats.len() && (#[trigger] stats[j]).handle == h && stats[j].usage is Some;
            if j < n {
                assert(r[j] == stats[j]);
            }
        }
    }
}

/// Whatever can be put into bytes is signed and published.
pub proof fn what_can_be_told_is_published<E: Fn(&Tick) -> Option<Vec<u8>>>(
    p: &mut Publisher,
    secret: [u8; 32],
    seq: u64,
    ts: u64,
    stats: Vec<ProcInfo>,
    encode: E,
    w: Result<Vec<u8>, TickError>,
    r: Option<Result<Vec<u8>, TickError>>,
)
    requires
        old(p).seq < u64::MAX,
        call_ensures(crate::telemetry::sign_tick::<E>, (&secret, seq, ts, stats, encode), w),
        call_ensures(Publisher::publish::<E>, (p, &secret, ts, stats, encode), r),
        forall|t: Tick| !#[trigger] call_ensures(encode, (&t,), None::<Vec<u8>>),
    ensures
        w is Ok,
        stats@.len() > 0 ==> r is Some && r->0 is Ok,
{
    if w is Err {
        let t = choose|t: Tick| #[trigger]
            crate::telemetry::authored(t, secret@, seq, ts, stats@) && call_ensures(
                encode,
                (&t,),
                None,
            );
    }
    if r is Some && r->0 is Err {
        let t = choose|t: Tick| #[trigger]
            crate::telemetry::authored(
                t,
                secret@,
                (old(p).seq + 1) as u64,
                ts,
                stats@,
            ) && call_ensures(encode, (&t,), None);
    }
}

/// A message is turned down if and only if it holds no tick that its publisher signed;
/// otherwise that very tick is told of or dropped.
pub proof fn signed_messages_are_taken<D: Fn(&[u8]) -> Option<Tick>>(
    m: &mut Watcher,
    content: &[u8],
    now: u64,
    decode: D,
    body: Seq<u8>,
    sig: Seq<u8>,
    tick: Option<Tick>,
    r: Received,
)
    requires
        call_ensures(Watcher::receive::<D>, (m, content, now, decode), r),
        crate::telemetry::opened(content@) == Some((body, sig)),
        forall|p: &[u8], out: Option<Tick>|
            p@ == body && #[trigger] call_ensures(decode, (p,), out) ==> out == tick,
    ensures
        tick is None ==> r == Received::Rejected(TickError::Malformed),
        tick matches Some(t) ==> {
            let good = crate::telemetry::verifies(t.from.bytes@, body, sig);
            &&& !good ==> r == Received::Rejected(TickError::Forged)
            &&& good ==> !(r is Rejected)
            &&& r matches Received::Stale(u) ==> u == t
            &&& r matches Received::Accepted(u, v) ==> u == t
        },
{
    assert forall|out: Option<Tick>| #[trigger]
        crate::proto::decodes_to(decode, body, out) implies out == tick by {
        let p = choose|p: &[u8]| p@ == body && #[trigger] call_ensures(decode, (p,), out);
    }
    match r {
        Received::Rejected(TickError::Malformed) => {
            assert(crate::proto::decodes_to(decode, body, None));
        },
        Received::Rejected(_) => {
            let t = choose|t: Tick| #[trigger]
                crate::proto::decodes_to(decode, body, Some(t)) && !crate::telemetry::verifies(
                    t.from.bytes@,
                    body,
                    sig,
                );
        },
        Received::Stale(t) => {
            assert(crate::proto::decodes_to(decode, body, Some(t)));
        },
        Received::Accepted(t, v) => {
            assert(crate::proto::decodes_to(decode, body, Some(t)));
        },
    }
}

/// What is received is opened and then observed: a message that is no verified tick is
/// turned down and changes nothing, a verified tick is told of if it is believed, and
/// dropped without a trace if it is not.
pub proof fn messages_are_opened_and_observed<D: Fn(&[u8]) -> Option<Tick>>(
    m: &mut Watcher,
    content: &[u8],
    now: u64,
    decode: D,
    r: Received,
)
    requires
        call_ensures(Watcher::receive::<D>, (m, content, now, decode), r),
    ensures
        crate::telemetry::opened(content@) is None ==> r is Rejected,
        !(r is Accepted) ==> final(m)@ == old(m)@,
        r is Accepted || r is Stale ==> {
            let tick = if r is Accepted {
                r->Accepted_0
            } else {
                r->Stale_0
            };
            let close = (now - tick.ts) * 1_000_000 <= old(m)@.window.nanos && (tick.ts - now)
                * 1_000_000 <= old(m)@.window.nanos;
            let newer = !old(m)@.latest.contains_key(tick.from) || tick.ts
                > old(m)@.latest[tick.from];
            &&& r is Accepted <==> close && newer
            &&& crate::telemetry::opened(content@) matches Some((body, sig))
                && crate::telemetry::verifies(tick.from.bytes@, body, sig)
        },
        r matches Received::Accepted(tick, v) ==> {
            &&& final(m)@.latest == old(m)@.latest.insert(tick.from, tick.ts)
            &&& final(m)@.window == old(m)@.window
            &&& v@.len() == tick.stats@.len()
            &&& forall|i: int|
                0 <= i < v@.len() ==> {
                    let s = tick.stats@[i];
                    (#[trigger] v@[i]).handle == s.handle && v@[i].pid == s.pid && v@[i].state
                        == s.state && v@[i].usage == s.usage
                }
        },
        r matches Received::Rejected(e) ==> e is Malformed || e is Forged,
{
}

/// A tick that is received is told of as if it had been opened and then observed.
pub proof fn receiving_is_observing<D: Fn(&[u8]) -> Option<Tick>>(
    m: &mut Watcher,
    content: &[u8],
    now: u64,
    decode: D,
    tick: Tick,
    v: Vec<Report>,
    n: &mut Watcher,
    r: Option<Vec<Report>>,
)
    requires
        call_ensures(
            Watcher::receive::<D>,
            (m, content, now, decode),
            Received::Accepted(tick, v),
        ),
        old(n)@ == old(m)@,
        call_ensures(Watcher::observe, (n, &tick, now), r),
    ensures
        r is Some,
        r->0@ == v@,
        final(n)@ == final(m)@,
{
}

} // verus!
