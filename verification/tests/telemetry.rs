//! Ticks: topic, freshness, signatures, and what a watcher makes of them.

use mesh_supervisor::cli::mem_str;
use mesh_supervisor::id::EndpointId;
use mesh_supervisor::proto::{ProcInfo, ProcState, Usage};
use mesh_supervisor::telemetry::{
    fresh, fresh_within, now_millis, open_tick, sign_tick, topic_for, CpuDelta, Publisher,
    Received, Tick, TickError, Watcher, MAX_TICK_AGE_MS,
};
use mesh_supervisor::time::Duration;

type Stat = (u64, u32, (u8, Option<i32>), Option<(u64, u64)>, u32);
type Wire = ([u8; 32], u64, u64, Vec<Stat>);

fn encode(t: &Tick) -> Option<Vec<u8>> {
    let stats: Vec<Stat> = t
        .stats
        .iter()
        .map(|s| {
            let state = match s.state {
                ProcState::Running => (0, None),
                ProcState::Exited(code) => (1, code),
                ProcState::Stale => (2, None),
            };
            (
                s.handle,
                s.pid,
                state,
                s.usage.map(|u| (u.mem_bytes, u.cpu_usec)),
                s.restarts,
            )
        })
        .collect();
    let wire: Wire = (t.from.bytes, t.seq, t.ts, stats);
    postcard::to_allocvec(&wire).ok()
}

fn decode(bytes: &[u8]) -> Option<Tick> {
    let (from, seq, ts, stats): Wire = postcard::from_bytes(bytes).ok()?;
    let stats = stats
        .into_iter()
        .map(|(handle, pid, state, usage, restarts)| ProcInfo {
            handle,
            pid,
            state: match state {
                (0, _) => ProcState::Running,
                (1, code) => ProcState::Exited(code),
                _ => ProcState::Stale,
            },
            usage: usage.map(|(mem_bytes, cpu_usec)| Usage {
                mem_bytes,
                cpu_usec,
            }),
            restarts,
        })
        .collect();
    Some(Tick {
        from: EndpointId { bytes: from },
        seq,
        ts,
        stats,
    })
}

fn running(handle: u64, usage: Option<Usage>) -> ProcInfo {
    ProcInfo {
        handle,
        pid: 42,
        state: ProcState::Running,
        usage,
        restarts: 0,
    }
}

fn used(mem_bytes: u64, cpu_usec: u64) -> Option<Usage> {
    Some(Usage {
        mem_bytes,
        cpu_usec,
    })
}

fn tick(from: u8, ts: u64, stats: Vec<ProcInfo>) -> Tick {
    Tick {
        from: EndpointId { bytes: [from; 32] },
        seq: 1,
        ts,
        stats,
    }
}

#[test]
fn topic_secret_changes_and_is_stable() {
    assert_eq!(topic_for(Some("hunter2")), topic_for(Some("hunter2")));
    assert_ne!(topic_for(Some("hunter2")), topic_for(Some("other")));
    assert_ne!(topic_for(Some("hunter2")), topic_for(None));
}

#[test]
fn topics_are_hashes_of_their_labels() {
    assert_eq!(
        topic_for(None),
        *blake3::hash(b"p2p-telemtry/telemetry/1").as_bytes()
    );
    assert_eq!(topic_for(Some("")), *blake3::hash(b"").as_bytes());
}

#[test]
fn fresh_window_rejects_old_and_far_future() {
    let now = 1_000_000;
    assert!(fresh(now, now));
    assert!(fresh(now - MAX_TICK_AGE_MS, now)); // within window (past)
    assert!(fresh(now + MAX_TICK_AGE_MS, now)); // within window (skew ahead)
    assert!(!fresh(now - MAX_TICK_AGE_MS - 1, now)); // too old → replay
    assert!(!fresh(now + MAX_TICK_AGE_MS + 1, now)); // too far ahead
}

#[test]
fn the_window_can_be_configured() {
    let window = Duration {
        nanos: 250_999_999,
    };
    assert!(fresh_within(1_000, 1_250, window));
    assert!(fresh_within(1_250, 1_000, window));
    assert!(!fresh_within(1_000, 1_251, window));
    assert!(!fresh_within(u64::MAX, 0, window));
}

#[test]
fn the_clock_is_read_in_milliseconds() {
    assert_eq!(now_millis(None), 0);
    assert_eq!(
        now_millis(Some(Duration {
            nanos: 1_999_999
        })),
        1
    );
    assert_eq!(now_millis(Some(Duration::from_secs(3))), 3_000);
}

#[test]
fn signed_tick_roundtrips_and_rejects_forgery() {
    let sk = iroh::SecretKey::generate();
    let stats = vec![running(1, None)];

    let wire = sign_tick(&sk.to_bytes(), 1, 99, stats.clone(), encode).unwrap();
    let tick = open_tick(&wire, decode).unwrap();
    assert_eq!(tick.from.bytes, *sk.public().as_bytes());
    assert_eq!(tick.stats, stats);
    assert_eq!((tick.seq, tick.ts), (1, 99));

    // Forge: claim a victim's id but sign with a different key → rejected.
    let victim = iroh::SecretKey::generate().public();
    let body = encode(&Tick {
        from: EndpointId {
            bytes: *victim.as_bytes(),
        },
        seq: 1,
        ts: 0,
        stats: vec![],
    })
    .unwrap();
    let sig = iroh::SecretKey::generate().sign(&body);
    let forged = postcard::to_allocvec(&(body, sig)).unwrap();
    assert_eq!(
        open_tick(&forged, decode),
        Err(TickError::Forged),
        "forged tick must be rejected"
    );
}

#[test]
fn the_wire_form_is_the_body_and_its_signature() {
    let sk = iroh::SecretKey::from_bytes(&[5; 32]);
    let wire = sign_tick(&[5; 32], 3, 7, vec![], encode).unwrap();
    let (body, sig): (Vec<u8>, iroh::Signature) = postcard::from_bytes(&wire).unwrap();
    assert!(sk.public().verify(&body, &sig).is_ok());
    assert_eq!(decode(&body).unwrap().seq, 3);

    // A short body's length takes one byte, a longer one's two, the low bits first.
    let wire = sign_tick(&[5; 32], 3, 7, vec![], |_| Some(vec![1, 2, 3])).unwrap();
    let sig = sk.sign(&[1, 2, 3]).to_bytes();
    assert_eq!(wire, [vec![3, 1, 2, 3], sig.to_vec()].concat());
    let long = vec![9u8; 300];
    let wire = sign_tick(&[5; 32], 3, 7, vec![], |_| Some(vec![9u8; 300])).unwrap();
    let sig = sk.sign(&long).to_bytes();
    assert_eq!(wire, [vec![0xac, 2], long, sig.to_vec()].concat());
}

#[test]
fn tampered_and_malformed_ticks_are_rejected() {
    let secret = iroh::SecretKey::generate().to_bytes();
    let mut wire = sign_tick(&secret, 1, 5, vec![running(1, None)], encode).unwrap();
    let last = wire.len() - 1;
    wire[last] ^= 1;
    assert_eq!(open_tick(&wire, decode), Err(TickError::Forged));

    assert_eq!(open_tick(&[], decode), Err(TickError::Malformed));
    assert_eq!(open_tick(&[9, 9], decode), Err(TickError::Malformed));
    let empty_body = postcard::to_allocvec(&(
        Vec::<u8>::new(),
        iroh::SecretKey::generate().sign(&[]),
    ))
    .unwrap();
    assert_eq!(open_tick(&empty_body, decode), Err(TickError::Malformed));

    assert_eq!(
        sign_tick(&secret, 1, 5, vec![], |_| None),
        Err(TickError::Encode)
    );
}

#[test]
fn publishers_count_their_ticks_from_one() {
    let secret = iroh::SecretKey::generate().to_bytes();
    let mut p = Publisher::new();
    assert!(p.publish(&secret, 1, vec![], encode).is_none());
    for n in 1..4 {
        let wire = p
            .publish(&secret, 100 + n, vec![running(1, None)], encode)
            .unwrap()
            .unwrap();
        let tick = open_tick(&wire, decode).unwrap();
        assert!(tick.seq > 0, "tick must carry a positive sequence number");
        assert_eq!((tick.seq, tick.ts), (n, 100 + n));
    }
}

#[test]
fn telemetry_tick_reaches_watcher_over_gossip() {
    let sk = iroh::SecretKey::generate();
    let mut publisher = Publisher::new();
    let wire = publisher
        .publish(&sk.to_bytes(), 5_000, vec![running(1, None)], encode)
        .unwrap()
        .unwrap();

    let mut watcher = Watcher::new(Duration::from_millis(10_000));
    match watcher.receive(&wire, 6_000, decode) {
        Received::Accepted(tick, reports) => {
            assert_eq!(tick.from.bytes, *sk.public().as_bytes());
            assert!(tick.seq > 0);
            assert_eq!(tick.stats.len(), 1);
            assert_eq!(reports.len(), 1);
            assert_eq!(reports[0].handle, 1);
            assert_eq!(reports[0].state, ProcState::Running);
            assert_eq!(reports[0].usage, None);
            assert_eq!(reports[0].cpu, None);
        }
        other => panic!("expected a tick, got {other:?}"),
    }

    // The same message again is a replay; one too far from now is stale.
    assert!(matches!(
        watcher.receive(&wire, 6_000, decode),
        Received::Stale(_)
    ));
    let mut other = Watcher::new(Duration::from_millis(10_000));
    assert!(matches!(
        other.receive(&wire, 15_001, decode),
        Received::Stale(_)
    ));
    assert!(matches!(
        other.receive(&wire, 15_000, decode),
        Received::Accepted(_, _)
    ));
    assert!(matches!(
        other.receive(b"junk", 0, decode),
        Received::Rejected(TickError::Malformed)
    ));
}

#[test]
fn watchers_report_memory_and_cpu() {
    let mut w = Watcher::new(Duration::from_secs(10));
    let mib = 1024 * 1024;
    let first = w
        .observe(&tick(1, 1_000, vec![running(7, used(5 * mib + 1, 100))]), 1_000)
        .unwrap();
    assert_eq!(first[0].usage, used(5 * mib + 1, 100));
    assert_eq!(mem_str(first[0].usage), "5MiB");
    assert_eq!(first[0].cpu, None);

    let second = w
        .observe(&tick(1, 3_000, vec![running(7, used(mib - 1, 500_100))]), 3_000)
        .unwrap();
    assert_eq!(mem_str(second[0].usage), "0MiB");
    assert_eq!(
        second[0].cpu,
        Some(CpuDelta {
            usec: 500_000,
            ms: 2_000
        })
    );

    // A counter that went back, as after a relaunch, counts as no time.
    let third = w
        .observe(&tick(1, 4_000, vec![running(7, used(0, 10))]), 4_000)
        .unwrap();
    assert_eq!(third[0].cpu, Some(CpuDelta { usec: 0, ms: 1_000 }));

    // The same handle of another node is another process.
    let other = w
        .observe(&tick(2, 4_000, vec![running(7, used(0, 10))]), 4_000)
        .unwrap();
    assert_eq!(other[0].cpu, None);
}

#[test]
fn dropped_ticks_leave_no_trace() {
    let mut w = Watcher::new(Duration::from_secs(10));
    w.observe(&tick(1, 5_000, vec![running(7, used(0, 100))]), 5_000)
        .unwrap();
    // Older, equal, and outside the window.
    for ts in [4_999, 5_000, 50_000] {
        assert!(w
            .observe(&tick(1, ts, vec![running(7, used(0, 999))]), 5_000)
            .is_none());
    }
    let next = w
        .observe(&tick(1, 6_000, vec![running(7, used(0, 150))]), 6_000)
        .unwrap();
    assert_eq!(next[0].cpu, Some(CpuDelta { usec: 50, ms: 1_000 }));
}

#[test]
fn a_lost_tick_loses_no_cpu_time() {
    let samples = [(1_000, 10), (2_000, 40), (3_000, 90), (4_000, 100)];
    let total = |kept: &[usize]| -> u64 {
        let mut w = Watcher::new(Duration::from_secs(10));
        let mut sum = 0;
        for i in kept {
            let (ts, cpu) = samples[*i];
            let r = w.observe(&tick(1, ts, vec![running(1, used(0, cpu))]), ts);
            sum += r.unwrap()[0].cpu.map_or(0, |c| c.usec);
        }
        sum
    };
    assert_eq!(total(&[0, 1, 2, 3]), 90);
    assert_eq!(total(&[0, 2, 3]), 90);
    assert_eq!(total(&[0, 3]), 90);
}
