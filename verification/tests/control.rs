//! The control surface: rights, rate limits, dispatch and replies.

use mesh_supervisor::cgroup::Cgroups;
use mesh_supervisor::config::{RateLimiterConfig, SupervisorConfig};
use mesh_supervisor::id::EndpointId;
use mesh_supervisor::process::{Effect, ProcessManager, Termination};
use mesh_supervisor::proto::{ControlError, ProcState, Request, Response, Spec, CONTROL_ALPN};
use mesh_supervisor::store::Loaded;
use mesh_supervisor::supervisor::{
    relay, reply, Arrival, Authz, OutputEvent, Relay, Route, Supervisor, Work,
};
use mesh_supervisor::time::Duration;

fn id(n: u8) -> EndpointId {
    EndpointId { bytes: [n; 32] }
}

fn supervisor(authz: Authz) -> Supervisor<f64> {
    Supervisor::new(
        ProcessManager::new(),
        authz,
        SupervisorConfig::at_rate(20.0, 10.0),
    )
}

fn sleep_spec() -> Spec {
    Spec {
        cmd: "sleep".into(),
        args: vec!["30".into()],
        ..Default::default()
    }
}

fn route(s: &Supervisor<f64>, remote: EndpointId, req: Request) -> Route {
    s.accept(remote, Arrival::Request(req))
}

/// Sends a request that is answered at once.
fn request(s: &mut Supervisor<f64>, req: Request) -> Work {
    match route(s, id(1), req) {
        Route::Dispatch(req) => s.dispatch(req),
        other => panic!("expected a dispatch, got {other:?}"),
    }
}

fn assert_denied(r: Route) {
    assert!(matches!(r, Route::Reject(ControlError::Denied)), "{r:?}");
}

fn every_request() -> Vec<Request> {
    vec![
        Request::Spawn(sleep_spec()),
        Request::Signal { id: 1, sig: 15 },
        Request::Stop { id: 1 },
        Request::Stdin {
            id: 1,
            data: vec![1],
        },
        Request::Query { id: 1 },
        Request::Subscribe { id: 1 },
        Request::Forget { id: 1 },
        Request::List,
        Request::StdinStream { id: 1 },
    ]
}

#[test]
fn spawn_then_list_over_loopback() {
    let mut s = supervisor(Authz::open());

    // Empty to start.
    match request(&mut s, Request::List) {
        Work::List(procs) => assert!(procs.is_empty()),
        other => panic!("expected List, got {other:?}"),
    }

    // Spawn one child.
    let (handle, spec) = match request(&mut s, Request::Spawn(sleep_spec())) {
        Work::Launch { id, spec } => (id, spec),
        other => panic!("expected Launch, got {other:?}"),
    };
    assert_eq!(spec, sleep_spec());
    let (resp, effects) = s.launched::<()>(handle, &spec, Ok(321));
    assert_eq!(
        resp,
        Response::Spawned {
            id: handle,
            pid: 321
        }
    );
    assert!(effects.is_empty());

    // Now the supervisor tracks it, with state.
    match request(&mut s, Request::List) {
        Work::List(procs) => {
            assert_eq!(procs.len(), 1);
            assert_eq!(procs[0].handle, handle);
            assert_eq!(procs[0].state, ProcState::Running);
        }
        other => panic!("expected List, got {other:?}"),
    }

    // Query: running.
    match request(&mut s, Request::Query { id: handle }) {
        Work::Status(info) => assert_eq!(info.state, ProcState::Running),
        other => panic!("expected Status, got {other:?}"),
    }

    // Stdin: write a frame.
    let req = Request::Stdin {
        id: handle,
        data: b"hi\n".to_vec(),
    };
    match route(&s, id(1), req) {
        Route::Stdin { id: h, data } => {
            assert_eq!((h, data), (handle, b"hi\n".to_vec()));
            let launch = s.procs().pipe_stdin(h).expect("stdin");
            let r = s.procs_mut().stdin_written(h, launch, true);
            assert_eq!(reply(r), Response::Ack);
        }
        other => panic!("expected Stdin, got {other:?}"),
    }

    // Signal SIGTERM, then the exit is recorded.
    match request(&mut s, Request::Signal { id: handle, sig: 15 }) {
        Work::Signal { pid: 321, sig: 15 } => {}
        other => panic!("expected Signal, got {other:?}"),
    }
    assert_eq!(reply(ProcessManager::signal_sent(true)), Response::Ack);
    let mut sup = ProcessManager::supervise(handle, &spec);
    s.procs_mut()
        .on_exit(&mut sup, None, Duration::from_secs(1));
    match request(&mut s, Request::Query { id: handle }) {
        Work::Status(info) => assert_eq!(info.state, ProcState::Exited(None)),
        other => panic!("expected Status, got {other:?}"),
    }
}

#[test]
fn control_denied_when_not_on_allowlist() {
    // Allowlist holds some other id, so our client is rejected.
    let authz = Authz {
        control: vec![id(9)],
        ..Default::default()
    };
    let s = supervisor(authz);
    for req in every_request() {
        assert_denied(route(&s, id(1), req));
    }
    for req in every_request() {
        assert!(!matches!(route(&s, id(9), req), Route::Reject(_)));
    }
}

#[test]
fn read_only_client_can_inspect_not_control() {
    let authz = Authz {
        read: vec![id(1)],
        ..Default::default()
    };
    let mut s = supervisor(authz);

    // A read-only op is allowed.
    match request(&mut s, Request::List) {
        Work::List(_) => {}
        other => panic!("expected List, got {other:?}"),
    }
    // A control op is denied.
    let spawn = Request::Spawn(Spec {
        cmd: "true".into(),
        ..Default::default()
    });
    assert_denied(route(&s, id(1), spawn));

    for req in every_request() {
        let reads = req.is_read_only();
        let rejected = matches!(route(&s, id(1), req), Route::Reject(_));
        assert_eq!(reads, !rejected);
    }
}

#[test]
fn nobody_is_admitted_by_default() {
    let s = supervisor(Authz::default());
    for req in every_request() {
        assert_denied(route(&s, id(1), req));
    }
}

#[test]
fn everybody_is_admitted_when_open() {
    let s = supervisor(Authz::open());
    assert!(matches!(
        route(&s, id(1), Request::Subscribe { id: 4 }),
        Route::Subscribe { id: 4 }
    ));
    assert!(matches!(
        route(&s, id(2), Request::StdinStream { id: 5 }),
        Route::StdinStream { id: 5 }
    ));
    assert!(matches!(
        route(&s, id(3), Request::Stop { id: 6 }),
        Route::Dispatch(Request::Stop { id: 6 })
    ));
}

#[test]
fn only_looking_is_read_only() {
    let kinds: Vec<bool> = every_request().iter().map(|r| r.is_read_only()).collect();
    assert_eq!(
        kinds,
        vec![false, false, false, false, true, true, false, true, false]
    );
    assert_eq!(CONTROL_ALPN.as_bytes(), b"/supervisor/control/1");
}

#[test]
fn connections_that_go_wrong_are_answered() {
    let s = supervisor(Authz::open());
    assert!(matches!(
        s.accept(id(1), Arrival::Limited),
        Route::Reject(ControlError::RateLimited)
    ));
    assert!(matches!(
        s.accept(id(1), Arrival::TimedOut),
        Route::Reject(ControlError::Timeout)
    ));
    match s.accept(id(1), Arrival::Malformed) {
        Route::Reject(e) => assert_eq!(e, ControlError::BadRequest("malformed request".into())),
        other => panic!("expected a rejection, got {other:?}"),
    }
    assert_eq!(s.request_timeout(), Duration::from_secs(30));
}

#[test]
fn requests_are_limited_per_peer() {
    let mut s = supervisor(Authz::open());
    let step = |tokens: f64, _: Duration, _: RateLimiterConfig<f64>| {
        if tokens >= 1.0 {
            (tokens - 1.0, true)
        } else {
            (tokens, false)
        }
    };
    let now = Duration::from_secs(1);
    for _ in 0..20 {
        assert!(s.allow(id(1), now, step));
    }
    assert!(!s.allow(id(1), now, step));
    assert!(s.allow(id(2), now, step));
}

#[test]
fn a_failed_spawn_is_reported_without_its_reason() {
    let mut s = supervisor(Authz::open());
    let (handle, spec) = match request(&mut s, Request::Spawn(sleep_spec())) {
        Work::Launch { id, spec } => (id, spec),
        other => panic!("expected Launch, got {other:?}"),
    };
    let (resp, _) = s.launched(handle, &spec, Err::<u32, &str>("ENOENT: /secret/path"));
    assert_eq!(
        resp,
        Response::Error(ControlError::SpawnFailed("could not start process".into()))
    );
    assert!(s.procs().list().is_empty());
}

#[test]
fn unknown_handles_are_answered() {
    let mut s = supervisor(Authz::open());
    for req in [
        Request::Query { id: 8 },
        Request::Signal { id: 8, sig: 15 },
        Request::Stop { id: 8 },
        Request::Forget { id: 8 },
    ] {
        match request(&mut s, req) {
            Work::Reply(resp) => assert_eq!(resp, Response::Error(ControlError::NotFound(8))),
            other => panic!("expected a reply, got {other:?}"),
        }
    }
    assert_eq!(
        s.subscribe(8),
        Response::Error(ControlError::NotFound(8))
    );
}

#[test]
fn stop_and_forget_are_acknowledged_with_what_to_do() {
    let loaded = Loaded {
        records: vec![],
        next_handle: 40,
    };
    let groups = Cgroups::detect(&vec!["/cg".into()], &vec!["memory".into()]);
    let pm = ProcessManager::with_store(&loaded, groups, Duration::from_secs(3));
    let mut s: Supervisor<u32> =
        Supervisor::new(pm, Authz::open(), SupervisorConfig::at_rate(1, 1));
    let spec = sleep_spec();
    let handle = match s.dispatch(Request::Spawn(spec.clone())) {
        Work::Launch { id, .. } => id,
        other => panic!("expected Launch, got {other:?}"),
    };
    assert_eq!(handle, 41);
    s.launched::<()>(handle, &spec, Ok(6));
    assert_eq!(s.subscribe(handle), Response::Ack);

    match s.dispatch(Request::Forget { id: handle }) {
        Work::Reply(resp) => assert_eq!(
            resp,
            Response::Error(ControlError::BadRequest(
                "cannot forget a running process".into()
            ))
        ),
        other => panic!("expected a reply, got {other:?}"),
    }
    match s.dispatch(Request::Stop { id: handle }) {
        Work::Stop(t) => assert_eq!(
            t,
            Some(Termination {
                id: handle,
                pid: 6,
                grace: Duration::from_secs(3)
            })
        ),
        other => panic!("expected Stop, got {other:?}"),
    }
    let mut sup = ProcessManager::supervise(handle, &spec);
    s.procs_mut()
        .on_exit(&mut sup, Some(0), Duration::from_secs(1));
    match s.dispatch(Request::Stop { id: handle }) {
        Work::Stop(None) => {}
        other => panic!("expected Stop, got {other:?}"),
    }
    match s.dispatch(Request::Signal { id: handle, sig: 9 }) {
        Work::Reply(resp) => assert_eq!(
            resp,
            Response::Error(ControlError::BadRequest("process is not running".into()))
        ),
        other => panic!("expected a reply, got {other:?}"),
    }
    match s.dispatch(Request::Forget { id: handle }) {
        Work::Forget(effects) => {
            assert!(matches!(effects[..], [Effect::Unpersist { id: 41 }]))
        }
        other => panic!("expected Forget, got {other:?}"),
    }
}

#[test]
fn looking_changes_nothing() {
    let mut s = supervisor(Authz::open());
    let work = request(&mut s, Request::Spawn(sleep_spec()));
    if let Work::Launch { id, spec } = work {
        s.launched::<()>(id, &spec, Ok(2));
    }
    let before = s.procs().snapshot();
    request(&mut s, Request::List);
    request(&mut s, Request::Query { id: 1 });
    s.subscribe(1);
    assert_eq!(s.procs().snapshot(), before);
}

#[test]
fn slow_subscribers_lose_chunks_not_the_stream() {
    assert_eq!(relay(OutputEvent::Chunk), Relay::Forward);
    assert_eq!(relay(OutputEvent::Lagged), Relay::Skip);
    assert_eq!(relay(OutputEvent::Closed), Relay::Finish);
}
