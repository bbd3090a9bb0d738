//! Restart policy: relaunch on failure up to a cap, leave clean exits alone, and
//! let a stop disarm an otherwise-Always policy.

use mesh_supervisor::process::{
    backoff, reloaded, should_restart, AfterExit, Effect, Kill, ProcessManager, Relaunch,
    Supervision, Termination,
};
use mesh_supervisor::proto::{ControlError, Handle, ProcState, RestartPolicy, Spec};
use mesh_supervisor::store::Loaded;
use mesh_supervisor::time::Duration;

fn spec(cmd: &str, policy: RestartPolicy, max_retries: u32) -> Spec {
    Spec {
        cmd: cmd.into(),
        policy,
        max_retries,
        ..Default::default()
    }
}

fn start(pm: &mut ProcessManager, spec: &Spec, pid: u32) -> (Handle, Supervision) {
    let id = pm.reserve();
    let (r, _) = pm.spawn::<()>(id, spec, Ok(pid));
    assert_eq!(r, Ok((id, pid)));
    (id, ProcessManager::supervise(id, spec))
}

fn at_once() -> Duration {
    Duration::from_millis(3)
}

#[test]
fn on_failure_restarts_until_cap() {
    let mut pm = ProcessManager::new();
    let spec = spec("false", RestartPolicy::OnFailure, 2);
    let (id, mut s) = start(&mut pm, &spec, 100);

    // Backoff is 1s, then 2s.
    let mut pid = 100;
    for secs in [1, 2] {
        let (next, _) = pm.on_exit(&mut s, Some(1), at_once());
        assert_eq!(next, AfterExit::RestartAfter(Duration::from_secs(secs)));
        assert!(pm.on_backoff(id));
        pid += 1;
        let (r, _) = pm.on_relaunch::<()>(id, &spec, Ok(pid));
        assert!(matches!(r, Relaunch::Up(p) if p == pid));
    }
    assert_eq!(
        pm.query(id).unwrap().restarts,
        2,
        "should restart up to the cap"
    );

    // Past the cap it gives up: stays Exited and the count doesn't climb further.
    let (next, _) = pm.on_exit(&mut s, Some(1), at_once());
    assert_eq!(next, AfterExit::GaveUp);

    let info = pm.query(id).unwrap();
    assert_eq!(info.restarts, 2, "must not exceed the cap");
    assert!(
        matches!(info.state, ProcState::Exited(_)),
        "gave up terminal"
    );
    assert_eq!(info.pid, 102);
}

#[test]
fn clean_exit_is_not_restarted() {
    let mut pm = ProcessManager::new();
    let spec = spec("true", RestartPolicy::OnFailure, 0);
    let (id, mut s) = start(&mut pm, &spec, 7);

    let (next, _) = pm.on_exit(&mut s, Some(0), at_once());
    assert_eq!(next, AfterExit::Finished);

    let info = pm.query(id).unwrap();
    assert_eq!(info.restarts, 0, "clean exit under OnFailure is terminal");
    assert!(matches!(info.state, ProcState::Exited(Some(0))));
}

#[test]
fn stop_disarms_restart() {
    let mut pm = ProcessManager::new();
    let spec = Spec {
        args: vec!["30".into()],
        ..spec("sleep", RestartPolicy::Always, 0)
    };
    let (id, mut s) = start(&mut pm, &spec, 31);

    assert!(matches!(pm.query(id).unwrap().state, ProcState::Running));
    let t = pm.stop(id).expect("calling stop on process manager failed");
    assert_eq!(
        t,
        Some(Termination {
            id,
            pid: 31,
            grace: Duration::from_secs(5)
        })
    );

    // Despite Always, an intentional stop must not come back.
    let (next, _) = pm.on_exit(&mut s, None, Duration::from_secs(60));
    assert_eq!(next, AfterExit::Finished);
    assert!(!pm.on_backoff(id));

    let info = pm.query(id).unwrap();
    assert_eq!(info.restarts, 0, "a stopped process must not restart");
    assert!(matches!(info.state, ProcState::Exited(_)));
}

#[test]
fn stop_during_backoff_does_not_relaunch() {
    let mut pm = ProcessManager::new();
    let spec = spec("false", RestartPolicy::Always, 0);
    let (id, mut s) = start(&mut pm, &spec, 5);

    let (next, _) = pm.on_exit(&mut s, Some(1), at_once());
    assert_eq!(next, AfterExit::RestartAfter(Duration::from_secs(1)));
    assert!(pm.on_backoff(id));

    // A stop that lands in the backoff window is honoured: there is nothing to
    // terminate, and the child does not come back.
    assert_eq!(pm.stop(id).expect("stop"), None);
    assert!(!pm.on_backoff(id));

    let info = pm.query(id).unwrap();
    assert_eq!(info.restarts, 0);
    assert!(matches!(info.state, ProcState::Exited(_)));
}

#[test]
fn a_process_forgotten_during_backoff_comes_back_once() {
    let loaded = Loaded {
        records: vec![],
        next_handle: 0,
    };
    let mut pm = ProcessManager::with_store(&loaded, None, Duration::from_secs(5));
    let spec = spec("false", RestartPolicy::Always, 0);
    let (id, mut s) = start(&mut pm, &spec, 5);
    pm.on_exit(&mut s, Some(1), at_once());
    assert_eq!(pm.forget(id).expect("forget").len(), 1);
    assert_eq!(pm.stop(id), Err(ControlError::NotFound(id)));
    assert!(pm.on_backoff(id));

    // The child is up but not tracked, and its record is written again.
    let (r, effects) = pm.on_relaunch::<()>(id, &spec, Ok(6));
    assert!(matches!(r, Relaunch::Up(6)));
    assert!(
        matches!(&effects[..], [Effect::Persist { id: h, record }] if *h == id && record.pid == 6)
    );
    assert!(pm.list().is_empty());
    assert!(!pm.any_running());

    // Its next exit is its last.
    let (next, _) = pm.on_exit(&mut s, Some(1), at_once());
    assert_eq!(next, AfterExit::Finished);
    assert!(!pm.on_backoff(id));
}

#[test]
fn a_process_stopped_and_forgotten_during_backoff_stays_down() {
    let mut pm = ProcessManager::new();
    let spec = spec("false", RestartPolicy::Always, 0);
    let (id, mut s) = start(&mut pm, &spec, 5);
    pm.on_exit(&mut s, Some(1), at_once());
    assert_eq!(pm.stop(id).expect("stop"), None);
    pm.forget(id).expect("forget");
    assert!(!pm.on_backoff(id));
}

#[test]
fn shutdown_during_backoff_does_not_relaunch() {
    let mut pm = ProcessManager::new();
    let spec = spec("false", RestartPolicy::Always, 0);
    let (id, mut s) = start(&mut pm, &spec, 5);
    pm.on_exit(&mut s, Some(1), at_once());
    assert!(pm.kill_all().is_empty(), "the child is down already");
    assert!(!pm.on_backoff(id));

    let (id, mut s) = start(&mut pm, &spec, 6);
    let (next, _) = pm.on_exit(&mut s, Some(1), at_once());
    assert_eq!(next, AfterExit::Finished);
    assert!(!pm.on_backoff(id));
}

#[test]
fn stop_escalates_to_sigkill() {
    let mut pm = ProcessManager::new();
    let (id, mut s) = start(&mut pm, &spec("sh", RestartPolicy::Never, 0), 77);

    let t = pm.stop(id).expect("stop").expect("it is running");
    assert_eq!(t.pid, 77);
    assert_eq!(t.grace, Duration::from_secs(5));

    // Still up after the deadline: its process group is killed.
    assert_eq!(pm.terminate(t), Some(Kill::Group(77)));

    // Down by then: nobody is.
    pm.on_exit(&mut s, None, Duration::from_secs(9));
    assert_eq!(pm.terminate(t), None);
}

#[test]
fn backoff_doubles_and_is_capped() {
    let secs: Vec<u128> = (1..9).map(|n| backoff(n).nanos / 1_000_000_000).collect();
    assert_eq!(secs, vec![1, 2, 4, 8, 16, 30, 30, 30]);
    assert_eq!(backoff(u32::MAX), Duration::from_secs(30));
}

#[test]
fn a_stable_child_starts_counting_over() {
    let mut pm = ProcessManager::new();
    let spec = spec("server", RestartPolicy::OnFailure, 2);
    let (id, mut s) = start(&mut pm, &spec, 1);
    for uptime_ms in [5, 9_999] {
        let (next, _) = pm.on_exit(&mut s, Some(1), Duration::from_millis(uptime_ms));
        assert!(matches!(next, AfterExit::RestartAfter(_)));
        pm.on_relaunch::<()>(id, &spec, Ok(2));
    }
    assert_eq!(s.attempt, 2);

    let (next, _) = pm.on_exit(&mut s, Some(1), Duration::from_secs(10));
    assert_eq!(next, AfterExit::RestartAfter(Duration::from_secs(1)));
    assert_eq!(s.attempt, 1);
}

#[test]
fn policies_decide_by_the_exit_code() {
    assert!(!should_restart(RestartPolicy::Never, Some(1)));
    assert!(!should_restart(RestartPolicy::Never, None));
    assert!(should_restart(RestartPolicy::Always, Some(0)));
    assert!(should_restart(RestartPolicy::OnFailure, Some(2)));
    assert!(should_restart(RestartPolicy::OnFailure, None));
    assert!(!should_restart(RestartPolicy::OnFailure, Some(0)));
}

#[test]
fn a_running_child_reloads_as_stale() {
    assert_eq!(reloaded(ProcState::Running), ProcState::Stale);
    assert_eq!(reloaded(ProcState::Stale), ProcState::Stale);
    assert_eq!(
        reloaded(ProcState::Exited(Some(3))),
        ProcState::Exited(Some(3))
    );
}

#[test]
fn a_failed_relaunch_leaves_the_process_exited() {
    let mut pm = ProcessManager::new();
    let spec = spec("gone", RestartPolicy::Always, 0);
    let (id, mut s) = start(&mut pm, &spec, 9);
    pm.on_exit(&mut s, Some(127), at_once());
    let (r, effects) = pm.on_relaunch(id, &spec, Err::<u32, &str>("no such file"));
    assert!(matches!(r, Relaunch::Failed("no such file")));
    assert!(effects.is_empty());
    let info = pm.query(id).unwrap();
    assert_eq!(info.state, ProcState::Exited(Some(127)));
    assert_eq!(info.restarts, 0);
    assert!(!pm.on_backoff(id));
}

#[test]
fn without_a_cap_a_crash_loop_goes_on() {
    let mut pm = ProcessManager::new();
    let spec = spec("false", RestartPolicy::OnFailure, 0);
    let (id, mut s) = start(&mut pm, &spec, 1);
    for n in 1..50 {
        let (next, _) = pm.on_exit(&mut s, None, at_once());
        assert_eq!(next, AfterExit::RestartAfter(backoff(n)));
        let (r, _) = pm.on_relaunch::<()>(id, &spec, Ok(n + 1));
        assert!(matches!(r, Relaunch::Up(_)));
    }
    assert_eq!(pm.query(id).unwrap().restarts, 49);
}

#[test]
fn a_stop_during_the_relaunch_is_honoured() {
    let mut pm = ProcessManager::new();
    let spec = spec("false", RestartPolicy::Always, 0);
    let (id, mut s) = start(&mut pm, &spec, 5);
    pm.on_exit(&mut s, Some(1), at_once());
    assert!(pm.on_backoff(id));

    // The stop comes while the child is being launched: the child is killed, and
    // the process stays down.
    assert_eq!(pm.stop(id).expect("stop"), None);
    let (r, effects) = pm.on_relaunch::<()>(id, &spec, Ok(6));
    assert!(matches!(r, Relaunch::Unwanted(Kill::Group(6))));
    assert!(effects.is_empty());
    let info = pm.query(id).unwrap();
    assert_eq!(info.state, ProcState::Exited(Some(1)));
    assert_eq!((info.restarts, info.pid), (0, 5));

    // So it is if the process is then forgotten.
    pm.forget(id).expect("forget");
    let (r, _) = pm.on_relaunch::<()>(id, &spec, Ok(7));
    assert!(matches!(r, Relaunch::Unwanted(Kill::Group(7))));
    assert!(pm.list().is_empty());
}
