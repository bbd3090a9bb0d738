//! The process table: spawn, query, signal, standard input, forget, shutdown.

use mesh_supervisor::cgroup::Cgroups;
use mesh_supervisor::process::{
    pump, Effect, Kill, ProcessManager, Pump, Record, Relaunch, STDOUT_CAP,
};
use mesh_supervisor::proto::{ControlError, Handle, Limits, ProcState, RestartPolicy, Spec, Usage};
use mesh_supervisor::store::Loaded;
use mesh_supervisor::time::Duration;

/// A minimal spec (no limits, no restart) for the common test case.
fn spec(cmd: &str, args: &[&str]) -> Spec {
    Spec {
        cmd: cmd.into(),
        args: args.iter().map(|s| s.to_string()).collect(),
        ..Default::default()
    }
}

fn spawn(pm: &mut ProcessManager, spec: &Spec, pid: u32) -> Handle {
    let id = pm.reserve();
    pm.spawn::<()>(id, spec, Ok(pid)).0.unwrap().0
}

fn exit(pm: &mut ProcessManager, id: Handle, spec: &Spec, code: Option<i32>) {
    let mut s = ProcessManager::supervise(id, spec);
    pm.on_exit(&mut s, code, Duration::from_millis(20));
}

fn bad_request(text: &str) -> ControlError {
    ControlError::BadRequest(text.into())
}

fn grouped() -> ProcessManager {
    let cgroups = Cgroups::detect(
        &vec!["/sys/fs/cgroup/user".into()],
        &vec!["cpu memory pids".into()],
    );
    let loaded = Loaded {
        records: vec![],
        next_handle: 0,
    };
    ProcessManager::with_store(&loaded, cgroups, Duration::from_secs(2))
}

#[test]
fn spawn_tracks_handle() {
    let mut pm = ProcessManager::new();
    let id = spawn(&mut pm, &spec("sleep", &["30"]), 42);

    assert_eq!(id, 1, "handles start at 1");
    assert_eq!(pm.list(), vec![id]);
    let info = pm.query(id).unwrap();
    assert!(matches!(info.state, ProcState::Running));
    assert_eq!(info.pid, 42);
}

#[test]
fn signal_then_query_reports_exit() {
    let mut pm = ProcessManager::new();
    let s = spec("sleep", &["30"]);
    let id = spawn(&mut pm, &s, 42);

    assert_eq!(pm.signal(id, 15), Ok(42)); // SIGTERM
    assert_eq!(ProcessManager::signal_sent(true), Ok(()));

    exit(&mut pm, id, &s, None);
    assert_eq!(pm.query(id).unwrap().state, ProcState::Exited(None));
}

#[test]
fn stdin_pipe_succeeds() {
    let mut pm = ProcessManager::new();
    let s = spec("cat", &[]);
    let id = spawn(&mut pm, &s, 8);

    let launch = pm.pipe_stdin(id).unwrap();
    assert_eq!(pm.stdin_streamed(id, launch, true), Ok(()));

    // The child's input is at its end; there is no more writing to it.
    assert_eq!(pm.pipe_stdin(id), Err(bad_request("stdin unavailable")));
    exit(&mut pm, id, &s, Some(0));
    assert_eq!(pm.query(id).unwrap().state, ProcState::Exited(Some(0)));
}

#[test]
fn a_broken_stdin_pipe_is_reported_and_closed() {
    let mut pm = ProcessManager::new();
    let id = spawn(&mut pm, &spec("sleep", &["30"]), 8);
    let launch = pm.pipe_stdin(id).unwrap();
    assert_eq!(
        pm.stdin_streamed(id, launch, false),
        Err(bad_request("stdin pipe closed"))
    );
    assert_eq!(pm.pipe_stdin(id), Err(bad_request("stdin unavailable")));
}

#[test]
fn a_written_chunk_leaves_stdin_open() {
    let mut pm = ProcessManager::new();
    let id = spawn(&mut pm, &spec("sleep", &["30"]), 8);
    let launch = pm.pipe_stdin(id).unwrap();
    assert_eq!(pm.stdin_written(id, launch, true), Ok(()));
    assert_eq!(pm.pipe_stdin(id), Ok(launch));
    assert_eq!(
        pm.stdin_written(id, launch, false),
        Err(bad_request("stdin pipe closed"))
    );
    assert_eq!(pm.pipe_stdin(id), Err(bad_request("stdin unavailable")));
}

#[test]
fn a_late_writer_does_not_close_the_next_launch() {
    let mut pm = ProcessManager::new();
    let s = Spec {
        policy: RestartPolicy::Always,
        ..spec("cat", &[])
    };
    let id = spawn(&mut pm, &s, 8);
    let first = pm.pipe_stdin(id).unwrap();
    exit(&mut pm, id, &s, Some(1));
    assert!(matches!(
        pm.on_relaunch::<()>(id, &s, Ok(9)).0,
        Relaunch::Up(9)
    ));
    pm.stdin_streamed(id, first, false).unwrap_err();
    assert_eq!(pm.pipe_stdin(id), Ok(first + 1));
}

#[test]
fn unknown_handle_is_not_found() {
    let mut pm = ProcessManager::new();

    assert!(matches!(pm.query(999), Err(ControlError::NotFound(999))));
    assert!(matches!(
        pm.signal(999, 15),
        Err(ControlError::NotFound(999))
    ));
    assert_eq!(pm.stop(999), Err(ControlError::NotFound(999)));
    assert_eq!(pm.subscribe(999), Err(ControlError::NotFound(999)));
    assert_eq!(pm.pipe_stdin(999), Err(ControlError::NotFound(999)));
    assert_eq!(
        pm.forget(999).map(|_| ()),
        Err(ControlError::NotFound(999))
    );
}

#[test]
fn forget_drops_an_exited_process() {
    let mut pm = ProcessManager::new();
    let s = spec("sleep", &["30"]);
    let id = spawn(&mut pm, &s, 42);

    assert_eq!(
        pm.forget(id).map(|_| ()),
        Err(bad_request("cannot forget a running process"))
    );
    assert_eq!(pm.list(), vec![id]);

    exit(&mut pm, id, &s, None);
    assert!(pm.forget(id).expect("forget exited").is_empty());
    assert!(pm.list().is_empty());
}

#[test]
fn child_env_is_scrubbed() {
    let pm = ProcessManager::new();
    let plan = pm.launch_child(
        1,
        &Spec {
            cmd: "sh".into(),
            args: vec!["-c".into(), "sleep 0.2; env".into()],
            env: vec![("FOO".into(), "bar".into())],
            ..Default::default()
        },
    );
    assert_eq!(plan.program, "sh");
    assert_eq!(plan.args, vec!["-c", "sleep 0.2; env"]);

    // Only the default path and what the client passes.
    assert_eq!(
        plan.env,
        vec![
            ("PATH".to_string(), "/usr/bin:/bin".to_string()),
            ("FOO".to_string(), "bar".to_string())
        ]
    );
    assert!(plan.leaf.is_none());
}

#[test]
fn a_client_may_pass_its_own_path() {
    let pm = ProcessManager::new();
    let plan = pm.launch_child(
        1,
        &Spec {
            env: vec![("PATH".into(), "/opt/bin".into())],
            ..spec("tool", &[])
        },
    );
    // It is set after the default, and so wins.
    assert_eq!(
        plan.env.last(),
        Some(&("PATH".to_string(), "/opt/bin".to_string()))
    );
}

#[test]
fn signals_are_checked_before_they_are_sent() {
    let mut pm = ProcessManager::new();
    let s = spec("sleep", &["30"]);
    let id = spawn(&mut pm, &s, 42);

    assert_eq!(pm.signal(id, 9999), Err(bad_request("invalid signal 9999")));
    assert_eq!(pm.signal(id, -1), Err(bad_request("invalid signal -1")));
    assert_eq!(pm.signal(id, 0), Err(bad_request("invalid signal 0")));
    assert_eq!(pm.signal(id, 65), Err(bad_request("invalid signal 65")));
    for sig in [1, 2, 3, 4, 6, 8, 9, 11, 14, 15] {
        assert_eq!(pm.signal(id, sig), Ok(42));
    }
    assert_eq!(
        pm.signal_known(id, 40, false),
        Err(bad_request("invalid signal 40"))
    );
    assert_eq!(pm.signal_known(id, 40, true), Ok(42));
    assert_eq!(
        ProcessManager::signal_sent(false),
        Err(bad_request("signal delivery failed"))
    );

    // A process that is down is refused before its signal is looked at.
    exit(&mut pm, id, &s, Some(0));
    assert_eq!(
        pm.signal(id, 9999),
        Err(bad_request("process is not running"))
    );
}

#[test]
fn snapshots_come_in_ascending_order() {
    let mut pm = ProcessManager::new();
    for pid in [30, 10, 20, 50, 40] {
        spawn(&mut pm, &spec("sleep", &["30"]), pid);
    }
    exit(&mut pm, 2, &spec("sleep", &["30"]), Some(1));
    assert_eq!(pm.list(), vec![1, 2, 3, 4, 5]);
    let all = pm.snapshot();
    assert_eq!(
        all.iter().map(|i| (i.handle, i.pid)).collect::<Vec<_>>(),
        vec![(1, 30), (2, 10), (3, 20), (4, 50), (5, 40)]
    );
    assert_eq!(all[1].state, ProcState::Exited(Some(1)));
    assert!(all.iter().all(|i| i.usage.is_none()));
}

#[test]
fn a_failed_launch_is_not_tracked_but_uses_up_its_handle() {
    let mut pm = ProcessManager::new();
    let s = spec("no-such-program", &[]);
    let id = pm.reserve();
    let (r, effects) = pm.spawn(id, &s, Err::<u32, &str>("not found"));
    assert_eq!(r, Err("not found"));
    assert!(effects.is_empty());
    assert!(pm.list().is_empty());
    assert_eq!(spawn(&mut pm, &s, 1), 2);
}

#[test]
fn shutdown_asks_then_kills_the_process_groups() {
    let mut pm = ProcessManager::new();
    let s = spec("sleep", &["30"]);
    let a = spawn(&mut pm, &s, 11);
    let b = spawn(&mut pm, &s, 12);
    let c = spawn(&mut pm, &s, 13);
    exit(&mut pm, b, &s, Some(0));

    // What has exited is not asked.
    let asked = pm.kill_all();
    assert_eq!(asked, vec![11, 13]);

    assert!(pm.keep_waiting(Duration::from_millis(4_999)));
    assert!(!pm.keep_waiting(Duration::from_secs(5)));
    exit(&mut pm, a, &s, None);
    assert!(pm.any_running());

    exit(&mut pm, c, &s, None);
    assert!(!pm.any_running());
    assert!(!pm.keep_waiting(Duration::from_secs(0)));

    // What a child has left behind in its group is killed, though the child is gone.
    assert_eq!(
        pm.force_down(&asked),
        vec![Kill::Group(11), Kill::Group(13)]
    );
}

#[test]
fn shutdown_leaves_stale_pids_alone() {
    let loaded = Loaded {
        records: vec![(
            1,
            Record {
                cmd: "sleep".into(),
                args: vec!["30".into()],
                env: vec![],
                pid: 4242,
                status: ProcState::Running,
            },
        )],
        next_handle: 1,
    };
    let mut pm = ProcessManager::with_store(&loaded, None, Duration::from_secs(5));
    let asked = pm.kill_all();
    assert!(asked.is_empty());
    assert!(!pm.keep_waiting(Duration::from_secs(0)));
    assert!(pm.force_down(&asked).is_empty());
}

#[test]
fn child_is_capped_and_torn_down() {
    let mut pm = grouped();
    let cap = 64 * 1024 * 1024;
    let s = Spec {
        limits: Limits {
            memory: Some(cap),
            pids: Some(32),
            ..Default::default()
        },
        ..spec("sleep", &["30"])
    };
    let id = pm.reserve();
    let leaf = pm.launch_child(id, &s).leaf.expect("there are groups");
    assert_eq!(leaf.dir, "/sys/fs/cgroup/user/p2p-telemetry/1");
    assert_eq!(leaf.caps.len(), 2);
    assert_eq!(leaf.procs, "/sys/fs/cgroup/user/p2p-telemetry/1/cgroup.procs");
    pm.spawn::<()>(id, &s, Ok(4)).0.unwrap();

    // Live usage is taken in while the child runs.
    let mut info = pm.query(id).unwrap();
    assert!(pm.wants_usage(&info));
    let usage = Usage {
        mem_bytes: 4096,
        cpu_usec: 17,
    };
    pm.fill_usage(&mut info, Some(usage));
    assert_eq!(info.usage, Some(usage));

    // A stop goes to the leaf, and so does the shutdown.
    let t = pm.stop(id).unwrap().unwrap();
    assert_eq!(t.grace, Duration::from_secs(2));
    assert_eq!(pm.terminate(t), Some(Kill::Leaf(id)));
    assert_eq!(pm.kill_all(), vec![4]);
    assert_eq!(pm.force_down(&vec![4]), vec![Kill::AllLeaves]);

    // The exit is persisted and the leaf removed.
    let mut sup = ProcessManager::supervise(id, &s);
    let (_, effects) = pm.on_exit(&mut sup, None, Duration::from_secs(1));
    assert_eq!(effects.len(), 2);
    assert!(matches!(
        effects[0],
        Effect::PersistStatus {
            id: 1,
            status: ProcState::Exited(None)
        }
    ));
    assert!(matches!(effects[1], Effect::RemoveLeaf { id: 1 }));

    // What has exited has no live usage.
    let mut info = pm.query(id).unwrap();
    assert!(!pm.wants_usage(&info));
    pm.fill_usage(&mut info, Some(usage));
    assert_eq!(info.usage, None);
}

#[test]
fn without_groups_there_is_no_usage() {
    let mut pm = ProcessManager::new();
    let id = spawn(&mut pm, &spec("sleep", &["30"]), 4);
    let info = pm.query(id).unwrap();
    assert!(!pm.wants_usage(&info));
    assert!(pm.cgroups().is_none());
    assert_eq!(pm.stop_deadline(), Duration::from_secs(5));
}

#[test]
fn launches_are_persisted_where_records_are_kept() {
    let mut pm = grouped();
    let s = Spec {
        env: vec![("A".into(), "b".into())],
        ..spec("sleep", &["30"])
    };
    let id = pm.reserve();
    let (_, effects) = pm.spawn::<()>(id, &s, Ok(4));
    assert_eq!(effects.len(), 1);
    match &effects[0] {
        Effect::Persist { id: h, record } => {
            assert_eq!(*h, id);
            assert_eq!(record.cmd, "sleep");
            assert_eq!(record.args, vec!["30"]);
            assert_eq!(record.env, s.env);
            assert_eq!(record.pid, 4);
            assert_eq!(record.status, ProcState::Running);
        }
        other => panic!("unexpected {other:?}"),
    }

    // One that fails leaves only a leaf to remove.
    let id = pm.reserve();
    let (_, effects) = pm.spawn::<()>(id, &s, Err(()));
    assert!(matches!(effects[..], [Effect::RemoveLeaf { id: 2 }]));

    // Forgetting reaches the store.
    exit(&mut pm, 1, &s, Some(0));
    assert!(matches!(
        pm.forget(1).unwrap()[..],
        [Effect::Unpersist { id: 1 }]
    ));
}

#[test]
fn output_is_drained_with_or_without_an_audience() {
    assert_eq!(pump(Some(0), 3), Pump::End);
    assert_eq!(pump(None, 3), Pump::End);
    assert_eq!(pump(Some(100), 0), Pump::Discard);
    assert_eq!(pump(Some(100), 2), Pump::Publish);
    assert_eq!(STDOUT_CAP, 1024);
}
