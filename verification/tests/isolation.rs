//! Control groups and the sandbox.

use mesh_supervisor::cgroup::{candidate_dirs, removal_wait, Cgroups, SetupFailure, Step};
use mesh_supervisor::proto::{Limits, Spec, Usage};
use mesh_supervisor::sandbox::{id_map, store_hide_dir, Sandbox, SandboxStep};
use mesh_supervisor::time::Duration;

fn write(path: &str, text: &str) -> Step {
    Step::Write {
        path: path.into(),
        text: text.into(),
    }
}

fn remove(path: &str) -> Step {
    Step::RemoveDir { path: path.into() }
}

fn groups() -> Cgroups {
    Cgroups::detect(&vec!["/cg".into()], &vec!["memory".into()]).unwrap()
}

#[test]
fn groups_are_made_under_the_nearest_ancestor_with_memory() {
    let dirs = candidate_dirs("0::/user.slice/user-1000.slice/session.scope\n");
    assert_eq!(
        dirs,
        vec![
            "/sys/fs/cgroup/user.slice/user-1000.slice",
            "/sys/fs/cgroup/user.slice",
            "/sys/fs/cgroup",
        ]
    );
    let controls = vec!["cpu".into(), "cpu memory pids\n".into(), "memory".into()];
    let cg = Cgroups::detect(&dirs, &controls).unwrap();
    assert_eq!(cg.leaf(12), "/sys/fs/cgroup/user.slice/p2p-telemetry/12");

    // Only the whole word counts.
    let none = vec!["cpu".into(), "memoryx".into(), "".into()];
    assert!(Cgroups::detect(&dirs, &none).is_none());
}

#[test]
fn some_processes_have_no_candidate() {
    assert!(candidate_dirs("").is_empty());
    assert!(candidate_dirs("no colons here").is_empty());
    // At the mount point itself there is nothing above to look at.
    assert!(candidate_dirs("0::/").is_empty());
    // A path of its own does not lead below the mount point.
    assert!(candidate_dirs("0:://etc/passwd").is_empty());
    assert_eq!(candidate_dirs("0::/a"), vec!["/sys/fs/cgroup"]);
    assert_eq!(candidate_dirs("0:: a/b \nrest"), vec![
        "/sys/fs/cgroup/a",
        "/sys/fs/cgroup"
    ]);
}

#[test]
fn a_group_without_its_controllers_goes_again() {
    let cg = groups();
    let made = Step::CreateDir {
        path: "/cg/p2p-telemetry".into(),
    };
    assert!(matches!(cg.setup_failed(&made), SetupFailure::GiveUp));
    let delegate = write("/cg/p2p-telemetry/cgroup.subtree_control", "+memory +pids");
    match cg.setup_failed(&delegate) {
        SetupFailure::Undo(undo) => assert_eq!(undo, remove("/cg/p2p-telemetry")),
        other => panic!("{other:?}"),
    }

    // A leftover that stays does not stop the setup.
    let kill = write("/cg/p2p-telemetry/3/cgroup.kill", "1");
    assert!(matches!(cg.setup_failed(&kill), SetupFailure::GoOn));
    let sweep = remove("/cg/p2p-telemetry/3");
    assert!(matches!(cg.setup_failed(&sweep), SetupFailure::GoOn));
    for step in cg.setup(&vec!["/cg/p2p-telemetry/3".into()]) {
        let owed = step == made || step == delegate;
        assert_eq!(
            matches!(cg.setup_failed(&step), SetupFailure::GoOn),
            !owed
        );
    }
}

#[test]
fn a_directory_is_removed_in_fifty_tries_or_not_at_all() {
    let wait = Some(Duration::from_millis(10));
    assert_eq!(removal_wait(1, false), wait);
    assert_eq!(removal_wait(49, false), wait);
    assert_eq!(removal_wait(50, false), None);
    assert_eq!(removal_wait(1, true), None);
    assert_eq!(removal_wait(u32::MAX, false), None);
}

#[test]
fn a_group_is_swept_and_made_anew() {
    let steps = groups().setup(&vec!["/cg/p2p-telemetry/3".into()]);
    assert_eq!(
        steps,
        vec![
            write("/cg/p2p-telemetry/3/cgroup.kill", "1"),
            remove("/cg/p2p-telemetry/3"),
            remove("/cg/p2p-telemetry"),
            Step::CreateDir {
                path: "/cg/p2p-telemetry".into()
            },
            write("/cg/p2p-telemetry/cgroup.subtree_control", "+memory +pids"),
        ]
    );
}

#[test]
fn a_leaf_is_capped_and_removed() {
    let cg = groups();
    let plan = cg.create_leaf(
        4,
        &Limits {
            memory: Some(64),
            pids: Some(32),
            cpu: Some(9),
        },
    );
    assert_eq!(plan.dir, "/cg/p2p-telemetry/4");
    assert_eq!(
        plan.caps,
        vec![
            write("/cg/p2p-telemetry/4/memory.max", "64"),
            write("/cg/p2p-telemetry/4/pids.max", "32"),
        ]
    );
    assert!(cg.create_leaf(5, &Limits::default()).caps.is_empty());
    assert_eq!(cg.kill(4), write("/cg/p2p-telemetry/4/cgroup.kill", "1"));
    assert_eq!(
        cg.remove(4),
        vec![
            write("/cg/p2p-telemetry/4/cgroup.kill", "1"),
            remove("/cg/p2p-telemetry/4"),
        ]
    );
    assert_eq!(
        cg.usage_files(4),
        (
            "/cg/p2p-telemetry/4/memory.current".to_string(),
            "/cg/p2p-telemetry/4/cpu.stat".to_string()
        )
    );
}

#[test]
fn shutdown_removes_every_leaf_and_the_group() {
    let leaves = vec!["/cg/p2p-telemetry/1".into(), "/cg/p2p-telemetry/2".into()];
    assert_eq!(
        groups().shutdown(&leaves),
        vec![
            write("/cg/p2p-telemetry/1/cgroup.kill", "1"),
            remove("/cg/p2p-telemetry/1"),
            write("/cg/p2p-telemetry/2/cgroup.kill", "1"),
            remove("/cg/p2p-telemetry/2"),
            remove("/cg/p2p-telemetry"),
        ]
    );
    assert_eq!(groups().shutdown(&vec![]), vec![remove("/cg/p2p-telemetry")]);
}

#[test]
fn usage_is_read_from_the_counters() {
    let stat = "user_usec 1\nusage_usec 250\r\nsystem_usec 3\n";
    assert_eq!(
        Cgroups::usage(Some(" 4096\n"), Some(stat)),
        Some(Usage {
            mem_bytes: 4096,
            cpu_usec: 250
        })
    );
    assert_eq!(Cgroups::usage(None, Some(stat)), None);
    assert_eq!(Cgroups::usage(Some("4096"), None), None);
    assert_eq!(Cgroups::usage(Some("max"), Some(stat)), None);
    assert_eq!(Cgroups::usage(Some("1"), Some("usage_usec x\n")), None);
    // The first line that can be read counts.
    assert_eq!(
        Cgroups::usage(Some("1"), Some("usage_usec x\nusage_usec 5")),
        Some(Usage {
            mem_bytes: 1,
            cpu_usec: 5
        })
    );
}

#[test]
fn a_plain_child_only_dies_with_its_parent() {
    let s = Sandbox::new(&Limits::default(), false, false, None);
    assert_eq!(s.apply(1000, 100), vec![SandboxStep::DieWithParent]);
}

#[test]
fn an_isolated_child_takes_every_step_in_order() {
    let limits = Limits {
        memory: Some(1 << 20),
        pids: Some(3),
        cpu: Some(60),
    };
    let store = b"/var/lib/node/store.redb".to_vec();
    let s = Sandbox::new(&limits, true, true, Some(&store));
    assert_eq!(
        s.apply(1000, 100),
        vec![
            SandboxStep::DieWithParent,
            SandboxStep::CapAddressSpace(1 << 20),
            SandboxStep::CapCpu(60),
            SandboxStep::JoinCgroup,
            SandboxStep::Unshare,
            SandboxStep::SetGroups(b"deny".to_vec()),
            SandboxStep::UidMap(b"0 1000 1\n".to_vec()),
            SandboxStep::GidMap(b"0 100 1\n".to_vec()),
            SandboxStep::PrivateMounts,
            SandboxStep::HideDir(b"/var/lib/node".to_vec()),
        ]
    );

    // Without isolation the store is not hidden.
    let open = Sandbox::new(&limits, false, false, Some(&store));
    assert_eq!(open.store_dir, None);
}

#[test]
fn the_stores_directory_is_hidden() {
    let dir = |p: &str| store_hide_dir(Some(&p.as_bytes().to_vec()));
    assert_eq!(dir("/a/b/c"), Some(b"/a/b".to_vec()));
    assert_eq!(dir("/store"), Some(b"/".to_vec()));
    assert_eq!(dir("/"), None);
    assert_eq!(dir("/a\0b/c"), None);
    assert_eq!(dir("/a/b\0"), Some(b"/a".to_vec()));
    assert_eq!(store_hide_dir(None), None);
}

#[test]
fn id_maps_fit_their_buffer() {
    assert_eq!(id_map(0), b"0 0 1\n");
    assert_eq!(id_map(u32::MAX), b"0 4294967295 1\n");
    assert!(id_map(u32::MAX).len() <= 32);
}

#[test]
fn different_children_have_different_leaves() {
    let cg = groups();
    let leaves: Vec<String> = [1, 11, 111, 12, 21].map(|h| cg.leaf(h)).into();
    for (i, a) in leaves.iter().enumerate() {
        for b in &leaves[i + 1..] {
            assert_ne!(a, b);
        }
    }
    assert_eq!(
        cg.leaf(u64::MAX),
        "/cg/p2p-telemetry/18446744073709551615"
    );
}

#[test]
fn a_childs_sandbox_is_what_its_spec_asks_for() {
    let spec = Spec {
        cmd: "sh".into(),
        limits: Limits {
            memory: Some(1 << 20),
            cpu: Some(7),
            ..Default::default()
        },
        isolate: true,
        ..Default::default()
    };
    let store = b"/var/lib/node/store.redb".to_vec();
    let s = Sandbox::for_child(&spec, true, Some(&store));
    assert_eq!((s.memory, s.cpu), (Some(1 << 20), Some(7)));
    assert!(s.join_cgroup && s.isolate);
    assert_eq!(s.store_dir, Some(b"/var/lib/node".to_vec()));

    let plain = Spec {
        isolate: false,
        ..spec
    };
    let s = Sandbox::for_child(&plain, false, Some(&store));
    assert!(!s.join_cgroup && !s.isolate);
    assert_eq!(s.store_dir, None);
}
