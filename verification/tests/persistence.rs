//! Process records and node identity survive a supervisor restart.

use std::collections::BTreeMap;

use mesh_supervisor::process::{ProcessManager, Record};
use mesh_supervisor::proto::{ControlError, ProcState, Spec};
use mesh_supervisor::store::{Loaded, Store, StoreError, Write};
use mesh_supervisor::time::Duration;

type Wire = (String, Vec<String>, Vec<(String, String)>, u32, (u8, Option<i32>));

fn encode(rec: &Record) -> Option<Vec<u8>> {
    let status = match rec.status {
        ProcState::Running => (0, None),
        ProcState::Exited(code) => (1, code),
        ProcState::Stale => (2, None),
    };
    let wire: Wire = (
        rec.cmd.clone(),
        rec.args.clone(),
        rec.env.clone(),
        rec.pid,
        status,
    );
    postcard::to_allocvec(&wire).ok()
}

fn decode(bytes: &[u8]) -> Option<Record> {
    let (cmd, args, env, pid, status): Wire = postcard::from_bytes(bytes).ok()?;
    let status = match status {
        (0, _) => ProcState::Running,
        (1, code) => ProcState::Exited(code),
        (2, _) => ProcState::Stale,
        _ => return None,
    };
    Some(Record {
        cmd,
        args,
        env,
        pid,
        status,
    })
}

/// The two tables of a store file.
#[derive(Default)]
struct Disk {
    records: BTreeMap<u64, Vec<u8>>,
    counter: Option<Vec<u8>>,
    secret: Option<Vec<u8>>,
}

impl Disk {
    fn commit(&mut self, txn: Vec<Write>) {
        for w in txn {
            match w {
                Write::Record { handle, bytes } => {
                    self.records.insert(handle, bytes);
                }
                Write::Remove { handle } => {
                    self.records.remove(&handle);
                }
                Write::Counter { bytes } => self.counter = Some(bytes),
                Write::Secret { bytes } => self.secret = Some(bytes),
            }
        }
    }

    fn put(&mut self, handle: u64, rec: &Record) {
        self.commit(Store::put(handle, encode(rec).unwrap()));
    }

    fn load(&self) -> Result<Loaded, StoreError> {
        // In the order in which no table hands them out.
        let rows = self
            .records
            .iter()
            .rev()
            .map(|(h, b)| (*h, b.clone()))
            .collect();
        Store::load(rows, self.counter.as_deref(), decode)
    }
}

fn record(cmd: &str, pid: u32, status: ProcState) -> Record {
    Record {
        cmd: cmd.into(),
        args: vec![],
        env: vec![],
        pid,
        status,
    }
}

fn spawn(pm: &mut ProcessManager, cmd: &str) -> u64 {
    let spec = Spec {
        cmd: cmd.into(),
        ..Default::default()
    };
    let id = pm.reserve();
    pm.spawn::<()>(id, &spec, Ok(900)).0.unwrap().0
}

#[test]
fn process_state_survives_restart() {
    let mut disk = Disk::default();

    // The record is left "running" after a supervisor stops.
    disk.put(
        1,
        &Record {
            cmd: "sleep".into(),
            args: vec!["30".into()],
            env: vec![],
            pid: 4242,
            status: ProcState::Running,
        },
    );

    // Restart: reload the table.
    let loaded = disk.load().expect("store load failed");
    assert_eq!(loaded.next_handle, 1);

    let mut pm = ProcessManager::with_store(&loaded, None, Duration::from_secs(5));

    // The child is gone, so the record reloads as a stale tombstone (pid preserved).
    assert_eq!(pm.list(), vec![1]);
    let info = pm.query(1).expect("query failed");
    assert_eq!(
        info.state,
        ProcState::Stale,
        "reloaded record must be stale"
    );
    assert_eq!(info.pid, 4242);

    // Signalling a stale entry is refused (its pid may have been reused).
    assert!(pm.signal(1, 15).is_err());

    // A fresh spawn continues the counter.
    let new_handle = spawn(&mut pm, "true");
    assert!(new_handle > 1, "new handle must not reuse a reloaded one");
}

#[test]
fn relaunch_does_not_regress_handle_counter() {
    let mut disk = Disk::default();

    // Spawn handles 1 and 2, then persist handle 1 again as a relaunch would.
    disk.put(1, &record("a", 1, ProcState::Running));
    disk.put(2, &record("b", 1, ProcState::Running));
    disk.put(1, &record("a", 1, ProcState::Running));
    assert_eq!(disk.counter, Some(1u64.to_le_bytes().to_vec()));

    let loaded = disk.load().expect("store load failed");
    assert!(
        loaded.next_handle >= 2,
        "next_handle {} would reuse a live handle",
        loaded.next_handle
    );

    let mut pm = ProcessManager::with_store(&loaded, None, Duration::from_secs(5));
    let new_handle = spawn(&mut pm, "true");
    assert!(
        new_handle > 2,
        "fresh spawn handle {new_handle} collided with an existing handle"
    );
}

#[test]
fn identity_survives_restart() {
    let mut disk = Disk::default();
    let (first, txn) = Store::secret_key(disk.secret.as_deref()).expect("key");
    assert_eq!(txn.len(), 1);
    disk.commit(txn);
    let (second, txn) = Store::secret_key(disk.secret.as_deref()).expect("key");
    assert!(txn.is_empty());
    assert_eq!(
        iroh::SecretKey::from_bytes(&first).public(),
        iroh::SecretKey::from_bytes(&second).public(),
        "identity must survive restart"
    );

    // Another node has another identity.
    let (other, _) = Store::secret_key(None).expect("key");
    assert_ne!(first, other);
}

#[test]
fn a_stored_key_of_the_wrong_length_is_refused() {
    assert_eq!(
        Store::secret_key(Some(&[1, 2, 3])).map(|_| ()),
        Err(StoreError::BadSecret)
    );
    assert_eq!(
        Store::secret_key_with(None, [9; 32]).unwrap(),
        (
            [9; 32],
            vec![Write::Secret {
                bytes: vec![9; 32]
            }]
        )
    );
    assert_eq!(
        Store::secret_key_with(Some(&[7; 32]), [9; 32]).unwrap(),
        ([7; 32], vec![])
    );
}

#[test]
fn records_load_in_ascending_order() {
    let mut disk = Disk::default();
    for h in [5, 3, 9, 1] {
        disk.put(h, &record("x", h as u32, ProcState::Exited(Some(0))));
    }
    let loaded = disk.load().unwrap();
    let handles: Vec<u64> = loaded.records.iter().map(|r| r.0).collect();
    assert_eq!(handles, vec![1, 3, 5, 9]);
    assert!(loaded.records.iter().all(|(h, r)| r.pid as u64 == *h));
    assert_eq!(loaded.next_handle, 9);
}

#[test]
fn an_empty_store_loads_empty() {
    let loaded = Disk::default().load().unwrap();
    assert!(loaded.records.is_empty());
    assert_eq!(loaded.next_handle, 0);
}

#[test]
fn a_status_change_keeps_the_rest_of_the_record() {
    let mut disk = Disk::default();
    disk.put(4, &record("job", 77, ProcState::Running));
    let txn = Store::set_status(
        4,
        disk.records.get(&4).map(|b| b.as_slice()),
        ProcState::Exited(Some(2)),
        decode,
        encode,
    )
    .unwrap();
    disk.commit(txn);
    assert_eq!(
        disk.load().unwrap().records,
        vec![(4, record("job", 77, ProcState::Exited(Some(2))))]
    );

    // A record that is gone stays gone.
    disk.commit(Store::remove(4));
    assert!(disk.load().unwrap().records.is_empty());
    assert_eq!(
        Store::set_status(4, None, ProcState::Stale, decode, encode),
        Ok(vec![])
    );

    // Its handle is not handed out again.
    assert_eq!(disk.load().unwrap().next_handle, 4);
}

#[test]
fn unreadable_contents_are_reported() {
    let mut disk = Disk::default();
    disk.records.insert(1, vec![0xff; 3]);
    assert_eq!(disk.load().map(|_| ()), Err(StoreError::BadRecord));
    assert_eq!(
        Store::set_status(1, Some(&[0xff; 3]), ProcState::Stale, decode, encode),
        Err(StoreError::BadRecord)
    );

    let mut disk = Disk::default();
    disk.counter = Some(vec![1, 2, 3]);
    assert_eq!(disk.load().map(|_| ()), Err(StoreError::BadCounter));

    let bytes = encode(&record("x", 1, ProcState::Stale)).unwrap();
    assert_eq!(
        Store::set_status(1, Some(&bytes), ProcState::Stale, decode, |_| None),
        Err(StoreError::Encode)
    );
}

#[test]
fn stale_processes_stay_down() {
    let loaded = Loaded {
        records: vec![
            (2, record("a", 10, ProcState::Running)),
            (5, record("b", 11, ProcState::Exited(Some(1)))),
        ],
        next_handle: 7,
    };
    let mut pm = ProcessManager::with_store(&loaded, None, Duration::from_secs(5));
    assert!(!pm.on_backoff(2));
    assert!(!pm.on_backoff(5));
    assert_eq!(pm.query(5).unwrap().state, ProcState::Exited(Some(1)));
    assert_eq!(
        pm.pipe_stdin(2),
        Err(ControlError::BadRequest("stdin unavailable".into()))
    );
    assert_eq!(pm.stop(2), Ok(None));
    assert_eq!(pm.reserve(), 8);
    assert!(pm.forget(2).is_ok());
    assert_eq!(pm.list(), vec![5]);
}

#[test]
fn any_sequence_of_changes_is_loaded_as_it_was_left() {
    let mut disk = Disk::default();
    let status = |disk: &mut Disk, h: u64, status: ProcState| {
        let stored = disk.records.get(&h).cloned();
        let txn = Store::set_status(h, stored.as_deref(), status, decode, encode).unwrap();
        disk.commit(txn);
    };
    disk.put(2, &record("b", 20, ProcState::Running));
    disk.put(1, &record("a", 10, ProcState::Running));
    disk.put(3, &record("c", 30, ProcState::Running));
    status(&mut disk, 1, ProcState::Exited(Some(1)));
    status(&mut disk, 9, ProcState::Stale);
    disk.commit(Store::remove(3));
    disk.put(2, &record("b2", 21, ProcState::Running));
    status(&mut disk, 2, ProcState::Exited(None));
    disk.commit(Store::remove(7));

    let first = disk.load().unwrap();
    assert_eq!(
        first.records,
        vec![
            (1, record("a", 10, ProcState::Exited(Some(1)))),
            (2, record("b2", 21, ProcState::Exited(None))),
        ]
    );
    assert!(first.next_handle >= 2);
    let second = disk.load().unwrap();
    assert_eq!(first.records, second.records);
    assert_eq!(first.next_handle, second.next_handle);
}

#[test]
fn a_bad_record_is_reported_before_a_bad_counter() {
    let mut disk = Disk::default();
    disk.records.insert(1, vec![0xff; 3]);
    disk.counter = Some(vec![1]);
    assert_eq!(disk.load().map(|_| ()), Err(StoreError::BadRecord));
}
