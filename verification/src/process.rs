//! The process table: which children a supervisor tracks, what becomes of one
//! that exits, and what a request may do to one.
//!
//! The table decides; launching, signalling and writing to disk are left to the
//! caller, who is handed what to do and reports back what came of it.

use std::collections::{HashMap, HashSet};

use vstd::prelude::*;

use crate::cgroup::{Cgroups, LeafPlan};
use crate::proto::{ControlError, Handle, ProcInfo, ProcState, RestartPolicy, Spec, Usage};
use crate::store::Loaded;
use crate::text::signed_string;
use crate::time::Duration;

verus! {

broadcast use vstd::std_specs::hash::group_hash_axioms;

/// The search path of a child, unless the client passes one.
pub const DEFAULT_PATH: &'static str = "/usr/bin:/bin";

/// How many chunks of output a slow subscriber may fall behind.
pub const STDOUT_CAP: usize = 1024;

/// The most bytes of output that are read at a time.
pub const CHUNK: usize = 8192;

/// A restart waits for at most this many seconds.
pub const RESTART_MAX_SECS: u64 = 30;

/// A child that stayed up for this many seconds counts as healthy again.
pub const STABLE_RESET_SECS: u64 = 10;

/// The grace period, in seconds, between asking a child to end and killing it.
pub const STOP_DEADLINE_SECS: u64 = 5;

/// Durable description of a spawned process: the spawn request is its identity,
/// `pid` and `status` are its state.
#[derive(Debug, Clone, PartialEq)]
pub struct Record {
    pub cmd: String,
    pub args: Vec<String>,
    pub env: Vec<(String, String)>,
    pub pid: u32,
    pub status: ProcState,
}

impl Record {
    /// Whether this describes a child launched by `spec`.
    pub open spec fn describes(self, spec: Spec, pid: u32, status: ProcState) -> bool {
        &&& self.cmd == spec.cmd
        &&& self.args@ == spec.args@
        &&& self.env@ == spec.env@
        &&& self.pid == pid
        &&& self.status == status
    }

    /// The same record with another status.
    pub open spec fn with_status(self, status: ProcState) -> Record {
        Record { status, ..self }
    }
}

/// Copies a list of texts.
fn copy_texts(v: &Vec<String>) -> (r: Vec<String>)
    ensures
        r@ == v@,
{
    let mut r: Vec<String> = Vec::new();
    let mut i: usize = 0;
    while i < v.len()
        invariant
            i <= v@.len(),
            r@ == v@.take(i as int),
        decreases v@.len() - i,
    {
        r.push(v[i].clone());
        i = i + 1;
        assert(v@.take(i as int) =~= v@.take(i - 1).push(v@[i - 1]));
    }
    assert(v@.take(v@.len() as int) =~= v@);
    r
}

/// Appends copies of the pairs in `v` to `out`.
fn copy_pairs(out: &mut Vec<(String, String)>, v: &Vec<(String, String)>)
    ensures
        final(out)@ == old(out)@ + v@,
{
    let mut i: usize = 0;
    assert(out@ =~= old(out)@ + v@.take(0));
    while i < v.len()
        invariant
            i <= v@.len(),
            out@ == old(out)@ + v@.take(i as int),
        decreases v@.len() - i,
    {
        out.push((v[i].0.clone(), v[i].1.clone()));
        i = i + 1;
        assert(v@.take(i as int) =~= v@.take(i - 1).push(v@[i - 1]));
        assert(out@ =~= old(out)@ + v@.take(i as int));
    }
    assert(v@.take(v@.len() as int) =~= v@);
}

/// On reload a running child is in fact dead: it died with the old supervisor.
pub open spec fn reloaded_spec(state: ProcState) -> ProcState {
    if state is Running {
        ProcState::Stale
    } else {
        state
    }
}

/// On reload a running child is in fact dead: it died with the old supervisor.
pub fn reloaded(state: ProcState) -> (r: ProcState)
    ensures
        r == reloaded_spec(state),
{
    match state {
        ProcState::Running => ProcState::Stale,
        other => other,
    }
}

/// Whether an exit with `code` (`None` = killed by a signal) warrants a relaunch.
pub open spec fn restart_due(policy: RestartPolicy, code: Option<i32>) -> bool {
    match policy {
        RestartPolicy::Never => false,
        RestartPolicy::Always => true,
        RestartPolicy::OnFailure => code != Some(0i32),
    }
}

/// Whether an exit with `code` (`None` = killed by a signal) warrants a relaunch.
pub fn should_restart(policy: RestartPolicy, code: Option<i32>) -> (r: bool)
    ensures
        r == restart_due(policy, code),
{
    match policy {
        RestartPolicy::Never => false,
        RestartPolicy::Always => true,
        RestartPolicy::OnFailure => match code {
            Some(c) => c != 0,
            None => true,
        },
    }
}

/// How many seconds the restart after the `attempt`-th fast exit in a row waits:
/// one at first, twice as many every time, up to the cap.
pub open spec fn backoff_secs(attempt: nat) -> nat {
    let doubled = crate::time::two_to((attempt - 1) as nat);
    if doubled <= RESTART_MAX_SECS {
        doubled
    } else {
        RESTART_MAX_SECS as nat
    }
}

/// How long the restart after the `attempt`-th fast exit in a row waits.
pub fn backoff(attempt: u32) -> (d: Duration)
    requires
        attempt >= 1,
    ensures
        d == Duration::secs_spec(backoff_secs(attempt as nat)),
        d.nanos == backoff_secs(attempt as nat) * 1_000_000_000,
{
    let doublings: u32 = if attempt <= 6 {
        attempt - 1
    } else {
        5
    };
    let mut secs: u64 = 1;
    let mut i: u32 = 0;
    while i < doublings
        invariant
            i <= doublings <= 5,
            secs == crate::time::two_to(i as nat),
            secs <= 32,
            i == 5 ==> secs == 32,
            i == 4 ==> secs == 16,
            i == 3 ==> secs == 8,
            i == 2 ==> secs == 4,
            i == 1 ==> secs == 2,
            i == 0 ==> secs == 1,
        decreases doublings - i,
    {
        secs = secs * 2;
        i = i + 1;
    }
    proof {
        if attempt > 6 {
            crate::time::lemma_two_to_grows(5, (attempt - 1) as nat);
        }
    }
    if secs <= RESTART_MAX_SECS {
        Duration::from_secs(secs)
    } else {
        Duration::from_secs(RESTART_MAX_SECS)
    }
}

/// One tracked process.
#[derive(Debug, Clone, Copy)]
pub struct ProcEntry {
    pub pid: u32,
    pub status: ProcState,
    /// Whether its standard input can still be written to.
    pub stdin_open: bool,
    /// How often this handle has been relaunched.
    pub restarts: u32,
    /// Restart enabled; cleared by a stop, so that a crash still restarts.
    pub armed: bool,
}

impl ProcEntry {
    /// What is left of a process after a restart of the supervisor.
    pub open spec fn tombstone(rec: Record) -> ProcEntry {
        ProcEntry {
            pid: rec.pid,
            status: reloaded_spec(rec.status),
            stdin_open: false,
            restarts: 0,
            armed: false,
        }
    }

    /// What is left of a process after a restart of the supervisor: no live
    /// child, nothing to write to, and never relaunched.
    pub fn stale(rec: &Record) -> (e: ProcEntry)
        ensures
            e == ProcEntry::tombstone(*rec),
    {
        ProcEntry {
            pid: rec.pid,
            status: reloaded(rec.status),
            stdin_open: false,
            restarts: 0,
            armed: false,
        }
    }

    pub open spec fn bare_info(self, handle: Handle) -> ProcInfo {
        ProcInfo {
            handle,
            pid: self.pid,
            state: self.status,
            usage: None,
            restarts: self.restarts,
        }
    }

    /// A snapshot of everything but the live usage.
    pub fn info(&self, handle: Handle) -> (i: ProcInfo)
        ensures
            i == self.bare_info(handle),
    {
        ProcInfo {
            handle,
            pid: self.pid,
            state: self.status,
            usage: None,
            restarts: self.restarts,
        }
    }
}

/// Something that the table's owner is to do outside the table.
#[derive(Debug)]
pub enum Effect {
    /// Write the record of a spawn or relaunch to the store.
    Persist { id: Handle, record: Record },
    /// Write a new status into the stored record.
    PersistStatus { id: Handle, status: ProcState },
    /// Drop the stored record.
    Unpersist { id: Handle },
    /// Kill what is left in the control-group leaf and remove it.
    RemoveLeaf { id: Handle },
}

/// A child to ask to end now, and to look after again when the grace period is
/// over.
#[derive(Debug, Clone, Copy, PartialEq, Eq, Structural)]
pub struct Termination {
    pub id: Handle,
    pub pid: u32,
    pub grace: Duration,
}

/// Whom to kill.
#[derive(Debug, Clone, Copy, PartialEq, Eq, Structural)]
pub enum Kill {
    /// Everything in the leaf of this handle.
    Leaf(Handle),
    /// The process group that this process leads.
    Group(u32),
    /// Every leaf, and the group itself.
    AllLeaves,
}

/// The state of one child's supervision.
#[derive(Debug, Clone, Copy)]
pub struct Supervision {
    pub id: Handle,
    pub policy: RestartPolicy,
    /// Consecutive fast restarts allowed; `0` = unlimited.
    pub max_retries: u32,
    /// Consecutive fast restarts so far.
    pub attempt: u32,
}

/// What becomes of a child that has exited.
#[derive(Debug, Clone, Copy, PartialEq, Eq, Structural)]
pub enum AfterExit {
    /// It stays down.
    Finished,
    /// It stays down: it has come up and crashed too often in a row.
    GaveUp,
    /// It is relaunched after this long, unless it is stopped meanwhile.
    RestartAfter(Duration),
}

/// What becomes of a child that was launched again.
#[derive(Debug)]
pub enum Relaunch<E> {
    /// It is up, with this pid, and supervised further.
    Up(u32),
    /// It is up, but nobody wants it any more: kill it.
    Unwanted(Kill),
    /// It did not come up, and is given up.
    Failed(E),
}

/// A process table as a value.
pub struct Manager {
    pub procs: Map<Handle, ProcEntry>,
    /// The handles under which a relaunch is being waited for.
    pub due: Set<Handle>,
    /// The highest handle handed out so far.
    pub next: u64,
    /// Whether records are kept in a store.
    pub stored: bool,
    /// The group that children get control-group leaves in, if there is one.
    pub group: Option<Seq<char>>,
    /// Whether the supervisor is shutting down.
    pub shutdown: bool,
    /// The grace period of a stop.
    pub stop_deadline: Duration,
}

impl Manager {
    /// No handle is above the counter, what was reloaded is neither armed nor
    /// writable, and no process that is tracked but not armed is due to come back.
    pub open spec fn wf(self) -> bool {
        &&& forall|h: Handle| #[trigger] self.procs.contains_key(h) ==> h <= self.next
        &&& forall|h: Handle| #[trigger]
            self.procs.contains_key(h) && self.procs[h].status is Stale ==> !self.procs[h].armed
                && !self.procs[h].stdin_open
        &&& forall|h: Handle| #[trigger]
            self.due.contains(h) && self.procs.contains_key(h) ==> self.procs[h].armed
    }

    pub open spec fn tracks(self, id: Handle) -> bool {
        self.procs.contains_key(id)
    }

    pub open spec fn runs(self, id: Handle) -> bool {
        self.tracks(id) && self.procs[id].status is Running
    }

    /// Whether any process runs.
    pub open spec fn busy(self) -> bool {
        exists|h: Handle| #[trigger] self.runs(h)
    }

    pub open spec fn armed(self, id: Handle) -> bool {
        self.tracks(id) && self.procs[id].armed
    }

    /// Whether a child that is down is to come up again: if that is being waited for,
    /// and the supervisor does not shut down. To be forgotten is no end to the wait.
    pub open spec fn may_relaunch(self, id: Handle) -> bool {
        !self.shutdown && self.due.contains(id)
    }

    /// A relaunch is being waited for.
    pub open spec fn awaiting(self, id: Handle) -> Manager {
        Manager { due: self.due.insert(id), ..self }
    }

    /// No relaunch is being waited for any more.
    pub open spec fn settled(self, id: Handle) -> Manager {
        Manager { due: self.due.remove(id), ..self }
    }

    pub open spec fn with_entry(self, id: Handle, e: ProcEntry) -> Manager {
        Manager { procs: self.procs.insert(id, e), ..self }
    }

    /// How a child is killed: its leaf if it has one, else its process group.
    pub open spec fn kill_target(self, id: Handle, pid: u32) -> Kill {
        if self.group is Some {
            Kill::Leaf(id)
        } else {
            Kill::Group(pid)
        }
    }

    /// Whether these are all the handles with a running child, ascending.
    pub open spec fn lists_running(self, s: Seq<Handle>) -> bool {
        &&& ascending(s)
        &&& forall|h: Handle| #[trigger] s.contains(h) <==> self.runs(h)
    }

    /// The pids of these handles.
    pub open spec fn pids_of(self, s: Seq<Handle>) -> Seq<u32> {
        Seq::new(s.len(), |i: int| self.procs[s[i]].pid)
    }

    /// One more handle is handed out.
    pub open spec fn reserved(self) -> Manager {
        Manager { next: (self.next + 1) as u64, ..self }
    }

    /// A child has been launched under a new handle.
    pub open spec fn spawned(self, id: Handle, pid: u32) -> Manager {
        self.with_entry(
            id,
            ProcEntry {
                pid,
                status: ProcState::Running,
                stdin_open: true,
                restarts: 0,
                armed: true,
            },
        )
    }

    /// A child has exited.
    pub open spec fn exited(self, id: Handle, code: Option<i32>) -> Manager {
        if self.tracks(id) {
            self.with_entry(id, ProcEntry { status: ProcState::Exited(code), ..self.procs[id] })
        } else {
            self
        }
    }

    /// A child has been launched again under its handle.
    pub open spec fn relaunched(self, id: Handle, pid: u32) -> Manager {
        if self.tracks(id) {
            self.settled(id).with_entry(
                id,
                ProcEntry {
                    pid,
                    status: ProcState::Running,
                    stdin_open: true,
                    restarts: (self.procs[id].restarts + 1) as u32,
                    armed: self.procs[id].armed,
                },
            )
        } else {
            self.settled(id)
        }
    }

    /// A process is not to be relaunched any more.
    pub open spec fn disarmed(self, id: Handle) -> Manager {
        if self.tracks(id) {
            self.settled(id).with_entry(id, ProcEntry { armed: false, ..self.procs[id] })
        } else {
            self
        }
    }

    /// A process is no longer tracked.
    pub open spec fn forgotten(self, id: Handle) -> Manager {
        Manager { procs: self.procs.remove(id), ..self }
    }

    /// The supervisor shuts down.
    pub open spec fn shut_down(self) -> Manager {
        Manager { shutdown: true, ..self }
    }

    /// The standard input of the `launch`-th launch of a process is closed.
    pub open spec fn stdin_closed(self, id: Handle, launch: u32) -> Manager {
        if self.tracks(id) && self.procs[id].restarts == launch {
            self.with_entry(id, ProcEntry { stdin_open: false, ..self.procs[id] })
        } else {
            self
        }
    }

    /// What is to be done once a child's exit is noted.
    pub open spec fn exit_effects(self, id: Handle, code: Option<i32>) -> Seq<Effect> {
        (if self.stored {
            seq![Effect::PersistStatus { id, status: ProcState::Exited(code) }]
        } else {
            Seq::empty()
        }) + self.cleanup_effects(id)
    }

    /// What is to be done with a leaf that no child is in any more.
    pub open spec fn cleanup_effects(self, id: Handle) -> Seq<Effect> {
        if self.group is Some {
            seq![Effect::RemoveLeaf { id }]
        } else {
            Seq::empty()
        }
    }

    /// Whether `effects` keep the record of a launch, if records are kept.
    pub open spec fn launch_effects(
        self,
        effects: Seq<Effect>,
        id: Handle,
        spec: Spec,
        pid: u32,
    ) -> bool {
        if self.stored {
            effects.len() == 1 && (effects[0] matches Effect::Persist { id: h, record } && h == id
                && record.describes(spec, pid, ProcState::Running))
        } else {
            effects.len() == 0
        }
    }
}

/// The attempt that an exit counts as: a child that stayed up long enough starts
/// over.
pub open spec fn next_attempt(attempt: nat, uptime: Duration) -> nat {
    if uptime.nanos >= STABLE_RESET_SECS * 1_000_000_000 {
        1
    } else {
        attempt + 1
    }
}

/// What becomes of a child that exits with `code` after `uptime`, if it may be
/// relaunched at all.
pub open spec fn restart_decision(s: Supervision, code: Option<i32>, uptime: Duration) -> AfterExit {
    let n = next_attempt(s.attempt as nat, uptime);
    if !restart_due(s.policy, code) {
        AfterExit::Finished
    } else if s.max_retries != 0 && n > s.max_retries {
        AfterExit::GaveUp
    } else {
        AfterExit::RestartAfter(Duration::secs_spec(backoff_secs(n)))
    }
}

/// The table that a list of records stands for after a restart.
pub open spec fn tombstones(records: Seq<(Handle, Record)>) -> Map<Handle, ProcEntry>
    decreases records.len(),
{
    if records.len() == 0 {
        Map::empty()
    } else {
        tombstones(records.drop_last()).insert(
            records.last().0,
            ProcEntry::tombstone(records.last().1),
        )
    }
}

/// Strictly increasing.
pub open spec fn ascending(s: Seq<Handle>) -> bool {
    forall|i: int, j: int| 0 <= i < j < s.len() ==> s[i] < s[j]
}

/// Whether these are all the handles of a table, ascending.
pub open spec fn lists(procs: Map<Handle, ProcEntry>, s: Seq<Handle>) -> bool {
    &&& ascending(s)
    &&& forall|h: Handle| #[trigger] s.contains(h) <==> procs.contains_key(h)
}

/// Whether these are the snapshots of all the processes of a table, ascending by
/// handle.
pub open spec fn snapshots(procs: Map<Handle, ProcEntry>, s: Seq<ProcInfo>) -> bool {
    &&& lists(procs, Seq::new(s.len(), |i: int| s[i].handle))
    &&& forall|i: int|
        0 <= i < s.len() ==> #[trigger] s[i] == procs[s[i].handle].bare_info(s[i].handle)
}

/// The group that children get leaves in, as a text.
pub open spec fn group_view(c: Option<Cgroups>) -> Option<Seq<char>> {
    match c {
        Some(c) => Some(c@),
        None => None,
    }
}

/// The process table.
#[derive(Debug)]
pub struct ProcessManager {
    procs: HashMap<Handle, ProcEntry>,
    due: HashSet<Handle>,
    next: u64,
    stored: bool,
    cgroups: Option<Cgroups>,
    shutdown: bool,
    stop_deadline: Duration,
}

impl View for ProcessManager {
    type V = Manager;

    closed spec fn view(&self) -> Manager {
        Manager {
            procs: self.procs@,
            due: self.due@,
            next: self.next,
            stored: self.stored,
            group: group_view(self.cgroups),
            shutdown: self.shutdown,
            stop_deadline: self.stop_deadline,
        }
    }
}

impl ProcessManager {
    /// An empty table that is kept in memory only.
    pub fn new() -> (m: ProcessManager)
        ensures
            m@.wf(),
            m@ == (Manager {
                procs: Map::empty(),
                due: Set::empty(),
                next: 0,
                stored: false,
                group: None,
                shutdown: false,
                stop_deadline: Duration::secs_spec(STOP_DEADLINE_SECS as nat),
            }),
    {
        ProcessManager {
            procs: HashMap::new(),
            due: HashSet::new(),
            next: 0,
            stored: false,
            cgroups: None,
            shutdown: false,
            stop_deadline: Duration::from_secs(STOP_DEADLINE_SECS),
        }
    }

    /// A table that is kept in a store: reloads what the store held, and goes on
    /// counting handles from there.
    pub fn with_store(loaded: &Loaded, cgroups: Option<Cgroups>, stop_deadline: Duration) -> (m:
        ProcessManager)
        requires
            loaded.wf(),
        ensures
            m@.wf(),
            m@ == (Manager {
                procs: tombstones(loaded.records@),
                due: Set::empty(),
                next: loaded.next_handle,
                stored: true,
                group: group_view(cgroups),
                shutdown: false,
                stop_deadline,
            }),
    {
        let mut procs: HashMap<Handle, ProcEntry> = HashMap::new();
        let ghost recs = loaded.records@;
        let mut i: usize = 0;
        assert(recs.take(0) =~= Seq::<(Handle, Record)>::empty());
        while i < loaded.records.len()
            invariant
                recs == loaded.records@,
                i <= recs.len(),
                procs@ == tombstones(recs.take(i as int)),
                loaded.wf(),
                forall|h: Handle| #[trigger]
                    procs@.contains_key(h) ==> h <= loaded.next_handle && !procs@[h].armed
                        && !procs@[h].stdin_open,
            decreases recs.len() - i,
        {
            let h: Handle = loaded.records[i].0;
            assert(recs[i as int].0 <= loaded.next_handle);
            let e = ProcEntry::stale(&loaded.records[i].1);
            procs.insert(h, e);
            assert(recs.take(i + 1).drop_last() =~= recs.take(i as int));
            i = i + 1;
        }
        assert(recs.take(recs.len() as int) =~= recs);
        ProcessManager {
            procs,
            due: HashSet::new(),
            next: loaded.next_handle,
            stored: true,
            cgroups,
            shutdown: false,
            stop_deadline,
        }
    }

    /// The control groups that children get leaves in.
    pub fn cgroups(&self) -> (r: Option<&Cgroups>)
        ensures
            match r {
                Some(c) => self@.group == Some(c@),
                None => self@.group is None,
            },
    {
        self.cgroups.as_ref()
    }

    /// How long a stop waits before it kills.
    pub fn stop_deadline(&self) -> (d: Duration)
        ensures
            d == self@.stop_deadline,
    {
        self.stop_deadline
    }

    fn entry(&self, id: Handle) -> (r: Option<ProcEntry>)
        ensures
            r == (if self@.tracks(id) {
                Some(self@.procs[id])
            } else {
                None
            }),
    {
        match self.procs.get(&id) {
            Some(e) => Some(*e),
            None => None,
        }
    }

    fn put(&mut self, id: Handle, e: ProcEntry)
        ensures
            final(self)@ == old(self)@.with_entry(id, e),
    {
        self.procs.insert(id, e);
    }

    fn lookup(&self, id: Handle) -> (r: Result<ProcEntry, ControlError>)
        ensures
            match r {
                Ok(e) => self@.tracks(id) && e == self@.procs[id],
                Err(e) => !self@.tracks(id) && e == ControlError::NotFound(id),
            },
    {
        match self.entry(id) {
            Some(e) => Ok(e),
            None => Err(ControlError::NotFound(id)),
        }
    }

    /// Whether there is a handle left to hand out.
    pub fn has_handles(&self) -> (r: bool)
        ensures
            r == (self@.next < u64::MAX),
    {
        self.next < u64::MAX
    }

    /// Hands out the next handle. Handles start at 1 and are never handed out
    /// twice.
    pub fn reserve(&mut self) -> (id: Handle)
        requires
            old(self)@.wf(),
            old(self)@.next < u64::MAX,
        ensures
            final(self)@.wf(),
            final(self)@ == old(self)@.reserved(),
            id == old(self)@.next + 1,
            !old(self)@.tracks(id),
    {
        self.next = self.next + 1;
        self.next
    }

    /// Keeps the record of a launch, if records are kept.
    fn persist(&self, id: Handle, spec: &Spec, pid: u32) -> (effects: Vec<Effect>)
        ensures
            self@.launch_effects(effects@, id, *spec, pid),
    {
        let mut effects: Vec<Effect> = Vec::new();
        if self.stored {
            let mut env: Vec<(String, String)> = Vec::new();
            copy_pairs(&mut env, &spec.env);
            assert(env@ =~= spec.env@);
            let record = Record {
                cmd: spec.cmd.clone(),
                args: copy_texts(&spec.args),
                env,
                pid,
                status: ProcState::Running,
            };
            effects.push(Effect::Persist { id, record });
        }
        effects
    }

    fn cleanup(&self, id: Handle) -> (effects: Vec<Effect>)
        ensures
            effects@ == self@.cleanup_effects(id),
    {
        let mut effects: Vec<Effect> = Vec::new();
        if self.cgroups.is_some() {
            effects.push(Effect::RemoveLeaf { id });
        }
        assert(effects@ =~= self@.cleanup_effects(id));
        effects
    }

    /// Notes what came of launching `spec` under the reserved handle `id`: a
    /// child that came up is tracked, armed and supervised from now on; of one
    /// that did not, only the leaf is left to remove.
    pub fn spawn<E>(&mut self, id: Handle, spec: &Spec, launched: Result<u32, E>) -> (r: (
        Result<(Handle, u32), E>,
        Vec<Effect>,
    ))
        requires
            old(self)@.wf(),
            id <= old(self)@.next,
        ensures
            final(self)@.wf(),
            match launched {
                Ok(pid) => {
                    &&& r.0 == Ok::<(Handle, u32), E>((id, pid))
                    &&& final(self)@ == old(self)@.spawned(id, pid)
                    &&& old(self)@.launch_effects(r.1@, id, *spec, pid)
                },
                Err(e) => {
                    &&& r.0 == Err::<(Handle, u32), E>(e)
                    &&& final(self)@ == old(self)@
                    &&& r.1@ == old(self)@.cleanup_effects(id)
                },
            },
    {
        match launched {
            Ok(pid) => {
                self.put(
                    id,
                    ProcEntry {
                        pid,
                        status: ProcState::Running,
                        stdin_open: true,
                        restarts: 0,
                        armed: true,
                    },
                );
                let effects = self.persist(id, spec, pid);
                (Ok((id, pid)), effects)
            },
            Err(e) => (Err(e), self.cleanup(id)),
        }
    }

    /// How a newly spawned child is supervised.
    pub fn supervise(id: Handle, spec: &Spec) -> (s: Supervision)
        ensures
            s == (Supervision {
                id,
                policy: spec.policy,
                max_retries: spec.max_retries,
                attempt: 0,
            }),
    {
        Supervision { id, policy: spec.policy, max_retries: spec.max_retries, attempt: 0 }
    }

    /// Notes that the child exited with `code` after `uptime`, and decides
    /// whether it is relaunched: by its policy, unless it was stopped, has
    /// crashed too often in a row, or the supervisor shuts down.
    pub fn on_exit(&mut self, s: &mut Supervision, code: Option<i32>, uptime: Duration) -> (r: (
        AfterExit,
        Vec<Effect>,
    ))
        requires
            old(self)@.wf(),
            old(s).attempt < u32::MAX,
        ensures
            final(self)@ == (if r.0 is RestartAfter {
                old(self)@.exited(old(s).id, code).awaiting(old(s).id)
            } else {
                old(self)@.exited(old(s).id, code)
            }),
            final(self)@.wf(),
            r.1@ == old(self)@.exit_effects(old(s).id, code),
            if !old(self)@.shutdown && old(self)@.armed(old(s).id) {
                &&& r.0 == restart_decision(*old(s), code, uptime)
                &&& *final(s) == (if restart_due(old(s).policy, code) {
                    Supervision {
                        attempt: next_attempt(old(s).attempt as nat, uptime) as u32,
                        ..*old(s)
                    }
                } else {
                    *old(s)
                })
            } else {
                r.0 == AfterExit::Finished && *final(s) == *old(s)
            },
    {
        let id: Handle = s.id;
        let mut effects: Vec<Effect> = Vec::new();
        let mut armed = false;
        if let Some(e) = self.entry(id) {
            armed = e.armed;
            self.put(
                id,
                ProcEntry {
                    pid: e.pid,
                    status: ProcState::Exited(code),
                    stdin_open: e.stdin_open,
                    restarts: e.restarts,
                    armed: e.armed,
                },
            );
        }
        if self.stored {
            effects.push(Effect::PersistStatus { id, status: ProcState::Exited(code) });
        }
        let mut cleanup = self.cleanup(id);
        effects.append(&mut cleanup);
        assert(effects@ =~= old(self)@.exit_effects(id, code));
        if self.shutdown || !armed || !should_restart(s.policy, code) {
            return (AfterExit::Finished, effects);
        }
        let attempt: u32 = if uptime.nanos >= STABLE_RESET_SECS as u128 * 1_000_000_000 {
            1
        } else {
            s.attempt + 1
        };
        s.attempt = attempt;
        if s.max_retries != 0 && attempt > s.max_retries {
            return (AfterExit::GaveUp, effects);
        }
        self.due.insert(id);
        (AfterExit::RestartAfter(backoff(attempt)), effects)
    }

    /// Whether the wait before a restart is to end in one: not if the process was
    /// stopped, or the supervisor shut down, during the wait. A process that was
    /// forgotten comes back all the same.
    pub fn on_backoff(&self, id: Handle) -> (r: bool)
        ensures
            r == self@.may_relaunch(id),
    {
        !self.shutdown && self.due.contains(&id)
    }

    /// Notes what came of launching a child again under its handle. One that came
    /// up is supervised further, and its record kept, unless the process was stopped,
    /// or the supervisor shut down, while it was being launched: it is then to be
    /// killed, and the process stays down. One that did not come up is given up. The
    /// child of a process that was forgotten meanwhile is not tracked.
    pub fn on_relaunch<E>(&mut self, id: Handle, spec: &Spec, launched: Result<u32, E>) -> (r: (
        Relaunch<E>,
        Vec<Effect>,
    ))
        requires
            old(self)@.wf(),
            old(self)@.tracks(id) ==> old(self)@.procs[id].restarts < u32::MAX,
        ensures
            final(self)@.wf(),
            match launched {
                Ok(pid) => if old(self)@.may_relaunch(id) {
                    &&& r.0 == Relaunch::<E>::Up(pid)
                    &&& final(self)@ == old(self)@.relaunched(id, pid)
                    &&& old(self)@.launch_effects(r.1@, id, *spec, pid)
                } else {
                    &&& r.0 == Relaunch::<E>::Unwanted(old(self)@.kill_target(id, pid))
                    &&& final(self)@ == old(self)@.settled(id)
                    &&& r.1@ == old(self)@.cleanup_effects(id)
                },
                Err(e) => {
                    &&& r.0 == Relaunch::<E>::Failed(e)
                    &&& final(self)@ == old(self)@.settled(id)
                    &&& r.1@ == old(self)@.cleanup_effects(id)
                },
            },
    {
        let wanted = self.on_backoff(id);
        self.due.remove(&id);
        let pid: u32 = match launched {
            Ok(pid) => pid,
            Err(e) => {
                return (Relaunch::Failed(e), self.cleanup(id));
            },
        };
        if !wanted {
            return (Relaunch::Unwanted(self.target(id, pid)), self.cleanup(id));
        }
        if let Some(e) = self.entry(id) {
            self.put(
                id,
                ProcEntry {
                    pid,
                    status: ProcState::Running,
                    stdin_open: true,
                    restarts: e.restarts + 1,
                    armed: e.armed,
                },
            );
        }
        let effects = self.persist(id, spec, pid);
        (Relaunch::Up(pid), effects)
    }

    /// How a child is killed: its leaf if it has one, else its process group, never
    /// a bare pid.
    fn target(&self, id: Handle, pid: u32) -> (k: Kill)
        ensures
            k == self@.kill_target(id, pid),
    {
        if self.cgroups.is_some() {
            Kill::Leaf(id)
        } else {
            Kill::Group(pid)
        }
    }

    /// The handles of all tracked processes, ascending.
    pub fn list(&self) -> (r: Vec<Handle>)
        ensures
            lists(self@.procs, r@),
    {
        let keys = self.procs.keys();
        let ghost all = vstd::std_specs::iter::IteratorSpec::remaining(&keys);
        assert forall|h: Handle| #[trigger] self.procs@.contains_key(h) implies exists|j: int|
            0 <= j < all.len() && *(#[trigger] all[j]) == h by {
            assert(all.unref().to_set().contains(h));
            let j = choose|j: int| 0 <= j < all.unref().len() && all.unref()[j] == h;
            assert(*all[j] == h);
        }
        assert forall|j: int| 0 <= j < all.len() implies self.procs@.contains_key(
            *(#[trigger] all[j]),
        ) by {
            assert(all.unref()[j] == *all[j]);
            assert(all.unref().contains(*all[j]));
            assert(all.unref().to_set().contains(*all[j]));
        }
        let mut r: Vec<Handle> = Vec::new();
        for k in it: keys
            invariant
                ascending(r@),
                it.seq() == all,
                forall|h: Handle| #[trigger]
                    r@.contains(h) <==> exists|j: int|
                        0 <= j < it.index() && *(#[trigger] all[j]) == h,
                all.no_duplicates(),
        {
            let ghost before = r@;
            let ghost n = it.index();
            assert(all[n] == k);
            let h: Handle = *k;
            let mut i: usize = 0;
            while i < r.len() && r[i] < h
                invariant
                    i <= r@.len(),
                    r@ == before,
                    forall|j: int| 0 <= j < i ==> r@[j] < h,
                decreases r@.len() - i,
            {
                i = i + 1;
            }
            proof {
                if i < r@.len() && r@[i as int] == h {
                    assert(before.contains(h));
                    let j = choose|j: int| 0 <= j < n && *(#[trigger] all[j]) == h;
                    assert(all[j] == all[n]);
                    assert(false);
                }
            }
            r.insert(i, h);
            proof {
                let after = r@;
                assert(after =~= before.insert(i as int, h));
                assert forall|a: int, b: int| 0 <= a < b < after.len() implies after[a] < after[b] by {
                    let a0 = if a < i { a } else { a - 1 };
                    let b0 = if b < i { b } else { b - 1 };
                    if a != i && b != i {
                        assert(after[a] == before[a0] && after[b] == before[b0]);
                    } else if b == i {
                        assert(after[a] == before[a]);
                    } else {
                        assert(after[b] == before[b0]);
                        assert(before[i as int] <= before[b0]);
                    }
                }
                assert forall|q: Handle| #[trigger] after.contains(q) <==> exists|j: int|
                    0 <= j < n + 1 && *(#[trigger] all[j]) == q by {
                    if after.contains(q) {
                        let a = choose|a: int| 0 <= a < after.len() && after[a] == q;
                        if a == i {
                            assert(*all[n] == q);
                        } else {
                            let a0 = if a < i { a } else { a - 1 };
                            assert(before[a0] == q);
                            assert(before.contains(q));
                        }
                    }
                    if exists|j: int| 0 <= j < n + 1 && *(#[trigger] all[j]) == q {
                        let j = choose|j: int| 0 <= j < n + 1 && *(#[trigger] all[j]) == q;
                        if j == n {
                            assert(after[i as int] == q);
                        } else {
                            assert(before.contains(q));
                            let a0 = choose|a: int| 0 <= a < before.len() && before[a] == q;
                            let a = if a0 < i { a0 } else { a0 + 1 };
                            assert(after[a] == q);
                        }
                    }
                }
            }
        }
        r
    }

    /// Snapshots of all tracked processes, ascending by handle, without the live
    /// usage.
    pub fn snapshot(&self) -> (r: Vec<ProcInfo>)
        ensures
            snapshots(self@.procs, r@),
    {
        let handles = self.list();
        let mut r: Vec<ProcInfo> = Vec::new();
        let mut i: usize = 0;
        while i < handles.len()
            invariant
                i <= handles@.len(),
                lists(self@.procs, handles@),
                r@.len() == i,
                forall|j: int|
                    0 <= j < i ==> #[trigger] r@[j] == self@.procs[handles@[j]].bare_info(handles@[j]),
            decreases handles@.len() - i,
        {
            assert(handles@.contains(handles@[i as int]));
            if let Some(e) = self.entry(handles[i]) {
                r.push(e.info(handles[i]));
            }
            i = i + 1;
        }
        assert(Seq::new(r@.len(), |j: int| r@[j].handle) =~= handles@);
        r
    }

    /// A snapshot of one process, without the live usage.
    pub fn query(&self, id: Handle) -> (r: Result<ProcInfo, ControlError>)
        ensures
            match r {
                Ok(i) => self@.tracks(id) && i == self@.procs[id].bare_info(id),
                Err(e) => !self@.tracks(id) && e == ControlError::NotFound(id),
            },
    {
        match self.lookup(id) {
            Ok(e) => Ok(e.info(id)),
            Err(e) => Err(e),
        }
    }

    /// Whether a snapshot is to be completed with the live usage: only a running
    /// child with a leaf has any.
    pub fn wants_usage(&self, info: &ProcInfo) -> (r: bool)
        ensures
            r == (info.state is Running && self@.group is Some),
    {
        matches!(info.state, ProcState::Running) && self.cgroups.is_some()
    }

    /// Completes a snapshot with the usage that the leaf's files report.
    pub fn fill_usage(&self, info: &mut ProcInfo, usage: Option<Usage>)
        ensures
            *final(info) == (if old(info).state is Running && self@.group is Some {
                ProcInfo { usage, ..*old(info) }
            } else {
                *old(info)
            }),
    {
        if self.wants_usage(info) {
            info.usage = usage;
        }
    }

    /// Stops a process and disarms its restart policy, so that this intentional
    /// stop, unlike a crash, is not followed by a relaunch; one that is being waited
    /// for is called off. Hands back whom to terminate: nobody, if it is not running.
    pub fn stop(&mut self, id: Handle) -> (r: Result<Option<Termination>, ControlError>)
        requires
            old(self)@.wf(),
        ensures
            final(self)@.wf(),
            final(self)@ == old(self)@.disarmed(id),
            match r {
                Ok(t) => old(self)@.tracks(id) && t == (if old(self)@.runs(id) {
                    Some(
                        Termination {
                            id,
                            pid: old(self)@.procs[id].pid,
                            grace: old(self)@.stop_deadline,
                        },
                    )
                } else {
                    None
                }),
                Err(e) => !old(self)@.tracks(id) && e == ControlError::NotFound(id),
            },
    {
        match self.lookup(id) {
            Err(e) => Err(e),
            Ok(e) => {
                self.due.remove(&id);
                self.put(
                    id,
                    ProcEntry {
                        pid: e.pid,
                        status: e.status,
                        stdin_open: e.stdin_open,
                        restarts: e.restarts,
                        armed: false,
                    },
                );
                match e.status {
                    ProcState::Running => Ok(
                        Some(Termination { id, pid: e.pid, grace: self.stop_deadline }),
                    ),
                    _ => Ok(None),
                }
            },
        }
    }

    /// Whom to kill once a termination's grace period is over: nobody, if the
    /// child has exited; else the leaf, or the process group, never a bare pid.
    pub fn terminate(&self, t: Termination) -> (r: Option<Kill>)
        ensures
            r == (if self@.runs(t.id) {
                Some(self@.kill_target(t.id, t.pid))
            } else {
                None
            }),
    {
        match self.entry(t.id) {
            Some(e) => match e.status {
                ProcState::Running => Some(self.target(t.id, t.pid)),
                _ => None,
            },
            None => None,
        }
    }

    /// The process that signal `sig` goes to. A process that is not running is
    /// never signalled: its pid may have been reused. Whether there is such a signal
    /// is what the platform says of `sig` itself.
    pub fn signal(&self, id: Handle, sig: i32) -> (r: Result<u32, ControlError>)
        ensures
            exists|known: bool| #[trigger]
                signal_outcome(self@, id, sig, known, r) && platform_says(sig, known) && (
                always_known(sig) ==> known) && (never_known(sig) ==> !known),
    {
        let known = known_signal(sig);
        let r = self.signal_known(id, sig, known);
        assert(signal_outcome(self@, id, sig, known, r));
        r
    }

    /// The process that signal `sig` goes to, given whether the platform knows
    /// that signal.
    pub fn signal_known(&self, id: Handle, sig: i32, known: bool) -> (r: Result<u32, ControlError>)
        ensures
            signal_outcome(self@, id, sig, known, r),
    {
        let e = match self.lookup(id) {
            Err(e) => {
                return Err(e);
            },
            Ok(e) => e,
        };
        match e.status {
            ProcState::Running => if known {
                Ok(e.pid)
            } else {
                let mut m = String::new();
                m.append("invalid signal ");
                m.append(signed_string(sig).as_str());
                assert(m@ =~= "invalid signal "@ + crate::text::signed_decimal(sig as int));
                Err(ControlError::BadRequest(m))
            },
            _ => Err(ControlError::BadRequest("process is not running".to_owned())),
        }
    }

    /// What a client is told about the delivery of a signal.
    pub fn signal_sent(delivered: bool) -> (r: Result<(), ControlError>)
        ensures
            match r {
                Ok(_) => delivered,
                Err(e) => !delivered && e.bad_request("signal delivery failed"@),
            },
    {
        if delivered {
            Ok(())
        } else {
            Err(ControlError::BadRequest("signal delivery failed".to_owned()))
        }
    }

    /// Which launch's standard input a client may write to. The caller holds the
    /// process's writer lock, so that one writer is active at a time.
    pub fn pipe_stdin(&self, id: Handle) -> (r: Result<u32, ControlError>)
        ensures
            match r {
                Ok(launch) => self@.tracks(id) && self@.procs[id].stdin_open && launch
                    == self@.procs[id].restarts,
                Err(ControlError::NotFound(h)) => !self@.tracks(id) && h == id,
                Err(e) => self@.tracks(id) && !self@.procs[id].stdin_open && e.bad_request(
                    "stdin unavailable"@,
                ),
            },
    {
        match self.lookup(id) {
            Err(e) => Err(e),
            Ok(e) => if e.stdin_open {
                Ok(e.restarts)
            } else {
                Err(ControlError::BadRequest("stdin unavailable".to_owned()))
            },
        }
    }

    /// Notes that the stream into a launch's standard input is over, and says what
    /// the client is told. Either way the input is closed: at the end of the
    /// stream so that the child sees the end too, after a failure because the
    /// child has closed its end.
    pub fn stdin_streamed(&mut self, id: Handle, launch: u32, copied: bool) -> (r: Result<
        (),
        ControlError,
    >)
        requires
            old(self)@.wf(),
        ensures
            final(self)@.wf(),
            final(self)@ == old(self)@.stdin_closed(id, launch),
            match r {
                Ok(_) => copied,
                Err(e) => !copied && e.bad_request("stdin pipe closed"@),
            },
    {
        self.close_stdin(id, launch);
        if copied {
            Ok(())
        } else {
            Err(ControlError::BadRequest("stdin pipe closed".to_owned()))
        }
    }

    /// Notes what came of writing one chunk to a launch's standard input, and says
    /// what the client is told. The input stays open unless the write failed.
    pub fn stdin_written(&mut self, id: Handle, launch: u32, written: bool) -> (r: Result<
        (),
        ControlError,
    >)
        requires
            old(self)@.wf(),
        ensures
            final(self)@.wf(),
            final(self)@ == (if written {
                old(self)@
            } else {
                old(self)@.stdin_closed(id, launch)
            }),
            match r {
                Ok(_) => written,
                Err(e) => !written && e.bad_request("stdin pipe closed"@),
            },
    {
        if written {
            Ok(())
        } else {
            self.close_stdin(id, launch);
            Err(ControlError::BadRequest("stdin pipe closed".to_owned()))
        }
    }

    fn close_stdin(&mut self, id: Handle, launch: u32)
        requires
            old(self)@.wf(),
        ensures
            final(self)@.wf(),
            final(self)@ == old(self)@.stdin_closed(id, launch),
    {
        if let Some(e) = self.entry(id) {
            if e.restarts == launch {
                self.put(
                    id,
                    ProcEntry {
                        pid: e.pid,
                        status: e.status,
                        stdin_open: false,
                        restarts: e.restarts,
                        armed: e.armed,
                    },
                );
            }
        }
    }

    /// Whether there is an output stream to subscribe to.
    pub fn subscribe(&self, id: Handle) -> (r: Result<(), ControlError>)
        ensures
            match r {
                Ok(_) => self@.tracks(id),
                Err(e) => !self@.tracks(id) && e == ControlError::NotFound(id),
            },
    {
        match self.lookup(id) {
            Ok(_) => Ok(()),
            Err(e) => Err(e),
        }
    }

    /// Drops a process from the table, and its record from the store. Refused
    /// while it runs.
    pub fn forget(&mut self, id: Handle) -> (r: Result<Vec<Effect>, ControlError>)
        requires
            old(self)@.wf(),
        ensures
            final(self)@.wf(),
            match r {
                Ok(effects) => {
                    &&& old(self)@.tracks(id) && !old(self)@.runs(id)
                    &&& final(self)@ == old(self)@.forgotten(id)
                    &&& effects@ == (if old(self)@.stored {
                        seq![Effect::Unpersist { id }]
                    } else {
                        Seq::empty()
                    })
                },
                Err(ControlError::NotFound(h)) => !old(self)@.tracks(id) && h == id && final(self)@
                    == old(self)@,
                Err(e) => old(self)@.runs(id) && e.bad_request("cannot forget a running process"@)
                    && final(self)@ == old(self)@,
            },
    {
        match self.lookup(id) {
            Err(e) => Err(e),
            Ok(e) => match e.status {
                ProcState::Running => Err(
                    ControlError::BadRequest("cannot forget a running process".to_owned()),
                ),
                _ => {
                    self.procs.remove(&id);
                    let mut effects: Vec<Effect> = Vec::new();
                    if self.stored {
                        effects.push(Effect::Unpersist { id });
                    }
                    assert(effects@ =~= (if self.stored {
                        seq![Effect::Unpersist { id }]
                    } else {
                        Seq::empty()
                    }));
                    Ok(effects)
                },
            },
        }
    }

    /// Snapshots of the running processes, ascending by handle.
    fn running(&self) -> (r: Vec<ProcInfo>)
        ensures
            self@.lists_running(Seq::new(r@.len(), |i: int| r@[i].handle)),
            forall|i: int|
                0 <= i < r@.len() ==> (#[trigger] r@[i]).pid == self@.procs[r@[i].handle].pid,
    {
        let all = self.list();
        let mut r: Vec<ProcInfo> = Vec::new();
        let ghost mut s: Seq<Handle> = Seq::empty();
        let mut i: usize = 0;
        while i < all.len()
            invariant
                i <= all@.len(),
                lists(self@.procs, all@),
                s == Seq::new(r@.len(), |k: int| r@[k].handle),
                ascending(s),
                forall|k: int|
                    0 <= k < s.len() ==> self@.runs(#[trigger] s[k]) && all@.take(
                        i as int,
                    ).contains(s[k]),
                forall|k: int| 0 <= k < i && self@.runs(#[trigger] all@[k]) ==> s.contains(all@[k]),
                forall|k: int|
                    0 <= k < r@.len() ==> (#[trigger] r@[k]).pid == self@.procs[r@[k].handle].pid,
            decreases all@.len() - i,
        {
            let h: Handle = all[i];
            let ghost before = s;
            let ghost seen = all@.take(i as int);
            assert(all@.contains(h));
            if let Some(e) = self.entry(h) {
                if let ProcState::Running = e.status {
                    r.push(e.info(h));
                    proof {
                        s = before.push(h);
                        assert forall|a: int, b: int| 0 <= a < b < s.len() implies s[a] < s[b] by {
                            if b == before.len() {
                                assert(s[a] == before[a]);
                                assert(seen.contains(before[a]));
                                let q = choose|q: int| 0 <= q < seen.len() && seen[q] == before[a];
                                assert(all@[q] < all@[i as int]);
                            }
                        }
                        assert(s =~= Seq::new(r@.len(), |k: int| r@[k].handle));
                    }
                }
            }
            proof {
                let now = all@.take(i + 1);
                assert(now =~= seen.push(h));
                assert(now[i as int] == h);
                assert forall|k: int| 0 <= k < s.len() implies self@.runs(#[trigger] s[k])
                    && now.contains(s[k]) by {
                    if k < before.len() {
                        assert(s[k] == before[k]);
                        let q = choose|q: int| 0 <= q < seen.len() && seen[q] == before[k];
                        assert(now[q] == before[k]);
                    }
                }
                assert forall|k: int| 0 <= k < i + 1 && self@.runs(#[trigger] all@[k]) implies s.contains(
                    all@[k],
                ) by {
                    if k < i {
                        assert(before.contains(all@[k]));
                        let q = choose|q: int| 0 <= q < before.len() && before[q] == all@[k];
                        assert(s[q] == all@[k]);
                    } else {
                        assert(s[before.len() as int] == h);
                    }
                }
            }
            i = i + 1;
        }
        assert forall|h: Handle| #[trigger] s.contains(h) <==> self@.runs(h) by {
            if self@.runs(h) {
                assert(all@.contains(h));
            }
        }
        r
    }

    /// Begins the shutdown: nothing is relaunched from now on. Hands back the
    /// processes to ask to end: those that run. The pid of any other may have been
    /// reused.
    pub fn kill_all(&mut self) -> (pids: Vec<u32>)
        requires
            old(self)@.wf(),
        ensures
            final(self)@.wf(),
            final(self)@ == old(self)@.shut_down(),
            exists|s: Seq<Handle>| #[trigger]
                old(self)@.lists_running(s) && pids@ == old(self)@.pids_of(s),
    {
        let all = self.running();
        let ghost s = Seq::new(all@.len(), |i: int| all@[i].handle);
        self.shutdown = true;
        let mut pids: Vec<u32> = Vec::new();
        let mut i: usize = 0;
        while i < all.len()
            invariant
                i <= all@.len(),
                pids@ == Seq::new(i as nat, |j: int| all@[j].pid),
            decreases all@.len() - i,
        {
            pids.push(all[i].pid);
            i = i + 1;
        }
        assert(pids@ =~= old(self)@.pids_of(s));
        assert(old(self)@.lists_running(s));
        pids
    }

    /// Whether any tracked process is still running.
    pub fn any_running(&self) -> (r: bool)
        ensures
            r == self@.busy(),
    {
        let handles = self.list();
        let mut i: usize = 0;
        while i < handles.len()
            invariant
                i <= handles@.len(),
                lists(self@.procs, handles@),
                forall|j: int| 0 <= j < i ==> !self@.runs(#[trigger] handles@[j]),
            decreases handles@.len() - i,
        {
            if let Some(e) = self.entry(handles[i]) {
                if let ProcState::Running = e.status {
                    assert(self@.runs(handles@[i as int]));
                    return true;
                }
            }
            i = i + 1;
        }
        assert forall|h: Handle| !self@.runs(h) by {
            if self@.runs(h) {
                assert(handles@.contains(h));
            }
        }
        false
    }

    /// Whether the shutdown goes on waiting for children to end by themselves,
    /// having waited for `waited`: until none runs or the grace period is over.
    pub fn keep_waiting(&self, waited: Duration) -> (r: bool)
        ensures
            r == (waited.nanos < self@.stop_deadline.nanos && self@.busy()),
    {
        waited.nanos < self.stop_deadline.nanos && self.any_running()
    }

    /// Whom the shutdown kills in the end, given whom it asked to end: the whole
    /// control group if there is one, else the process group of each, so that what a
    /// child has left behind goes too. A group that is gone already is no loss.
    pub fn force_down(&self, pids: &Vec<u32>) -> (kills: Vec<Kill>)
        ensures
            kills@ == (if self@.group is Some {
                seq![Kill::AllLeaves]
            } else {
                Seq::new(pids@.len(), |i: int| Kill::Group(pids@[i]))
            }),
    {
        let mut kills: Vec<Kill> = Vec::new();
        if self.cgroups.is_some() {
            kills.push(Kill::AllLeaves);
            assert(kills@ =~= seq![Kill::AllLeaves]);
            return kills;
        }
        let mut i: usize = 0;
        while i < pids.len()
            invariant
                i <= pids@.len(),
                kills@ == Seq::new(i as nat, |j: int| Kill::Group(pids@[j])),
            decreases pids@.len() - i,
        {
            kills.push(Kill::Group(pids[i]));
            i = i + 1;
        }
        assert(kills@ =~= Seq::new(pids@.len(), |i: int| Kill::Group(pids@[i])));
        kills
    }

    /// How a child is launched: its program, arguments and environment, and the
    /// leaf that it joins. Nothing of the supervisor's own environment is passed
    /// on.
    pub fn launch_child(&self, id: Handle, spec: &Spec) -> (p: LaunchPlan)
        ensures
            p.program == spec.cmd,
            p.args@ == spec.args@,
            pairs_view(p.env@) == launch_env(pairs_view(spec.env@)),
            match p.leaf {
                Some(l) => self@.group matches Some(g) && {
                    let dir = crate::cgroup::leaf_dir(g, id);
                    &&& l.dir@ == dir
                    &&& crate::cgroup::steps_view(l.caps@) == crate::cgroup::cap_writes(
                        dir,
                        spec.limits,
                    )
                    &&& l.procs@ == crate::cgroup::joined(dir, "cgroup.procs"@)
                },
                None => self@.group is None,
            },
    {
        let mut env: Vec<(String, String)> = Vec::new();
        env.push(("PATH".to_owned(), DEFAULT_PATH.to_owned()));
        copy_pairs(&mut env, &spec.env);
        assert(pairs_view(env@) =~= launch_env(pairs_view(spec.env@)));
        let leaf = match &self.cgroups {
            Some(c) => Some(c.create_leaf(id, &spec.limits)),
            None => None,
        };
        LaunchPlan { program: spec.cmd.clone(), args: copy_texts(&spec.args), env, leaf }
    }
}

/// How a child is launched.
#[derive(Debug)]
pub struct LaunchPlan {
    pub program: String,
    pub args: Vec<String>,
    /// The whole environment, in the order in which it is set.
    pub env: Vec<(String, String)>,
    /// The leaf to make, if there are control groups.
    pub leaf: Option<LeafPlan>,
}

/// Names and values as sequences.
pub open spec fn pairs_view(v: Seq<(String, String)>) -> Seq<(Seq<char>, Seq<char>)> {
    Seq::new(v.len(), |i: int| (v[i].0@, v[i].1@))
}

/// What is set in a child's environment, in order: the default search path, and
/// then what the client passes.
pub open spec fn launch_env(env: Seq<(Seq<char>, Seq<char>)>) -> Seq<(Seq<char>, Seq<char>)> {
    seq![("PATH"@, DEFAULT_PATH@)] + env
}

/// The environment that comes of setting these variables in order.
pub open spec fn environment(pairs: Seq<(Seq<char>, Seq<char>)>) -> Map<Seq<char>, Seq<char>>
    decreases pairs.len(),
{
    if pairs.len() == 0 {
        Map::empty()
    } else {
        environment(pairs.drop_last()).insert(pairs.last().0, pairs.last().1)
    }
}

/// What `signal` answers, given whether the platform knows the signal.
pub open spec fn signal_outcome(
    m: Manager,
    id: Handle,
    sig: i32,
    known: bool,
    r: Result<u32, ControlError>,
) -> bool {
    if !m.tracks(id) {
        r == Err::<u32, ControlError>(ControlError::NotFound(id))
    } else if !m.runs(id) {
        r matches Err(e) && e.bad_request("process is not running"@)
    } else if !known {
        r matches Err(e) && e.bad_request(
            "invalid signal "@ + crate::text::signed_decimal(sig as int),
        )
    } else {
        r == Ok::<u32, ControlError>(m.procs[id].pid)
    }
}

/// Whether the platform, asked about signal `sig`, may answer `known`.
pub closed spec fn platform_says(sig: i32, known: bool) -> bool {
    call_ensures(known_signal, (sig,), known)
}

/// The signals that have these numbers on every platform: hangup, interrupt,
/// quit, illegal instruction, abort, arithmetic error, kill, segmentation fault,
/// alarm and terminate.
pub open spec fn always_known(sig: i32) -> bool {
    sig == 1 || sig == 2 || sig == 3 || sig == 4 || sig == 6 || sig == 8 || sig == 9 || sig == 11
        || sig == 14 || sig == 15
}

/// The numbers that are those of no signal on any platform.
pub open spec fn never_known(sig: i32) -> bool {
    sig <= 0 || sig > 64
}

/// `nix::sys::signal::Signal::try_from`: whether the number is that of a signal.
/// Which numbers are depends on the platform; a few are on every one, and none
/// outside 1 to 64 is on any.
#[verifier::external_body]
fn known_signal(sig: i32) -> (known: bool)
    ensures
        always_known(sig) ==> known,
        never_known(sig) ==> !known,
{
    nix::sys::signal::Signal::try_from(sig).is_ok()
}

/// What to do with what was read of a child's output.
#[derive(Debug, Clone, Copy, PartialEq, Eq, Structural)]
pub enum Pump {
    /// The output has ended.
    End,
    /// Nobody listens: drop it, so that the child never blocks.
    Discard,
    /// Hand it to the subscribers.
    Publish,
}

/// What to do when a read of a child's output gave `read` bytes, or failed, and
/// `audience` subscribers are there.
pub fn pump(read: Option<usize>, audience: usize) -> (p: Pump)
    ensures
        p == (match read {
            Some(n) => if n == 0 {
                Pump::End
            } else if audience == 0 {
                Pump::Discard
            } else {
                Pump::Publish
            },
            None => Pump::End,
        }),
{
    match read {
        Some(n) => if n == 0 {
            Pump::End
        } else if audience == 0 {
            Pump::Discard
        } else {
            Pump::Publish
        },
        None => Pump::End,
    }
}

} // verus!
