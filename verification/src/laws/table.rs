//! The process table: what becomes of a process, call by call.

use vstd::prelude::*;

use crate::process::{
    AfterExit, Effect, Kill, LaunchPlan, Manager, ProcEntry, ProcessManager, Pump, Record,
    Relaunch, Supervision, Termination,
};
use crate::proto::{ControlError, Handle, ProcInfo, ProcState, RestartPolicy, Spec, Usage};
use crate::store::Loaded;
use crate::time::Duration;

verus! {

/// Whether nothing changes from one table to the other but what concerns `id`.
pub open spec fn only_touches(before: Manager, after: Manager, id: Handle) -> bool {
    &&& after.next == before.next
    &&& after.stored == before.stored
    &&& after.group == before.group
    &&& after.shutdown == before.shutdown
    &&& after.stop_deadline == before.stop_deadline
    &&& forall|h: Handle|
        h != id ==> (#[trigger] after.procs.contains_key(h) <==> before.procs.contains_key(h))
    &&& forall|h: Handle|
        h != id && before.procs.contains_key(h) ==> #[trigger] after.procs[h] == before.procs[h]
    &&& forall|h: Handle| h != id ==> (#[trigger] after.due.contains(h) <==> before.due.contains(h))
}

/// Under `Always` every exit warrants a relaunch, a death by signal too; under
/// `OnFailure` every exit but that with code zero; under `Never` none.
pub proof fn policies_decide_restarts(policy: RestartPolicy, code: Option<i32>, r: bool)
    requires
        call_ensures(crate::process::should_restart, (policy, code), r),
    ensures
        policy is Always ==> r,
        policy is Never ==> !r,
        policy is OnFailure ==> (!r <==> code is Some && code->0 == 0),
{
}

/// A stricter policy relaunches no more than a laxer one.
pub proof fn stricter_policies_relaunch_less(code: Option<i32>, never: bool, failed: bool, always: bool)
    requires
        call_ensures(crate::process::should_restart, (RestartPolicy::Never, code), never),
        call_ensures(crate::process::should_restart, (RestartPolicy::OnFailure, code), failed),
        call_ensures(crate::process::should_restart, (RestartPolicy::Always, code), always),
    ensures
        !never,
        failed ==> always,
        always,
        code is None ==> failed,
        code matches Some(c) ==> failed == (c != 0),
{
}

/// A child that was running when its supervisor ended is stale; every other keeps the
/// state it had.
pub proof fn nothing_reloads_alive(state: ProcState, r: ProcState)
    requires
        call_ensures(crate::process::reloaded, (state,), r),
    ensures
        !(r is Running),
        state is Running ==> r is Stale,
        !(state is Running) ==> r == state,
{
}

/// The first restart waits for one second, and each further one twice as long as the
/// one before, but never for more than thirty seconds.
pub proof fn waits_double(n: u32, d: Duration, first: Duration, next: Duration)
    requires
        1 <= n < u32::MAX,
        call_ensures(crate::process::backoff, (1u32,), first),
        call_ensures(crate::process::backoff, (n,), d),
        call_ensures(crate::process::backoff, ((n + 1) as u32,), next),
    ensures
        first.nanos == 1_000_000_000,
        first.nanos <= d.nanos <= 30_000_000_000,
        2 * d.nanos <= 30_000_000_000 ==> next.nanos == 2 * d.nanos,
        2 * d.nanos > 30_000_000_000 ==> next.nanos == 30_000_000_000,
{
    assert(crate::time::two_to(0) == 1);
    crate::time::lemma_two_to_grows(0, (n - 1) as nat);
    assert(crate::time::two_to(n as nat) == 2 * crate::time::two_to((n - 1) as nat));
}

/// A query tells of a process what the table holds of it, and of a handle that it
/// does not hold that there is no such process.
pub proof fn queries_tell_what_is_held(m: ProcessManager, id: Handle, r: Result<ProcInfo, ControlError>)
    requires
        call_ensures(ProcessManager::query, (&m, id), r),
    ensures
        r is Ok <==> m@.procs.contains_key(id),
        r matches Ok(i) ==> {
            &&& i.handle == id
            &&& i.pid == m@.procs[id].pid
            &&& i.state == m@.procs[id].status
            &&& i.restarts == m@.procs[id].restarts
            &&& i.usage is None
        },
        r matches Err(e) ==> e is NotFound && e->NotFound_0 == id,
{
}

/// A list names every process once, lowest handle first, and nothing else; and the
/// snapshots are those that a query of each would give.
pub proof fn listings_agree_with_queries(
    m: ProcessManager,
    list: Vec<Handle>,
    all: Vec<ProcInfo>,
    id: Handle,
    q: Result<ProcInfo, ControlError>,
)
    requires
        call_ensures(ProcessManager::list, (&m,), list),
        call_ensures(ProcessManager::snapshot, (&m,), all),
        call_ensures(ProcessManager::query, (&m, id), q),
    ensures
        list@.contains(id) <==> q is Ok,
        forall|i: int, j: int| 0 <= i < j < list@.len() ==> list@[i] < list@[j],
        forall|i: int, j: int|
            0 <= i < j < all@.len() ==> (#[trigger] all@[i]).handle < (#[trigger] all@[j]).handle,
        q matches Ok(info) ==> exists|i: int| 0 <= i < all@.len() && #[trigger] all@[i] == info,
        forall|i: int|
            0 <= i < all@.len() && (#[trigger] all@[i]).handle == id ==> q
                == Ok::<ProcInfo, ControlError>(all@[i]),
        forall|i: int| 0 <= i < all@.len() ==> list@.contains((#[trigger] all@[i]).handle),
        all@.len() == list@.len(),
{
    let hs = Seq::new(all@.len(), |i: int| all@[i].handle);
    assert forall|i: int, j: int| 0 <= i < j < all@.len() implies (#[trigger] all@[i]).handle < (
    #[trigger] all@[j]).handle by {
        assert(hs[i] < hs[j]);
    }
    assert forall|i: int| 0 <= i < all@.len() implies m@.procs.contains_key(
        (#[trigger] all@[i]).handle,
    ) by {
        assert(hs[i] == all@[i].handle);
        assert(hs.contains(hs[i]));
    }
    if m@.procs.contains_key(id) {
        assert(hs.contains(id));
        let i = choose|i: int| 0 <= i < hs.len() && hs[i] == id;
        assert(all@[i].handle == id);
    }
    crate::lifecycle::listing_is_unique(m@.procs, list@, hs);
}

/// An entry that is reloaded keeps its pid and is neither up nor writable nor armed;
/// what is told of an entry is what it holds.
pub proof fn entries_are_told(rec: Record, e: ProcEntry, p: ProcEntry, h: Handle, i: ProcInfo)
    requires
        call_ensures(ProcEntry::stale, (&rec,), e),
        call_ensures(ProcEntry::info, (&p, h), i),
    ensures
        e.pid == rec.pid,
        !(e.status is Running),
        rec.status is Running ==> e.status is Stale,
        !(rec.status is Running) ==> e.status == rec.status,
        !e.stdin_open,
        !e.armed,
        e.restarts == 0,
        i.handle == h,
        i.pid == p.pid,
        i.state == p.status,
        i.restarts == p.restarts,
        i.usage is None,
{
}

/// A new table holds nothing.
pub proof fn new_tables_are_empty(m: ProcessManager, id: Handle, q: Result<ProcInfo, ControlError>)
    requires
        call_ensures(ProcessManager::new, (), m),
        call_ensures(ProcessManager::query, (&m, id), q),
    ensures
        q is Err,
        m@.next == 0,
        !m@.stored,
        !m@.shutdown,
        m@.group is None,
        m@.due == Set::<Handle>::empty(),
        m@.stop_deadline.nanos == 5_000_000_000,
{
}

/// A table that is reloaded holds every record, under its handle and with its pid,
/// and nothing else; none of it runs, is writable, has been or will be relaunched.
pub proof fn reloaded_tables_hold_every_record(
    loaded: Loaded,
    cgroups: Option<crate::cgroup::Cgroups>,
    grace: Duration,
    m: ProcessManager,
    i: int,
    h: Handle,
)
    requires
        call_ensures(ProcessManager::with_store, (&loaded, cgroups, grace), m),
        0 <= i < loaded.records@.len(),
        forall|a: int, b: int|
            0 <= a < loaded.records@.len() && 0 <= b < loaded.records@.len() && (
            #[trigger] loaded.records@[a]).0 == (#[trigger] loaded.records@[b]).0 ==> a == b,
    ensures
        m@.next == loaded.next_handle,
        m@.stored,
        !m@.shutdown,
        m@.stop_deadline == grace,
        m@.group is Some <==> cgroups is Some,
        cgroups matches Some(c) ==> m@.group == Some(c@),
        m@.due == Set::<Handle>::empty(),
        ({
            let (id, rec) = loaded.records@[i];
            let e = m@.procs[id];
            &&& m@.procs.contains_key(id)
            &&& e.pid == rec.pid
            &&& rec.status is Running ==> e.status is Stale
            &&& !(rec.status is Running) ==> e.status == rec.status
            &&& !e.stdin_open
            &&& !e.armed
            &&& e.restarts == 0
        }),
        m@.procs.contains_key(h) ==> exists|k: int|
            0 <= k < loaded.records@.len() && (#[trigger] loaded.records@[k]).0 == h,
{
    crate::lifecycle::reload_keeps_every_record(loaded.records@, i);
    lemma_tombstones(loaded.records@, h);
    lemma_tombstones(loaded.records@, loaded.records@[i].0);
}

/// What a reloaded table holds comes from a record.
proof fn lemma_tombstones(records: Seq<(Handle, Record)>, h: Handle)
    ensures
        crate::process::tombstones(records).contains_key(h) ==> exists|k: int|
            0 <= k < records.len() && (#[trigger] records[k]).0 == h,
        crate::process::tombstones(records).contains_key(h) ==> crate::process::tombstones(
            records,
        )[h].restarts == 0,
    decreases records.len(),
{
    if records.len() > 0 {
        let r = records.drop_last();
        lemma_tombstones(r, h);
        if crate::process::tombstones(r).contains_key(h) {
            let k = choose|k: int| 0 <= k < r.len() && (#[trigger] r[k]).0 == h;
            assert(records[k].0 == h);
        }
        assert(records[records.len() - 1] == records.last());
    }
}

/// A handle is handed out once: each is above the one before, and above every handle
/// that is in use.
pub proof fn handles_rise(
    m: &mut ProcessManager,
    a: Handle,
    n: &mut ProcessManager,
    b: Handle,
    h: Handle,
)
    requires
        old(m)@.wf(),
        call_ensures(ProcessManager::reserve, (m,), a),
        *old(n) == *final(m),
        call_ensures(ProcessManager::reserve, (n,), b),
    ensures
        1 <= a < b,
        old(m)@.procs.contains_key(h) ==> h < a,
        final(n)@.procs == old(m)@.procs,
        final(n)@.due == old(m)@.due,
        final(n)@.stored == old(m)@.stored,
        final(n)@.group == old(m)@.group,
        final(n)@.shutdown == old(m)@.shutdown,
        final(n)@.stop_deadline == old(m)@.stop_deadline,
{
}

/// Whether a handle is left is whether the next one can be handed out.
pub proof fn handles_run_out_at_the_last(m: ProcessManager, r: bool)
    requires
        call_ensures(ProcessManager::has_handles, (&m,), r),
    ensures
        r <==> m@.next != 0xffff_ffff_ffff_ffff,
{
}

/// Whether these effects write the record of a launch, and nothing else, where records
/// are kept, and nothing at all where they are not.
pub open spec fn keeps_launch(
    stored: bool,
    effects: Seq<Effect>,
    id: Handle,
    spec: Spec,
    pid: u32,
) -> bool {
    &&& effects.len() == if stored {
        1int
    } else {
        0
    }
    &&& stored ==> {
        &&& effects[0] is Persist
        &&& effects[0]->Persist_id == id
        &&& effects[0]->record.cmd@ == spec.cmd@
        &&& effects[0]->record.args@ == spec.args@
        &&& effects[0]->record.env@ == spec.env@
        &&& effects[0]->record.pid == pid
        &&& effects[0]->record.status is Running
    }
}

/// Whether these effects remove the leaf of `id`, and nothing else, where there are
/// groups, and nothing at all where there are none.
pub open spec fn clears_leaf(grouped: bool, effects: Seq<Effect>, id: Handle) -> bool {
    &&& effects.len() == if grouped {
        1int
    } else {
        0
    }
    &&& grouped ==> effects[0] is RemoveLeaf && effects[0]->RemoveLeaf_id == id
}

/// A child that came up is tracked under its handle, running with its pid, armed and
/// writable, and its record is kept; one that did not come up leaves no trace but its
/// leaf, which goes.
pub proof fn spawned_children_are_tracked<E>(
    m: &mut ProcessManager,
    id: Handle,
    spec: Spec,
    launched: Result<u32, E>,
    r: (Result<(Handle, u32), E>, Vec<Effect>),
)
    requires
        call_ensures(ProcessManager::spawn::<E>, (m, id, &spec, launched), r),
    ensures
        r.0 is Ok <==> launched is Ok,
        launched matches Ok(pid) ==> {
            let e = final(m)@.procs[id];
            &&& r.0->Ok_0.0 == id
            &&& r.0->Ok_0.1 == pid
            &&& final(m)@.procs.contains_key(id)
            &&& e.pid == pid
            &&& e.status is Running
            &&& e.restarts == 0
            &&& e.armed
            &&& e.stdin_open
            &&& only_touches(old(m)@, final(m)@, id)
            &&& keeps_launch(old(m)@.stored, r.1@, id, spec, pid)
        },
        launched matches Err(e) ==> {
            &&& r.0->Err_0 == e
            &&& final(m)@ == old(m)@
            &&& clears_leaf(old(m)@.group is Some, r.1@, id)
        },
{
}

/// A new child is supervised by what its spec says, and has not crashed yet.
pub proof fn supervision_starts_with_the_spec(id: Handle, spec: Spec, s: Supervision)
    requires
        call_ensures(ProcessManager::supervise, (id, &spec), s),
    ensures
        s.id == id,
        s.policy == spec.policy,
        s.max_retries == spec.max_retries,
        s.attempt == 0,
{
}

/// An exit is noted: the process is down with that code, and nothing else about it
/// changes, nor about any other. Where records are kept the new state is written, and
/// where there are groups the leaf goes.
pub proof fn exits_are_noted(
    m: &mut ProcessManager,
    s: &mut Supervision,
    code: Option<i32>,
    uptime: Duration,
    r: (AfterExit, Vec<Effect>),
)
    requires
        call_ensures(ProcessManager::on_exit, (m, s, code, uptime), r),
    ensures
        only_touches(old(m)@, final(m)@, old(s).id),
        final(m)@.procs.contains_key(old(s).id) <==> old(m)@.procs.contains_key(old(s).id),
        old(m)@.procs.contains_key(old(s).id) ==> {
            let was = old(m)@.procs[old(s).id];
            let now = final(m)@.procs[old(s).id];
            &&& now.status == ProcState::Exited(code)
            &&& now.pid == was.pid
            &&& now.restarts == was.restarts
            &&& now.armed == was.armed
            &&& now.stdin_open == was.stdin_open
        },
        r.1@.len() == (if old(m)@.stored {
            1int
        } else {
            0
        }) + (if old(m)@.group is Some {
            1int
        } else {
            0
        }),
        old(m)@.stored ==> r.1@[0] == (Effect::PersistStatus {
            id: old(s).id,
            status: ProcState::Exited(code),
        }),
        old(m)@.group is Some ==> r.1@.last() == (Effect::RemoveLeaf { id: old(s).id }),
{
}

/// After an exit a child comes back if and only if the supervisor is up, the process
/// is still armed, its policy says so and it has not crashed more often in a row than
/// it may. How long that takes is the wait for that many crashes; a child that was up
/// for ten seconds counts from one.
pub proof fn exits_are_answered(
    m: &mut ProcessManager,
    s: &mut Supervision,
    code: Option<i32>,
    uptime: Duration,
    r: (AfterExit, Vec<Effect>),
    due: bool,
    wait: Duration,
)
    requires
        old(s).attempt < u32::MAX,
        call_ensures(ProcessManager::on_exit, (m, s, code, uptime), r),
        call_ensures(crate::process::should_restart, (old(s).policy, code), due),
        call_ensures(crate::process::backoff, (final(s).attempt,), wait),
    ensures
        ({
            let id = old(s).id;
            let armed = old(m)@.procs.contains_key(id) && old(m)@.procs[id].armed;
            let n: int = if uptime.nanos >= 10_000_000_000 {
                1
            } else {
                old(s).attempt + 1
            };
            let capped = old(s).max_retries != 0 && n > old(s).max_retries;
            let wanted = !old(m)@.shutdown && armed && due;
            &&& r.0 is Finished <==> !wanted
            &&& r.0 is GaveUp <==> wanted && capped
            &&& r.0 is RestartAfter <==> wanted && !capped
            &&& r.0 matches AfterExit::RestartAfter(d) ==> d == wait
            &&& wanted ==> final(s).attempt == n
            &&& !wanted ==> final(s).attempt == old(s).attempt
            &&& final(s).id == id
            &&& final(s).policy == old(s).policy
            &&& final(s).max_retries == old(s).max_retries
            &&& r.0 is RestartAfter ==> final(m)@.due.contains(id)
            &&& !(r.0 is RestartAfter) ==> (final(m)@.due.contains(id) <==> old(m)@.due.contains(
                id,
            ))
        }),
{
}

/// Under `Always`, without a cap, an armed child comes back from every exit, whatever
/// its code and whatever killed it.
pub proof fn always_comes_back(
    m: &mut ProcessManager,
    s: &mut Supervision,
    code: Option<i32>,
    uptime: Duration,
    r: (AfterExit, Vec<Effect>),
    b: bool,
)
    requires
        old(s).policy is Always,
        old(s).attempt < u32::MAX,
        !old(m)@.shutdown,
        old(m)@.procs.contains_key(old(s).id),
        old(m)@.procs[old(s).id].armed,
        call_ensures(ProcessManager::on_exit, (m, s, code, uptime), r),
        call_ensures(ProcessManager::on_backoff, (&*final(m), old(s).id), b),
    ensures
        !(r.0 is Finished),
        old(s).max_retries == 0 ==> r.0 is RestartAfter && b,
{
}

/// The wait before a restart ends in one as long as it was not called off and the
/// supervisor is up.
pub proof fn waits_end_in_restarts(m: ProcessManager, id: Handle, r: bool)
    requires
        call_ensures(ProcessManager::on_backoff, (&m, id), r),
    ensures
        r <==> m@.due.contains(id) && !m@.shutdown,
{
}

/// A child that came up again and is wanted runs under its handle with its new pid,
/// counted as one more restart; its record is kept. One that nobody wants any more is
/// killed, and one that did not come up is given up; of either the leaf goes and the
/// process stays as it was. Whatever came of it, it is no longer waited for.
pub proof fn relaunched_children_are_tracked<E>(
    m: &mut ProcessManager,
    id: Handle,
    spec: Spec,
    launched: Result<u32, E>,
    r: (Relaunch<E>, Vec<Effect>),
    wanted: bool,
)
    requires
        old(m)@.procs.contains_key(id) ==> old(m)@.procs[id].restarts < u32::MAX,
        call_ensures(ProcessManager::on_backoff, (&*old(m), id), wanted),
        call_ensures(ProcessManager::on_relaunch::<E>, (m, id, &spec, launched), r),
    ensures
        !final(m)@.due.contains(id),
        only_touches(old(m)@, final(m)@, id),
        final(m)@.procs.contains_key(id) <==> old(m)@.procs.contains_key(id),
        r.0 is Up <==> launched is Ok && wanted,
        r.0 is Unwanted <==> launched is Ok && !wanted,
        r.0 is Failed <==> launched is Err,
        r.0 matches Relaunch::Up(pid) ==> {
            &&& launched == Ok::<u32, E>(pid)
            &&& keeps_launch(old(m)@.stored, r.1@, id, spec, pid)
            &&& old(m)@.procs.contains_key(id) ==> {
                let was = old(m)@.procs[id];
                let now = final(m)@.procs[id];
                &&& now.pid == pid
                &&& now.status is Running
                &&& now.stdin_open
                &&& now.restarts == was.restarts + 1
                &&& now.armed == was.armed
            }
        },
        !(r.0 is Up) ==> {
            &&& clears_leaf(old(m)@.group is Some, r.1@, id)
            &&& old(m)@.procs.contains_key(id) ==> final(m)@.procs[id] == old(m)@.procs[id]
        },
        r.0 matches Relaunch::Unwanted(k) ==> {
            &&& old(m)@.group is Some ==> k == Kill::Leaf(id)
            &&& old(m)@.group is None ==> k == Kill::Group(launched->Ok_0)
        },
        r.0 matches Relaunch::Failed(e) ==> launched->Err_0 == e,
{
}

/// A stop reaches a running child by its pid and leaves it the configured grace; it
/// disarms the process and calls off a restart that is being waited for, and changes
/// nothing else. It succeeds on every process that is tracked.
pub proof fn stops_disarm(
    m: &mut ProcessManager,
    id: Handle,
    r: Result<Option<Termination>, ControlError>,
    b: bool,
)
    requires
        call_ensures(ProcessManager::stop, (m, id), r),
        call_ensures(ProcessManager::on_backoff, (&*final(m), id), b),
    ensures
        r is Ok <==> old(m)@.procs.contains_key(id),
        r is Ok ==> {
            let was = old(m)@.procs[id];
            let now = final(m)@.procs[id];
            &&& !b
            &&& final(m)@.procs.contains_key(id)
            &&& !now.armed
            &&& now.pid == was.pid
            &&& now.status == was.status
            &&& now.restarts == was.restarts
            &&& now.stdin_open == was.stdin_open
            &&& only_touches(old(m)@, final(m)@, id)
            &&& r->Ok_0 is Some <==> was.status is Running
            &&& r->Ok_0 matches Some(t) ==> t.id == id && t.pid == was.pid && t.grace
                == old(m)@.stop_deadline
        },
        r matches Err(e) ==> e is NotFound && e->NotFound_0 == id && final(m)@ == old(m)@,
{
}

/// A child that is still up when its grace is over is killed, with all that it has
/// started; one that is down is left alone, for its pid may be another's by then.
pub proof fn terminations_escalate(m: ProcessManager, t: Termination, r: Option<Kill>)
    requires
        call_ensures(ProcessManager::terminate, (&m, t), r),
    ensures
        r is Some <==> m@.procs.contains_key(t.id) && m@.procs[t.id].status is Running,
        r matches Some(k) ==> {
            &&& m@.group is Some ==> k == Kill::Leaf(t.id)
            &&& m@.group is None ==> k == Kill::Group(t.pid)
        },
{
}

/// A signal goes to the pid of the process that was asked for, if it runs and there is
/// such a signal, and to nobody else.
pub proof fn signals_go_to_the_process(
    m: ProcessManager,
    id: Handle,
    sig: i32,
    known: bool,
    r: Result<u32, ControlError>,
)
    requires
        call_ensures(ProcessManager::signal_known, (&m, id, sig, known), r),
    ensures
        r is Ok <==> m@.procs.contains_key(id) && m@.procs[id].status is Running && known,
        r matches Ok(pid) ==> pid == m@.procs[id].pid,
        !m@.procs.contains_key(id) ==> r == Err::<u32, ControlError>(ControlError::NotFound(id)),
        m@.procs.contains_key(id) && !(m@.procs[id].status is Running) ==> (r matches Err(
            ControlError::BadRequest(t),
        ) && t@ == "process is not running"@),
        m@.procs.contains_key(id) && m@.procs[id].status is Running && !known ==> (r matches Err(
            ControlError::BadRequest(t),
        ) && t@.take(15) == "invalid signal "@ && (sig >= 0 ==> crate::text::digits_value(
            t@.skip(15),
        ) == sig) && (sig < 0 ==> t@[15] == '-' && crate::text::digits_value(t@.skip(16))
            == -sig)),
{
    reveal_strlit("invalid signal ");
    if r is Err && m@.procs.contains_key(id) && m@.procs[id].status is Running && !known {
        let t = (r->Err_0)->BadRequest_0@;
        let d = crate::text::signed_decimal(sig as int);
        assert(t.take(15) =~= "invalid signal "@);
        assert(t.skip(15) =~= d);
        if sig < 0 {
            crate::text::decimal_reads_back((-sig) as nat);
            assert(t.skip(16) =~= crate::text::decimal((-sig) as nat));
        } else {
            crate::text::decimal_reads_back(sig as nat);
        }
    }
}

/// Termination, kill and the other numbers that every platform has reach a running
/// process; zero, negative numbers and those above 64 reach none.
pub proof fn common_signals_are_sent(
    m: ProcessManager,
    id: Handle,
    sig: i32,
    r: Result<u32, ControlError>,
)
    requires
        call_ensures(ProcessManager::signal, (&m, id, sig), r),
    ensures
        r matches Ok(pid) ==> m@.procs.contains_key(id) && m@.procs[id].status is Running && pid
            == m@.procs[id].pid && 1 <= sig <= 64 && crate::process::platform_says(sig, true),
        m@.procs.contains_key(id) && m@.procs[id].status is Running && r is Err
            ==> crate::process::platform_says(sig, false),
        m@.procs.contains_key(id) && m@.procs[id].status is Running && (sig == 1 || sig == 2 || sig
            == 3 || sig == 4 || sig == 6 || sig == 8 || sig == 9 || sig == 11 || sig == 14 || sig
            == 15) ==> r is Ok,
        !m@.procs.contains_key(id) ==> r == Err::<u32, ControlError>(ControlError::NotFound(id)),
        m@.procs.contains_key(id) && !(m@.procs[id].status is Running) ==> (r matches Err(
            ControlError::BadRequest(t),
        ) && t@ == "process is not running"@),
{
}

/// A client is told whether its signal was delivered.
pub proof fn deliveries_are_told(delivered: bool, r: Result<(), ControlError>)
    requires
        call_ensures(ProcessManager::signal_sent, (delivered,), r),
    ensures
        r is Ok <==> delivered,
        r matches Err(e) ==> e is BadRequest && e->BadRequest_0@ == "signal delivery failed"@,
{
}

/// A client may write to a process as long as its standard input is open; a process
/// that just came up has one.
pub proof fn inputs_are_written_while_open(
    m: ProcessManager,
    id: Handle,
    r: Result<u32, ControlError>,
)
    requires
        call_ensures(ProcessManager::pipe_stdin, (&m, id), r),
    ensures
        r is Ok <==> m@.procs.contains_key(id) && m@.procs[id].stdin_open,
        r matches Ok(n) ==> n == m@.procs[id].restarts,
        !m@.procs.contains_key(id) ==> r == Err::<u32, ControlError>(ControlError::NotFound(id)),
        m@.procs.contains_key(id) && r is Err ==> (r matches Err(ControlError::BadRequest(t)) && t@
            == "stdin unavailable"@),
{
}

/// Whether closing the `launch`-th input of `id` turns one table into the other: that
/// input is closed, if it is still that launch's, and nothing else changes.
pub open spec fn closes_input(before: Manager, after: Manager, id: Handle, launch: u32) -> bool {
    &&& only_touches(before, after, id)
    &&& after.due == before.due
    &&& after.procs.contains_key(id) <==> before.procs.contains_key(id)
    &&& before.procs.contains_key(id) ==> {
        let was = before.procs[id];
        let now = after.procs[id];
        &&& now.pid == was.pid
        &&& now.status == was.status
        &&& now.restarts == was.restarts
        &&& now.armed == was.armed
        &&& now.stdin_open == (was.stdin_open && was.restarts != launch)
    }
}

/// The end of a stream closes the input that it went to, and no later one; the client
/// is told whether all of it got there.
pub proof fn streams_close_their_input(
    m: &mut ProcessManager,
    id: Handle,
    launch: u32,
    copied: bool,
    r: Result<(), ControlError>,
)
    requires
        call_ensures(ProcessManager::stdin_streamed, (m, id, launch, copied), r),
    ensures
        closes_input(old(m)@, final(m)@, id, launch),
        r is Ok <==> copied,
        r matches Err(e) ==> e is BadRequest && e->BadRequest_0@ == "stdin pipe closed"@,
{
}

/// A chunk that was written leaves the input open; one that was not closes it, and the
/// client is told so.
pub proof fn failed_writes_close_their_input(
    m: &mut ProcessManager,
    id: Handle,
    launch: u32,
    written: bool,
    r: Result<(), ControlError>,
)
    requires
        call_ensures(ProcessManager::stdin_written, (m, id, launch, written), r),
    ensures
        written ==> final(m)@ == old(m)@,
        !written ==> closes_input(old(m)@, final(m)@, id, launch),
        r is Ok <==> written,
        r matches Err(e) ==> e is BadRequest && e->BadRequest_0@ == "stdin pipe closed"@,
{
}

/// The output of every tracked process can be subscribed to, and of no other.
pub proof fn outputs_are_subscribed_to(m: ProcessManager, id: Handle, r: Result<(), ControlError>)
    requires
        call_ensures(ProcessManager::subscribe, (&m, id), r),
    ensures
        r is Ok <==> m@.procs.contains_key(id),
        r matches Err(e) ==> e == ControlError::NotFound(id),
{
}

/// A process that is forgotten is gone from the table, and from the store where
/// records are kept; no other is. What runs is not forgotten, nor what is not there.
pub proof fn forgotten_processes_are_gone(
    m: &mut ProcessManager,
    id: Handle,
    r: Result<Vec<Effect>, ControlError>,
    q: Result<ProcInfo, ControlError>,
)
    requires
        call_ensures(ProcessManager::forget, (m, id), r),
        call_ensures(ProcessManager::query, (&*final(m), id), q),
    ensures
        r is Ok <==> old(m)@.procs.contains_key(id) && !(old(m)@.procs[id].status is Running),
        r matches Ok(effects) ==> {
            &&& q is Err
            &&& only_touches(old(m)@, final(m)@, id)
            &&& final(m)@.due == old(m)@.due
            &&& effects@.len() == if old(m)@.stored {
                1int
            } else {
                0
            }
            &&& old(m)@.stored ==> effects@[0] == (Effect::Unpersist { id })
        },
        r is Err ==> final(m)@ == old(m)@,
        !old(m)@.procs.contains_key(id) ==> r == Err::<Vec<Effect>, ControlError>(
            ControlError::NotFound(id),
        ),
        old(m)@.procs.contains_key(id) && old(m)@.procs[id].status is Running ==> (r matches Err(
            ControlError::BadRequest(t),
        ) && t@ == "cannot forget a running process"@),
{
}

/// The shutdown asks exactly the processes that run, each once, and relaunches nothing
/// from then on.
pub proof fn shutdowns_ask_what_runs(m: &mut ProcessManager, pids: Vec<u32>, id: Handle, b: bool)
    requires
        call_ensures(ProcessManager::kill_all, (m,), pids),
        call_ensures(ProcessManager::on_backoff, (&*final(m), id), b),
    ensures
        !b,
        final(m)@.shutdown,
        final(m)@.procs == old(m)@.procs,
        final(m)@.next == old(m)@.next,
        final(m)@.stored == old(m)@.stored,
        final(m)@.group == old(m)@.group,
        final(m)@.due == old(m)@.due,
        final(m)@.stop_deadline == old(m)@.stop_deadline,
        old(m)@.procs.contains_key(id) && old(m)@.procs[id].status is Running ==> pids@.contains(
            old(m)@.procs[id].pid,
        ),
        exists|hs: Seq<Handle>| #[trigger]
            hs.no_duplicates() && hs.len() == pids@.len() && forall|i: int|
                0 <= i < hs.len() ==> old(m)@.procs.contains_key(#[trigger] hs[i])
                    && old(m)@.procs[hs[i]].status is Running && old(m)@.procs[hs[i]].pid
                    == pids@[i],
{
    let hs = choose|s: Seq<Handle>| #[trigger]
        old(m)@.lists_running(s) && pids@ == old(m)@.pids_of(s);
    assert forall|i: int| 0 <= i < hs.len() implies old(m)@.procs.contains_key(#[trigger] hs[i])
        && old(m)@.procs[hs[i]].status is Running && old(m)@.procs[hs[i]].pid == pids@[i] by {
        assert(hs.contains(hs[i]));
        assert(old(m)@.runs(hs[i]));
    }
    assert(hs.no_duplicates());
    if old(m)@.procs.contains_key(id) && old(m)@.procs[id].status is Running {
        assert(old(m)@.runs(id));
        assert(hs.contains(id));
        let i = choose|i: int| 0 <= i < hs.len() && hs[i] == id;
        assert(pids@[i] == old(m)@.procs[id].pid);
    }
}

/// The shutdown waits while anything runs and the grace period is not over, and no
/// longer.
pub proof fn shutdowns_wait_for_what_runs(
    m: ProcessManager,
    waited: Duration,
    any: bool,
    r: bool,
    id: Handle,
)
    requires
        call_ensures(ProcessManager::any_running, (&m,), any),
        call_ensures(ProcessManager::keep_waiting, (&m, waited), r),
    ensures
        m@.procs.contains_key(id) && m@.procs[id].status is Running ==> any,
        any ==> exists|h: Handle| #[trigger]
            m@.procs.contains_key(h) && m@.procs[h].status is Running,
        r <==> any && waited.nanos < m@.stop_deadline.nanos,
{
    assert(any == m@.busy());
    if any {
        let h = choose|h: Handle| m@.runs(h);
        assert(m@.procs.contains_key(h));
    }
    if m@.procs.contains_key(id) && m@.procs[id].status is Running {
        assert(m@.runs(id));
    }
}

/// In the end the shutdown kills everything: all the leaves where there are groups,
/// else the process group of each child that it asked, whether or not it is still up.
pub proof fn shutdowns_kill_in_the_end(m: ProcessManager, pids: Vec<u32>, kills: Vec<Kill>, i: int)
    requires
        call_ensures(ProcessManager::force_down, (&m, &pids), kills),
    ensures
        m@.group is Some ==> kills@.len() == 1 && kills@[0] is AllLeaves,
        m@.group is None ==> kills@.len() == pids@.len(),
        m@.group is None && 0 <= i < pids@.len() ==> kills@[i] is Group && kills@[i]->Group_0
            == pids@[i],
{
}

/// A child runs the program that was asked for with those arguments. Its environment
/// is what the client passes over a search path of the system's two program
/// directories, and where there are groups it joins a leaf under its own handle,
/// capped as was asked for.
pub proof fn children_are_launched_as_asked(m: ProcessManager, id: Handle, spec: Spec, p: LaunchPlan)
    requires
        call_ensures(ProcessManager::launch_child, (&m, id, &spec), p),
    ensures
        p.program@ == spec.cmd@,
        p.args@ == spec.args@,
        p.env@.len() == spec.env@.len() + 1,
        p.env@[0].0@ == "PATH"@,
        p.env@[0].1@ == "/usr/bin:/bin"@,
        forall|i: int|
            0 <= i < spec.env@.len() ==> (#[trigger] spec.env@[i]).0@ == p.env@[i + 1].0@
                && spec.env@[i].1@ == p.env@[i + 1].1@,
        p.leaf is Some <==> m@.group is Some,
        p.leaf matches Some(l) ==> {
            let g = m@.group->0;
            let dir = l.dir@;
            &&& dir.len() > g.len() + 1
            &&& dir.take(g.len() as int) == g
            &&& dir[g.len() as int] == '/'
            &&& crate::text::is_digits(dir.skip((g.len() + 1) as int))
            &&& crate::text::digits_value(dir.skip((g.len() + 1) as int)) == id
            &&& l.procs@ == dir + "/cgroup.procs"@
            &&& l.caps@.len() == (if spec.limits.memory is Some {
                1int
            } else {
                0
            }) + (if spec.limits.pids is Some {
                1int
            } else {
                0
            })
            &&& spec.limits.memory matches Some(n) ==> caps_file(
                l.caps@[0],
                dir + "/memory.max"@,
                n,
            )
            &&& spec.limits.pids matches Some(n) ==> caps_file(
                l.caps@.last(),
                dir + "/pids.max"@,
                n,
            )
        },
{
    let pv = crate::process::pairs_view(p.env@);
    let want = crate::process::launch_env(crate::process::pairs_view(spec.env@));
    assert(pv == want);
    assert(pv.len() == p.env@.len());
    assert(pv[0] == want[0]);
    assert forall|i: int| 0 <= i < spec.env@.len() implies (#[trigger] spec.env@[i]).0@
        == p.env@[i + 1].0@ && spec.env@[i].1@ == p.env@[i + 1].1@ by {
        assert(pv[i + 1] == want[i + 1]);
        assert(want[i + 1] == crate::process::pairs_view(spec.env@)[i]);
    }
    if let Some(l) = p.leaf {
        let g = m@.group->0;
        let dir = l.dir@;
        let d = crate::text::decimal(id as nat);
        crate::text::decimal_reads_back(id as nat);
        assert(dir.take(g.len() as int) =~= g);
        assert(dir.skip((g.len() + 1) as int) =~= d);
        reveal_strlit("/cgroup.procs");
        reveal_strlit("cgroup.procs");
        reveal_strlit("/memory.max");
        reveal_strlit("memory.max");
        reveal_strlit("/pids.max");
        reveal_strlit("pids.max");
        assert(l.procs@ =~= dir + "/cgroup.procs"@);
        let sv = crate::cgroup::steps_view(l.caps@);
        let cw = crate::cgroup::cap_writes(dir, spec.limits);
        assert(sv.len() == cw.len());
        if let Some(n) = spec.limits.memory {
            assert(sv[0] == cw[0]);
            assert(sv[0] == l.caps@[0]@);
            crate::text::decimal_reads_back(n as nat);
            assert(crate::cgroup::joined(dir, "memory.max"@) =~= dir + "/memory.max"@);
        }
        if let Some(n) = spec.limits.pids {
            assert(sv.last() == cw.last());
            assert(sv.last() == l.caps@.last()@);
            crate::text::decimal_reads_back(n as nat);
            assert(crate::cgroup::joined(dir, "pids.max"@) =~= dir + "/pids.max"@);
        }
    }
}

/// Whether a step writes the number `n` into the file at `path`.
pub open spec fn caps_file(step: crate::cgroup::Step, path: Seq<char>, n: u64) -> bool {
    &&& step is Write
    &&& step->Write_path@ == path
    &&& crate::text::is_digits(step->text@)
    &&& crate::text::digits_value(step->text@) == n
}

/// Only a running child with a leaf has a live usage: its snapshot is completed with
/// what was measured, and every other snapshot stays as it is.
pub proof fn snapshots_are_completed(
    m: ProcessManager,
    info: &mut ProcInfo,
    usage: Option<Usage>,
    wants: bool,
)
    requires
        call_ensures(ProcessManager::wants_usage, (&m, &*old(info)), wants),
        call_ensures(ProcessManager::fill_usage, (&m, info, usage), ()),
    ensures
        wants <==> old(info).state is Running && m@.group is Some,
        final(info).handle == old(info).handle,
        final(info).pid == old(info).pid,
        final(info).state == old(info).state,
        final(info).restarts == old(info).restarts,
        wants ==> final(info).usage == usage,
        !wants ==> final(info).usage == old(info).usage,
{
}

/// The settings of a table are what it was made with.
pub proof fn settings_are_handed_back(
    m: ProcessManager,
    grace: Duration,
    c: Option<&crate::cgroup::Cgroups>,
)
    requires
        call_ensures(ProcessManager::stop_deadline, (&m,), grace),
        call_ensures(ProcessManager::cgroups, (&m,), c),
    ensures
        grace == m@.stop_deadline,
        c is Some <==> m@.group is Some,
        c matches Some(g) ==> m@.group->0 == g@,
{
}

/// What a child says reaches its subscribers as long as there are any; it ends when
/// nothing more can be read.
pub proof fn outputs_are_pumped(read: Option<usize>, audience: usize, p: Pump)
    requires
        call_ensures(crate::process::pump, (read, audience), p),
    ensures
        p is End <==> !(read is Some && read->0 > 0),
        p is Publish <==> read is Some && read->0 > 0 && audience > 0,
        p is Discard <==> read is Some && read->0 > 0 && audience == 0,
{
}

/// A process goes through its life under one handle: spawned, it runs; when it exits,
/// it is down with its code; relaunched, it runs again with a new pid and one more
/// restart.
pub proof fn lives_are_told_by_queries(
    a: &mut ProcessManager,
    b: &mut ProcessManager,
    c: &mut ProcessManager,
    s: &mut Supervision,
    id: Handle,
    spec: Spec,
    pids: (u32, u32),
    code: Option<i32>,
    uptime: Duration,
    up: (Result<(Handle, u32), ()>, Vec<Effect>),
    down: (AfterExit, Vec<Effect>),
    again: (Relaunch<()>, Vec<Effect>),
    q1: Result<ProcInfo, ControlError>,
    q2: Result<ProcInfo, ControlError>,
    q3: Result<ProcInfo, ControlError>,
)
    requires
        call_ensures(ProcessManager::spawn::<()>, (a, id, &spec, Ok(pids.0)), up),
        call_ensures(ProcessManager::query, (&*final(a), id), q1),
        *old(b) == *final(a),
        call_ensures(ProcessManager::supervise, (id, &spec), *old(s)),
        call_ensures(ProcessManager::on_exit, (b, s, code, uptime), down),
        call_ensures(ProcessManager::query, (&*final(b), id), q2),
        *old(c) == *final(b),
        call_ensures(ProcessManager::on_relaunch::<()>, (c, id, &spec, Ok(pids.1)), again),
        call_ensures(ProcessManager::query, (&*final(c), id), q3),
        !old(a)@.shutdown,
    ensures
        q1 matches Ok(i) && i.handle == id && i.pid == pids.0 && i.state is Running && i.restarts
            == 0,
        q2 matches Ok(i) && i.handle == id && i.pid == pids.0 && i.state == ProcState::Exited(code)
            && i.restarts == 0,
        down.0 is RestartAfter ==> (q3 matches Ok(i) && i.handle == id && i.pid == pids.1
            && i.state is Running && i.restarts == 1),
        spec.policy is Always && spec.max_retries == 0 ==> down.0 is RestartAfter,
        spec.policy is Never ==> down.0 is Finished,
{
}

} // verus!
