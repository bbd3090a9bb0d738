//! What holds over the whole life of a process table, whatever happens to it and
//! in whatever order.

use vstd::prelude::*;

use crate::process::{AfterExit, Manager, ProcEntry, Record, Supervision};
use crate::proto::{Handle, ProcState};
use crate::time::Duration;

verus! {

/// Something that happens to a process table.
pub enum Event {
    /// A handle is handed out.
    Reserved,
    /// A child is launched under a handle that was handed out.
    Spawned { id: Handle, pid: u32 },
    /// A child exits, and stays down or is to be relaunched.
    Exited { id: Handle, code: Option<i32>, restart: bool },
    /// A child is launched again.
    Relaunched { id: Handle, pid: u32 },
    /// A child is not launched again, or not kept.
    Abandoned { id: Handle },
    /// A process is stopped.
    Stopped { id: Handle },
    /// A process is forgotten.
    Forgotten { id: Handle },
    /// A launch's standard input is closed.
    StdinClosed { id: Handle, launch: u32 },
    /// The supervisor shuts down.
    ShutDown,
}

/// The table after an event.
pub open spec fn after(m: Manager, e: Event) -> Manager {
    match e {
        Event::Reserved => m.reserved(),
        Event::Spawned { id, pid } => m.spawned(id, pid),
        Event::Exited { id, code, restart } => if restart {
            m.exited(id, code).awaiting(id)
        } else {
            m.exited(id, code)
        },
        Event::Relaunched { id, pid } => m.relaunched(id, pid),
        Event::Abandoned { id } => m.settled(id),
        Event::Stopped { id } => m.disarmed(id),
        Event::Forgotten { id } => m.forgotten(id),
        Event::StdinClosed { id, launch } => m.stdin_closed(id, launch),
        Event::ShutDown => m.shut_down(),
    }
}

/// Whether an event can happen to a table. Handles do not run out, and a handle
/// names one process; a relaunch is only waited for where the process is armed and
/// the supervisor up, and only noted where it is waited for; and what runs is not
/// forgotten.
pub open spec fn possible(m: Manager, e: Event) -> bool {
    match e {
        Event::Reserved => m.next < u64::MAX,
        Event::Spawned { id, pid } => id <= m.next && !m.tracks(id),
        Event::Exited { id, code, restart } => restart ==> !m.shutdown && m.armed(id),
        Event::Relaunched { id, pid } => m.may_relaunch(id) && (m.tracks(id)
            ==> m.procs[id].restarts < u32::MAX),
        Event::Forgotten { id } => m.tracks(id) && !m.runs(id),
        _ => true,
    }
}

/// The table after a run of events.
pub open spec fn ran(m: Manager, events: Seq<Event>) -> Manager
    decreases events.len(),
{
    if events.len() == 0 {
        m
    } else {
        after(ran(m, events.drop_last()), events.last())
    }
}

/// Whether the events can happen one after the other.
pub open spec fn possible_run(m: Manager, events: Seq<Event>) -> bool
    decreases events.len(),
{
    events.len() == 0 || (possible_run(m, events.drop_last()) && possible(
        ran(m, events.drop_last()),
        events.last(),
    ))
}

/// Whether no new child is spawned under `id`.
pub open spec fn never_spawned(events: Seq<Event>, id: Handle) -> bool {
    forall|i: int|
        0 <= i < events.len() ==> !(#[trigger] events[i] matches Event::Spawned { id: h, pid } && h
            == id)
}

/// Every event keeps the table well-formed: no handle is above the counter, what was
/// reloaded is neither armed nor writable, and what is tracked but not armed is not
/// due to come back.
pub proof fn tables_stay_well_formed(m: Manager, events: Seq<Event>)
    requires
        m.wf(),
        possible_run(m, events),
    ensures
        ran(m, events).wf(),
    decreases events.len(),
{
    if events.len() > 0 {
        tables_stay_well_formed(m, events.drop_last());
    }
}

/// What never happens in a run never happens in its first part.
proof fn lemma_never_spawned_before(events: Seq<Event>, id: Handle)
    requires
        never_spawned(events, id),
        events.len() > 0,
    ensures
        never_spawned(events.drop_last(), id),
        !(events.last() matches Event::Spawned { id: h, pid } && h == id),
{
    let before = events.drop_last();
    assert forall|i: int| 0 <= i < before.len() implies !(#[trigger] before[i] matches Event::Spawned { id: h, pid }
        && h == id) by {
        assert(before[i] == events[i]);
    }
    assert(events.last() == events[events.len() - 1]);
}

/// A process that is neither armed nor due to come back never is again, and is never
/// launched again: as long as it is tracked, its restart count and its pid stay what
/// they are.
pub proof fn disarmed_stays_disarmed(m: Manager, events: Seq<Event>, id: Handle)
    requires
        possible_run(m, events),
        !m.armed(id),
        !m.due.contains(id),
        never_spawned(events, id),
    ensures
        !ran(m, events).due.contains(id),
        !ran(m, events).may_relaunch(id),
        !ran(m, events).armed(id),
        ran(m, events).tracks(id) ==> m.tracks(id) && ran(m, events).procs[id].restarts
            == m.procs[id].restarts && ran(m, events).procs[id].pid == m.procs[id].pid,
    decreases events.len(),
{
    if events.len() > 0 {
        lemma_never_spawned_before(events, id);
        disarmed_stays_disarmed(m, events.drop_last(), id);
    }
}

/// A process that is down, and neither armed nor due to come back, never runs again.
pub proof fn down_and_disarmed_stays_down(m: Manager, events: Seq<Event>, id: Handle)
    requires
        possible_run(m, events),
        !m.armed(id),
        !m.due.contains(id),
        !m.runs(id),
        never_spawned(events, id),
    ensures
        !ran(m, events).runs(id),
    decreases events.len(),
{
    if events.len() > 0 {
        lemma_never_spawned_before(events, id);
        disarmed_stays_disarmed(m, events.drop_last(), id);
        down_and_disarmed_stays_down(m, events.drop_last(), id);
    }
}

/// A run goes on from where its first part ends.
proof fn lemma_run_goes_on(m: Manager, events: Seq<Event>, k: int)
    requires
        0 <= k <= events.len(),
        possible_run(m, events),
    ensures
        ran(m, events) == ran(ran(m, events.take(k)), events.skip(k)),
        possible_run(m, events.take(k)),
        possible_run(ran(m, events.take(k)), events.skip(k)),
    decreases events.len(),
{
    if k == events.len() {
        assert(events.take(k) =~= events);
        assert(events.skip(k) =~= Seq::<Event>::empty());
    } else {
        let before = events.drop_last();
        lemma_run_goes_on(m, before, k);
        assert(before.take(k) =~= events.take(k));
        assert(events.skip(k).drop_last() =~= before.skip(k));
        assert(events.skip(k).last() == events.last());
    }
}

/// A stopped process does not come back, whenever the stop comes: while the child
/// runs, or while a restart is being waited for; and whatever comes after, be the
/// process forgotten. It is not launched again, and once it is down, be it at the
/// stop or at any point `k` after it, it never runs again.
pub proof fn stopped_stays_down(m: Manager, events: Seq<Event>, id: Handle, k: int)
    requires
        m.tracks(id),
        possible_run(after(m, Event::Stopped { id }), events),
        never_spawned(events, id),
        0 <= k <= events.len(),
    ensures
        ({
            let stopped = after(m, Event::Stopped { id });
            let later = ran(stopped, events);
            &&& !later.may_relaunch(id)
            &&& later.tracks(id) ==> later.procs[id].restarts == m.procs[id].restarts
                && later.procs[id].pid == m.procs[id].pid
            &&& !ran(stopped, events.take(k)).runs(id) ==> !later.runs(id)
        }),
{
    let stopped = after(m, Event::Stopped { id });
    disarmed_stays_disarmed(stopped, events, id);
    lemma_run_goes_on(stopped, events, k);
    let head = events.take(k);
    let tail = events.skip(k);
    assert forall|i: int| 0 <= i < head.len() implies !(#[trigger] head[i] matches Event::Spawned { id: h, pid }
        && h == id) by {
        assert(head[i] == events[i]);
    }
    assert forall|i: int| 0 <= i < tail.len() implies !(#[trigger] tail[i] matches Event::Spawned { id: h, pid }
        && h == id) by {
        assert(tail[i] == events[i + k]);
    }
    disarmed_stays_disarmed(stopped, head, id);
    if !ran(stopped, head).runs(id) {
        down_and_disarmed_stays_down(ran(stopped, head), tail, id);
    }
}

/// To forget a process calls off no restart that is being waited for: its child comes
/// up again, the table stays as it is, and there is no further restart.
pub proof fn forgotten_children_come_back_once(m: Manager, id: Handle, pid: u32)
    requires
        m.may_relaunch(id),
        m.tracks(id),
        !m.runs(id),
    ensures
        ({
            let forgotten = after(m, Event::Forgotten { id });
            let up = after(forgotten, Event::Relaunched { id, pid });
            &&& possible(forgotten, Event::Relaunched { id, pid })
            &&& up.procs == forgotten.procs
            &&& !up.tracks(id)
            &&& !up.may_relaunch(id)
            &&& forall|code: Option<i32>|
                !#[trigger] possible(up, Event::Exited { id, code, restart: true })
        }),
{
}

/// Once the supervisor shuts down, nothing is relaunched any more: what is down, or
/// comes down, stays down.
pub proof fn shutdown_is_final(m: Manager, events: Seq<Event>, id: Handle)
    requires
        m.shutdown,
        possible_run(m, events),
        never_spawned(events, id),
    ensures
        ran(m, events).shutdown,
        !ran(m, events).may_relaunch(id),
        !m.runs(id) ==> !ran(m, events).runs(id),
    decreases events.len(),
{
    if events.len() > 0 {
        lemma_never_spawned_before(events, id);
        shutdown_is_final(m, events.drop_last(), id);
    }
}

/// A process that was reloaded from the store is never resurrected: it never runs
/// again, and nobody is asked to launch it.
pub proof fn stale_is_never_resurrected(m: Manager, events: Seq<Event>, id: Handle)
    requires
        m.wf(),
        possible_run(m, events),
        never_spawned(events, id),
        m.tracks(id),
        m.procs[id].status is Stale,
    ensures
        !ran(m, events).runs(id),
        !ran(m, events).may_relaunch(id),
        ran(m, events).tracks(id) ==> ran(m, events).procs[id].restarts == m.procs[id].restarts
            && ran(m, events).procs[id].pid == m.procs[id].pid,
{
    disarmed_stays_disarmed(m, events, id);
    down_and_disarmed_stays_down(m, events, id);
}

/// Whether no exit of `id` is noted.
pub open spec fn never_exited(events: Seq<Event>, id: Handle) -> bool {
    forall|i: int|
        0 <= i < events.len() ==> !(#[trigger] events[i] matches Event::Exited {
            id: h,
            code,
            restart,
        } && h == id)
}

/// A process that was reloaded from the store has no child that could exit, and so
/// stays stale until it is forgotten.
pub proof fn stale_stays_stale(m: Manager, events: Seq<Event>, id: Handle)
    requires
        m.wf(),
        possible_run(m, events),
        never_spawned(events, id),
        never_exited(events, id),
        m.tracks(id),
        m.procs[id].status is Stale,
    ensures
        ran(m, events).tracks(id) ==> ran(m, events).procs[id].status is Stale,
    decreases events.len(),
{
    if events.len() > 0 {
        let before = events.drop_last();
        lemma_never_spawned_before(events, id);
        assert forall|i: int| 0 <= i < before.len() implies !(#[trigger] before[i] matches Event::Exited {
            id: h,
            code,
            restart,
        } && h == id) by {
            assert(before[i] == events[i]);
        }
        assert(events.last() == events[events.len() - 1]);
        stale_stays_stale(m, before, id);
        disarmed_stays_disarmed(m, before, id);
    }
}

/// A handle that is handed out later is above every handle that was tracked or
/// handed out before: handles are stable names.
pub proof fn handles_are_never_reused(m: Manager, events: Seq<Event>)
    requires
        m.wf(),
        possible_run(m, events),
    ensures
        ran(m, events).next >= m.next,
        forall|h: Handle| #[trigger] m.tracks(h) ==> h < ran(m, events).next + 1,
    decreases events.len(),
{
    if events.len() > 0 {
        handles_are_never_reused(m, events.drop_last());
    }
}

/// How often the events relaunch `id`.
pub open spec fn relaunches(events: Seq<Event>, id: Handle) -> nat
    decreases events.len(),
{
    if events.len() == 0 {
        0
    } else {
        relaunches(events.drop_last(), id) + (if events.last() matches Event::Relaunched {
            id: h,
            pid,
        } && h == id {
            1nat
        } else {
            0nat
        })
    }
}

/// Whether the events leave `id` tracked, as one and the same process.
pub open spec fn kept(events: Seq<Event>, id: Handle) -> bool {
    forall|i: int|
        0 <= i < events.len() ==> match #[trigger] events[i] {
            Event::Spawned { id: h, pid } => h != id,
            Event::Forgotten { id: h } => h != id,
            _ => true,
        }
}

/// A process's restart count is the number of its relaunches.
pub proof fn restarts_count_relaunches(m: Manager, events: Seq<Event>, id: Handle)
    requires
        m.tracks(id),
        possible_run(m, events),
        kept(events, id),
    ensures
        ran(m, events).tracks(id),
        ran(m, events).procs[id].restarts == m.procs[id].restarts + relaunches(events, id),
    decreases events.len(),
{
    if events.len() > 0 {
        let before = events.drop_last();
        assert forall|i: int| 0 <= i < before.len() implies match #[trigger] before[i] {
            Event::Spawned { id: h, pid } => h != id,
            Event::Forgotten { id: h } => h != id,
            _ => true,
        } by {
            assert(before[i] == events[i]);
        }
        restarts_count_relaunches(m, before, id);
        assert(events.last() == events[events.len() - 1]);
    }
}

/// The restart delays: one second after the first fast exit, twice as long after
/// each further one, and never more than thirty seconds.
pub proof fn backoff_doubles_up_to_the_cap(attempt: nat)
    requires
        attempt >= 1,
    ensures
        crate::process::backoff_secs(1) == 1,
        1 <= crate::process::backoff_secs(attempt) <= crate::process::RESTART_MAX_SECS,
        crate::process::backoff_secs(attempt + 1) == (if 2 * crate::process::backoff_secs(attempt)
            <= crate::process::RESTART_MAX_SECS {
            2 * crate::process::backoff_secs(attempt)
        } else {
            crate::process::RESTART_MAX_SECS as nat
        }),
{
    crate::time::lemma_two_to_grows(0, (attempt - 1) as nat);
}

/// How many of a run of fast exits in a row are answered with a relaunch, before
/// the first that is not.
pub open spec fn relaunches_granted(
    s: Supervision,
    codes: Seq<Option<i32>>,
    uptimes: Seq<Duration>,
) -> nat
    decreases codes.len(),
{
    if codes.len() == 0 {
        0
    } else if crate::process::restart_decision(s, codes[0], uptimes[0]) is RestartAfter {
        let next = Supervision {
            attempt: crate::process::next_attempt(s.attempt as nat, uptimes[0]) as u32,
            ..s
        };
        1 + relaunches_granted(next, codes.drop_first(), uptimes.drop_first())
    } else {
        0
    }
}

/// Whether every exit comes soon after the launch and warrants a restart.
pub open spec fn crash_loop(
    s: Supervision,
    codes: Seq<Option<i32>>,
    uptimes: Seq<Duration>,
) -> bool {
    &&& codes.len() == uptimes.len()
    &&& forall|i: int|
        0 <= i < codes.len() ==> crate::process::restart_due(s.policy, #[trigger] codes[i])
    &&& forall|i: int|
        0 <= i < uptimes.len() ==> (#[trigger] uptimes[i]).nanos
            < crate::process::STABLE_RESET_SECS * 1_000_000_000
}

/// A child that keeps crashing is relaunched exactly as often as its retry cap
/// allows, counted over the crashes in a row, and then given up.
pub proof fn crash_loops_end_at_the_cap(
    s: Supervision,
    codes: Seq<Option<i32>>,
    uptimes: Seq<Duration>,
)
    requires
        s.max_retries != 0,
        s.attempt <= s.max_retries,
        crash_loop(s, codes, uptimes),
        codes.len() > s.max_retries - s.attempt,
    ensures
        relaunches_granted(s, codes, uptimes) == s.max_retries - s.attempt,
    decreases codes.len(),
{
    assert(crate::process::restart_due(s.policy, codes[0]));
    assert(uptimes[0].nanos < crate::process::STABLE_RESET_SECS * 1_000_000_000);
    if s.attempt < s.max_retries {
        let next = Supervision { attempt: (s.attempt + 1) as u32, ..s };
        let c = codes.drop_first();
        let u = uptimes.drop_first();
        assert forall|i: int| 0 <= i < c.len() implies crate::process::restart_due(
            next.policy,
            #[trigger] c[i],
        ) by {
            assert(c[i] == codes[i + 1]);
        }
        assert forall|i: int| 0 <= i < u.len() implies (#[trigger] u[i]).nanos
            < crate::process::STABLE_RESET_SECS * 1_000_000_000 by {
            assert(u[i] == uptimes[i + 1]);
        }
        crash_loops_end_at_the_cap(next, c, u);
    }
}

/// A child without a retry cap is relaunched after every crash.
pub proof fn uncapped_children_are_always_relaunched(
    s: Supervision,
    codes: Seq<Option<i32>>,
    uptimes: Seq<Duration>,
)
    requires
        s.max_retries == 0,
        crash_loop(s, codes, uptimes),
        s.attempt + codes.len() <= u32::MAX,
    ensures
        relaunches_granted(s, codes, uptimes) == codes.len(),
    decreases codes.len(),
{
    if codes.len() > 0 {
        assert(crate::process::restart_due(s.policy, codes[0]));
        assert(uptimes[0].nanos < crate::process::STABLE_RESET_SECS * 1_000_000_000);
        let next = Supervision { attempt: (s.attempt + 1) as u32, ..s };
        let c = codes.drop_first();
        let u = uptimes.drop_first();
        assert forall|i: int| 0 <= i < c.len() implies crate::process::restart_due(
            next.policy,
            #[trigger] c[i],
        ) by {
            assert(c[i] == codes[i + 1]);
        }
        assert forall|i: int| 0 <= i < u.len() implies (#[trigger] u[i]).nanos
            < crate::process::STABLE_RESET_SECS * 1_000_000_000 by {
            assert(u[i] == uptimes[i + 1]);
        }
        uncapped_children_are_always_relaunched(next, c, u);
    }
}

/// A clean exit under `OnFailure`, and any exit under `Never`, is final.
pub proof fn clean_exits_are_final(s: Supervision, uptime: Duration)
    requires
        s.policy is OnFailure || s.policy is Never,
    ensures
        crate::process::restart_decision(s, Some(0i32), uptime) == AfterExit::Finished,
{
}

/// There is one way to list a table.
pub proof fn listing_is_unique(procs: Map<Handle, ProcEntry>, a: Seq<Handle>, b: Seq<Handle>)
    requires
        crate::process::lists(procs, a),
        crate::process::lists(procs, b),
    ensures
        a == b,
{
    assert forall|h: Handle| #[trigger] a.contains(h) <==> b.contains(h) by {}
    lemma_ascending_is_unique(a, b);
}

/// There is one way to list the running children, and so the shutdown has no choice
/// whom to ask.
pub proof fn running_listing_is_unique(m: Manager, a: Seq<Handle>, b: Seq<Handle>)
    requires
        m.lists_running(a),
        m.lists_running(b),
    ensures
        a == b,
{
    assert forall|h: Handle| #[trigger] a.contains(h) <==> b.contains(h) by {}
    lemma_ascending_is_unique(a, b);
}

/// Ascending lists of the same handles are the same.
pub proof fn lemma_ascending_is_unique(a: Seq<Handle>, b: Seq<Handle>)
    requires
        crate::process::ascending(a),
        crate::process::ascending(b),
        forall|h: Handle| #[trigger] a.contains(h) <==> b.contains(h),
    ensures
        a == b,
{
    lemma_prefix_agrees(a, b, a.len());
    if b.len() > a.len() {
        let h = b[a.len() as int];
        assert(b.contains(h));
        assert(a.contains(h));
        let i = choose|i: int| 0 <= i < a.len() && a[i] == h;
        assert(b[i] == h);
    }
    assert(a =~= b);
}

/// Ascending lists of the same handles agree on their first `n`.
proof fn lemma_prefix_agrees(a: Seq<Handle>, b: Seq<Handle>, n: nat)
    requires
        crate::process::ascending(a),
        crate::process::ascending(b),
        forall|h: Handle| #[trigger] a.contains(h) <==> b.contains(h),
        n <= a.len(),
    ensures
        n <= b.len(),
        forall|i: int| 0 <= i < n ==> a[i] == b[i],
    decreases n,
{
    if n > 0 {
        let k = (n - 1) as int;
        lemma_prefix_agrees(a, b, k as nat);
        assert(a.contains(a[k]));
        assert(b.contains(a[k]));
        let i = choose|i: int| 0 <= i < b.len() && b[i] == a[k];
        if i < k {
            assert(a[i] == b[i]);
        }
        if i > k {
            assert(b.contains(b[k]));
            assert(a.contains(b[k]));
            let j = choose|j: int| 0 <= j < a.len() && a[j] == b[k];
            if j < k {
                assert(a[j] == b[j]);
            }
        }
    }
}

/// Reloading keeps every record, with its handle and pid; a process that was
/// running comes back stale, and none comes back alive.
pub proof fn reload_keeps_every_record(records: Seq<(Handle, Record)>, i: int)
    requires
        0 <= i < records.len(),
        forall|a: int, b: int|
            0 <= a < records.len() && 0 <= b < records.len() && (#[trigger] records[a]).0 == (
            #[trigger] records[b]).0 ==> a == b,
    ensures
        ({
            let m = crate::process::tombstones(records);
            let (id, rec) = records[i];
            &&& m.contains_key(id)
            &&& m[id].pid == rec.pid
            &&& m[id].status == (if rec.status is Running {
                ProcState::Stale
            } else {
                rec.status
            })
            &&& !m[id].armed
            &&& !m[id].stdin_open
        }),
    decreases records.len(),
{
    if i < records.len() - 1 {
        let r = records.drop_last();
        assert forall|a: int, b: int|
            0 <= a < r.len() && 0 <= b < r.len() && (#[trigger] r[a]).0 == (#[trigger] r[b]).0 implies a
            == b by {
            assert(r[a] == records[a] && r[b] == records[b]);
        }
        reload_keeps_every_record(r, i);
        assert(r[i] == records[i]);
        assert(records[i].0 != records[records.len() - 1].0);
    }
}

/// A child's environment holds the search path and what the client passes, and
/// nothing else; what the client passes wins, the last value of a name if it
/// passes several.
pub proof fn environments_are_scrubbed(env: Seq<(Seq<char>, Seq<char>)>, name: Seq<char>)
    ensures
        ({
            let e = crate::process::environment(crate::process::launch_env(env));
            let own = crate::process::environment(env);
            if own.contains_key(name) {
                e.contains_key(name) && e[name] == own[name]
            } else if name == "PATH"@ {
                e.contains_key(name) && e[name] == crate::process::DEFAULT_PATH@
            } else {
                !e.contains_key(name)
            }
        }),
        crate::process::environment(env).contains_key(name) <==> exists|i: int|
            0 <= i < env.len() && (#[trigger] env[i]).0 == name,
    decreases env.len(),
{
    let all = crate::process::launch_env(env);
    if env.len() == 0 {
        assert(all.drop_last() =~= Seq::empty());
        assert(crate::process::environment(all.drop_last()) =~= Map::empty());
    } else {
        assert(all.drop_last() =~= crate::process::launch_env(env.drop_last()));
        assert(all.last() == env.last());
        let before = env.drop_last();
        environments_are_scrubbed(before, name);
        if exists|i: int| 0 <= i < before.len() && (#[trigger] before[i]).0 == name {
            let i = choose|i: int| 0 <= i < before.len() && (#[trigger] before[i]).0 == name;
            assert(env[i].0 == name);
        }
        if env.last().0 == name {
            assert(env[env.len() - 1].0 == name);
        }
        if exists|i: int| 0 <= i < env.len() && (#[trigger] env[i]).0 == name {
            let i = choose|i: int| 0 <= i < env.len() && (#[trigger] env[i]).0 == name;
            if i < before.len() {
                assert(before[i].0 == name);
            }
        }
    }
}

/// A child that stayed up long enough counts as healthy again: its restart waits
/// for one second, however often it crashed before.
pub proof fn stable_children_start_over(s: Supervision, code: Option<i32>, uptime: Duration)
    requires
        crate::process::restart_due(s.policy, code),
        uptime.nanos >= crate::process::STABLE_RESET_SECS * 1_000_000_000,
    ensures
        crate::process::restart_decision(s, code, uptime) == AfterExit::RestartAfter(
            Duration::secs_spec(1),
        ),
{
    assert(crate::time::two_to(0) == 1);
}

} // verus!
