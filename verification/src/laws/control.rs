//! The control plane: who may do what, and what comes of a request.

use vstd::prelude::*;

use crate::config::{RateLimiterConfig, SupervisorConfig};
use crate::id::EndpointId;
use crate::process::{Effect, ProcessManager};
use crate::proto::{ControlError, Handle, ProcState, Request, Response, Spec};
use crate::supervisor::{Arrival, Authz, OutputEvent, Relay, Route, Supervisor, Work};
use crate::time::Duration;

verus! {

/// Listing, querying and subscribing only look; everything else changes something.
pub proof fn looking_is_told_apart(req: Request, r: bool)
    requires
        call_ensures(Request::is_read_only, (&req,), r),
    ensures
        req is List || req is Query || req is Subscribe ==> r,
        req is Spawn || req is Signal || req is Stop || req is Stdin || req is StdinStream || req
            is Forget ==> !r,
{
}

/// A client is in a list if it is anywhere in it.
pub proof fn members_are_found(ids: Vec<EndpointId>, id: EndpointId, r: bool, i: int)
    requires
        call_ensures(crate::supervisor::is_member, (&ids, &id), r),
    ensures
        0 <= i < ids@.len() && ids@[i].bytes@ == id.bytes@ ==> r,
        r ==> exists|j: int| 0 <= j < ids@.len() && #[trigger] ids@[j] == id,
{
    if 0 <= i < ids@.len() && ids@[i].bytes@ == id.bytes@ {
        assert(ids@[i].bytes =~= id.bytes);
        assert(ids@[i] == id);
    }
}

/// Whether a policy gives this client the right to this request.
pub open spec fn entitled(p: Authz, remote: EndpointId, req: Request) -> bool {
    p.open || p.control@.contains(remote) || (p.read@.contains(remote) && (req is List || req
        is Query || req is Subscribe))
}

/// Everyone may do everything where the policy is open; else those with control may,
/// and those with read-only rights may look; everyone else is denied.
pub proof fn rights_are_checked(
    p: Authz,
    remote: EndpointId,
    req: Request,
    r: Result<(), ControlError>,
)
    requires
        call_ensures(Authz::authorize, (&p, remote, &req), r),
    ensures
        r is Ok <==> entitled(p, remote, req),
        r matches Err(e) ==> e is Denied,
{
}

/// By default nobody may do anything; an open policy lets everyone do everything.
pub proof fn postures_are_what_they_say(
    closed: Authz,
    open: Authz,
    remote: EndpointId,
    req: Request,
    a: Result<(), ControlError>,
    b: Result<(), ControlError>,
)
    requires
        call_ensures(<Authz as Default>::default, (), closed),
        call_ensures(Authz::open, (), open),
        call_ensures(Authz::authorize, (&closed, remote, &req), a),
        call_ensures(Authz::authorize, (&open, remote, &req), b),
    ensures
        a is Err,
        b is Ok,
{
}

/// What reaches the table or the process is the request that the client made. One
/// that the client is not entitled to is denied; one that streams keeps its handle and
/// its data; every other is dispatched as it is.
pub proof fn requests_arrive_unchanged<T: Copy>(
    s: Supervisor<T>,
    remote: EndpointId,
    req: Request,
    r: Route,
)
    requires
        call_ensures(Supervisor::<T>::accept, (&s, remote, Arrival::Request(req)), r),
    ensures
        ({
            let may = entitled(s.policy(), remote, req);
            &&& r is Reject <==> !may
            &&& r matches Route::Reject(e) ==> e is Denied
            &&& r is Subscribe <==> may && req is Subscribe
            &&& r is StdinStream <==> may && req is StdinStream
            &&& r is Stdin <==> may && req is Stdin
            &&& r is Dispatch <==> may && !(req is Subscribe || req is StdinStream || req is Stdin)
            &&& r matches Route::Dispatch(d) ==> d == req
            &&& r matches Route::Subscribe { id } ==> req->Subscribe_id == id
            &&& r matches Route::StdinStream { id } ==> req->StdinStream_id == id
            &&& r matches Route::Stdin { id, data } ==> req->Stdin_id == id && req->data == data
        }),
{
}

/// A client that asks too often, too slowly or for nothing that makes sense is told
/// so, whoever it is.
pub proof fn bad_arrivals_are_turned_away<T: Copy>(
    s: Supervisor<T>,
    remote: EndpointId,
    a: Arrival,
    r: Route,
)
    requires
        call_ensures(Supervisor::<T>::accept, (&s, remote, a), r),
        !(a is Request),
    ensures
        r is Reject,
        a is Limited ==> r->Reject_0 is RateLimited,
        a is TimedOut ==> r->Reject_0 is Timeout,
        a is Malformed ==> r->Reject_0 is BadRequest && (r->Reject_0)->BadRequest_0@
            == "malformed request"@,
{
}

/// A dispatched request changes neither the policy nor the settings nor anyone's
/// bucket.
pub proof fn dispatching_keeps_the_rules<T: Copy>(s: &mut Supervisor<T>, req: Request, w: Work)
    requires
        call_ensures(Supervisor::<T>::dispatch, (s, req), w),
    ensures
        final(s).policy() == old(s).policy(),
        final(s).config() == old(s).config(),
        final(s).buckets() == old(s).buckets(),
{
}

/// A spawn is launched under a handle that was never in use, with the very spec that
/// the client sent. Nothing is tracked before it is up.
pub proof fn spawns_get_new_handles<T: Copy>(
    s: &mut Supervisor<T>,
    spec: Spec,
    w: Work,
    h: Handle,
)
    requires
        old(s).table().wf(),
        old(s).table().next < u64::MAX,
        call_ensures(Supervisor::<T>::dispatch, (s, Request::Spawn(spec)), w),
    ensures
        w is Launch,
        w->Launch_spec == spec,
        w->Launch_id > old(s).table().next,
        old(s).table().procs.contains_key(h) ==> h < w->Launch_id,
        final(s).table().next == w->Launch_id,
        final(s).table().procs == old(s).table().procs,
        final(s).table().due == old(s).table().due,
        final(s).table().shutdown == old(s).table().shutdown,
        final(s).table().stored == old(s).table().stored,
        final(s).table().group == old(s).table().group,
        final(s).table().stop_deadline == old(s).table().stop_deadline,
{
}

/// A query is answered with what the table holds of the process that was asked for,
/// and changes nothing.
pub proof fn queries_are_answered<T: Copy>(s: &mut Supervisor<T>, id: Handle, w: Work)
    requires
        call_ensures(Supervisor::<T>::dispatch, (s, Request::Query { id }), w),
    ensures
        final(s).table() == old(s).table(),
        w is Status <==> old(s).table().procs.contains_key(id),
        w matches Work::Status(i) ==> {
            let e = old(s).table().procs[id];
            i.handle == id && i.pid == e.pid && i.state == e.status && i.restarts == e.restarts
                && i.usage is None
        },
        !(w is Status) ==> w == Work::Reply(Response::Error(ControlError::NotFound(id))),
{
}

/// A listing tells of every tracked process once, lowest handle first, and changes
/// nothing.
pub proof fn listings_are_complete<T: Copy>(s: &mut Supervisor<T>, w: Work, id: Handle)
    requires
        call_ensures(Supervisor::<T>::dispatch, (s, Request::List), w),
    ensures
        final(s).table() == old(s).table(),
        w is List,
        w matches Work::List(v) ==> {
            let procs = old(s).table().procs;
            &&& forall|i: int, j: int|
                0 <= i < j < v@.len() ==> (#[trigger] v@[i]).handle < (#[trigger] v@[j]).handle
            &&& procs.contains_key(id) <==> exists|i: int|
                0 <= i < v@.len() && (#[trigger] v@[i]).handle == id
            &&& forall|i: int|
                0 <= i < v@.len() ==> {
                    let e = procs[(#[trigger] v@[i]).handle];
                    v@[i].pid == e.pid && v@[i].state == e.status && v@[i].restarts == e.restarts
                        && v@[i].usage is None
                }
        },
{
    if let Work::List(v) = w {
        let hs = Seq::new(v@.len(), |i: int| v@[i].handle);
        assert forall|i: int, j: int| 0 <= i < j < v@.len() implies (#[trigger] v@[i]).handle < (
        #[trigger] v@[j]).handle by {
            assert(hs[i] < hs[j]);
        }
        if old(s).table().procs.contains_key(id) {
            assert(hs.contains(id));
            let i = choose|i: int| 0 <= i < hs.len() && hs[i] == id;
            assert(v@[i].handle == id);
        }
        if exists|i: int| 0 <= i < v@.len() && (#[trigger] v@[i]).handle == id {
            let i = choose|i: int| 0 <= i < v@.len() && (#[trigger] v@[i]).handle == id;
            assert(hs[i] == id);
            assert(hs.contains(id));
        }
    }
}

/// If a request for a signal leads to a signal, its number is the one that was asked
/// for, and it goes to the pid of the process that was asked for, which runs. Signals
/// that every platform has are sent to whatever runs. Nothing in the table changes.
pub proof fn the_signal_asked_for_is_sent<T: Copy>(
    s: &mut Supervisor<T>,
    id: Handle,
    sig: i32,
    w: Work,
)
    requires
        call_ensures(Supervisor::<T>::dispatch, (s, Request::Signal { id, sig }), w),
    ensures
        final(s).table() == old(s).table(),
        w is Signal || (w is Reply && w->Reply_0 is Error),
        w is Signal ==> {
            let e = old(s).table().procs[id];
            &&& w->sig == sig
            &&& 1 <= sig <= 64
            &&& crate::process::platform_says(sig, true)
            &&& old(s).table().procs.contains_key(id)
            &&& e.status is Running
            &&& w->pid == e.pid
        },
        ({
            let m = old(s).table();
            let up = m.procs.contains_key(id) && m.procs[id].status is Running;
            &&& up && (sig == 1 || sig == 2 || sig == 3 || sig == 4 || sig == 6 || sig == 8 || sig
                == 9 || sig == 11 || sig == 14 || sig == 15) ==> w is Signal
            &&& !m.procs.contains_key(id) ==> w == Work::Reply(
                Response::Error(ControlError::NotFound(id)),
            )
            &&& m.procs.contains_key(id) && !up ==> (w matches Work::Reply(
                Response::Error(ControlError::BadRequest(t)),
            ) && t@ == "process is not running"@)
            &&& up && !(w is Signal) ==> (w matches Work::Reply(
                Response::Error(ControlError::BadRequest(t)),
            ) && t@.len() > 15 && t@.take(15) == "invalid signal "@)
        }),
{
    reveal_strlit("invalid signal ");
    let m = old(s).table();
    let up = m.procs.contains_key(id) && m.procs[id].status is Running;
    if up && !(w is Signal) {
        let e = (w->Reply_0)->Error_0;
        let known = choose|known: bool| #[trigger]
            crate::process::signal_outcome(m, id, sig, known, Err(e))
                && crate::process::platform_says(sig, known);
        let t = e->BadRequest_0@;
        let d = crate::text::signed_decimal(sig as int);
        if sig >= 0 {
            crate::text::decimal_reads_back(sig as nat);
        }
        assert(d.len() > 0);
        assert(t.take(15) =~= "invalid signal "@);
    }
}

/// A stop disarms the process that was asked for and touches no other. What runs is
/// brought down by its pid within the configured grace.
pub proof fn stops_reach_the_process<T: Copy>(s: &mut Supervisor<T>, id: Handle, w: Work)
    requires
        call_ensures(Supervisor::<T>::dispatch, (s, Request::Stop { id }), w),
    ensures
        w is Stop <==> old(s).table().procs.contains_key(id),
        !(w is Stop) ==> w == Work::Reply(Response::Error(ControlError::NotFound(id)))
            && final(s).table() == old(s).table(),
        w matches Work::Stop(t) ==> {
            let was = old(s).table().procs[id];
            let now = final(s).table().procs[id];
            &&& crate::laws::table::only_touches(old(s).table(), final(s).table(), id)
            &&& final(s).table().procs.contains_key(id)
            &&& !final(s).table().due.contains(id)
            &&& !now.armed
            &&& now.status == was.status
            &&& now.pid == was.pid
            &&& now.restarts == was.restarts
            &&& now.stdin_open == was.stdin_open
            &&& t is Some <==> was.status is Running
            &&& t matches Some(t) ==> t.id == id && t.pid == was.pid && t.grace
                == old(s).table().stop_deadline
        },
{
}

/// A permitted request to forget a process that is tracked and does not run leaves a
/// table that does not track it, drops its record where records are kept, and touches
/// nothing else; what runs stays.
pub proof fn permitted_forgets_forget<T: Copy>(
    s: &mut Supervisor<T>,
    remote: EndpointId,
    id: Handle,
    r: Route,
    w: Work,
)
    requires
        call_ensures(
            Supervisor::<T>::accept,
            (&*old(s), remote, Arrival::Request(Request::Forget { id })),
            r,
        ),
        r is Dispatch,
        call_ensures(Supervisor::<T>::dispatch, (s, r->Dispatch_0), w),
    ensures
        ({
            let m = old(s).table();
            let gone = m.procs.contains_key(id) && !(m.procs[id].status is Running);
            &&& w is Forget <==> gone
            &&& gone ==> !final(s).table().procs.contains_key(id) && crate::laws::table::only_touches(
                m,
                final(s).table(),
                id,
            ) && final(s).table().due == m.due
            &&& !gone ==> final(s).table() == m
            &&& w matches Work::Forget(effects) ==> {
                &&& effects@.len() == if m.stored {
                    1int
                } else {
                    0
                }
                &&& m.stored ==> effects@[0] == (Effect::Unpersist { id })
            }
            &&& !m.procs.contains_key(id) ==> w == Work::Reply(
                Response::Error(ControlError::NotFound(id)),
            )
            &&& m.procs.contains_key(id) && !gone ==> (w matches Work::Reply(
                Response::Error(ControlError::BadRequest(t)),
            ) && t@ == "cannot forget a running process"@)
        }),
{
}

/// A client that spawned a child is told its handle and pid, and the child is tracked
/// under them; where the launch failed the client is told so, and nothing is tracked.
pub proof fn launches_are_told<T: Copy, E>(
    s: &mut Supervisor<T>,
    id: Handle,
    spec: Spec,
    launched: Result<u32, E>,
    r: (Response, Vec<Effect>),
)
    requires
        call_ensures(Supervisor::<T>::launched::<E>, (s, id, &spec, launched), r),
    ensures
        final(s).policy() == old(s).policy(),
        final(s).config() == old(s).config(),
        final(s).buckets() == old(s).buckets(),
        launched matches Ok(pid) ==> {
            let e = final(s).table().procs[id];
            &&& r.0 is Spawned
            &&& r.0->id == id
            &&& r.0->pid == pid
            &&& final(s).table().procs.contains_key(id)
            &&& e.pid == pid
            &&& e.status == ProcState::Running
            &&& e.restarts == 0
            &&& e.armed
            &&& e.stdin_open
            &&& crate::laws::table::only_touches(old(s).table(), final(s).table(), id)
            &&& crate::laws::table::keeps_launch(old(s).table().stored, r.1@, id, spec, pid)
        },
        launched is Err ==> {
            &&& r.0 is Error
            &&& r.0->Error_0 is SpawnFailed
            &&& (r.0->Error_0)->SpawnFailed_0@ == "could not start process"@
            &&& final(s).table() == old(s).table()
            &&& crate::laws::table::clears_leaf(old(s).table().group is Some, r.1@, id)
        },
{
}

/// A subscriber is acknowledged if and only if the process is tracked.
pub proof fn subscribers_are_acknowledged<T: Copy>(s: Supervisor<T>, id: Handle, r: Response)
    requires
        call_ensures(Supervisor::<T>::subscribe, (&s, id), r),
    ensures
        s.table().procs.contains_key(id) ==> r is Ack,
        !s.table().procs.contains_key(id) ==> r == Response::Error(ControlError::NotFound(id)),
{
}

/// Success is acknowledged, and an error handed on as it is.
pub proof fn outcomes_are_told(o: Result<(), ControlError>, r: Response)
    requires
        call_ensures(crate::supervisor::reply, (o,), r),
    ensures
        r is Ack <==> o is Ok,
        o matches Err(e) ==> r is Error && r->Error_0 == e,
{
}

/// A subscriber gets every chunk that is there, loses only those that it was too slow
/// for, and the stream ends with the output.
pub proof fn subscribers_get_what_there_is(e: OutputEvent, r: Relay)
    requires
        call_ensures(crate::supervisor::relay, (e,), r),
    ensures
        r is Forward <==> e is Chunk,
        r is Finish <==> e is Closed,
        r is Skip <==> e is Lagged,
{
}

/// A supervisor has the table, the policy and the settings that it is made with, and
/// has seen nobody yet.
pub proof fn supervisors_are_what_they_are_made_of<T: Copy>(
    procs: ProcessManager,
    authz: Authz,
    cfg: SupervisorConfig<T>,
    s: Supervisor<T>,
    p: &ProcessManager,
    d: Duration,
)
    requires
        call_ensures(Supervisor::<T>::new, (procs, authz, cfg), s),
        call_ensures(Supervisor::<T>::procs, (&s,), p),
        call_ensures(Supervisor::<T>::request_timeout, (&s,), d),
    ensures
        p@ == procs@,
        s.table() == procs@,
        s.policy() == authz,
        s.config() == cfg,
        d == cfg.request_timeout,
        forall|q: EndpointId| !#[trigger] s.buckets().contains_key(q),
{
}

/// A connection is charged to its own peer's bucket, by the rate that is configured:
/// a peer without one starts with a full one. Nothing but the buckets changes.
pub proof fn connections_are_charged<
    T: Copy,
    F: Fn(T, Duration, RateLimiterConfig<T>) -> (T, bool),
>(
    s: &mut Supervisor<T>,
    remote: EndpointId,
    now: Duration,
    step: F,
    admitted: bool,
    held: T,
    span: Duration,
    other: EndpointId,
)
    requires
        call_ensures(Supervisor::<T>::allow::<F>, (s, remote, now, step), admitted),
        old(s).buckets().contains_key(remote) ==> span.nanos == if now.nanos
            > old(s).buckets()[remote].last_used.nanos {
            now.nanos - old(s).buckets()[remote].last_used.nanos
        } else {
            0
        },
        old(s).buckets().contains_key(remote) ==> held == old(s).buckets()[remote].tokens,
        !old(s).buckets().contains_key(remote) ==> span.nanos == 0 && held
            == old(s).config().rate_limiter.burst,
    ensures
        final(s).table() == old(s).table(),
        final(s).policy() == old(s).policy(),
        final(s).config() == old(s).config(),
        other != remote && final(s).buckets().contains_key(other) ==> old(s).buckets().contains_key(
            other,
        ) && final(s).buckets()[other] == old(s).buckets()[other],
        exists|t: T| #[trigger]
            call_ensures(step, (held, span, old(s).config().rate_limiter), (t, admitted)) && (
            final(s).buckets().contains_key(remote) ==> final(s).buckets()[remote].tokens == t
                && final(s).buckets()[remote].last_used == now),
{
    let cfg = old(s).config().rate_limiter;
    if other != remote {
        crate::ratelimit::peers_are_limited_apart(
            step,
            old(s).buckets(),
            cfg,
            remote,
            now,
            final(s).buckets(),
            admitted,
            other,
        );
    }
    let was = crate::ratelimit::charged(old(s).buckets(), cfg, remote, now);
    let t = crate::ratelimit::lemma_charged(
        step,
        old(s).buckets(),
        cfg,
        remote,
        now,
        final(s).buckets(),
        admitted,
    );
    assert(span == crate::ratelimit::elapsed(now, was.last_used));
    assert(call_ensures(step, (was.tokens, span, cfg), (t, admitted)));
}

/// What is reported to the table of a supervisor is what becomes of it, and changes
/// nothing else.
pub proof fn reports_reach_the_table<T: Copy>(s: &mut Supervisor<T>, p: &mut ProcessManager)
    requires
        call_ensures(Supervisor::<T>::procs_mut, (s,), p),
    ensures
        old(p)@ == old(s).table(),
        final(s).table() == final(p)@,
        final(s).policy() == old(s).policy(),
        final(s).config() == old(s).config(),
        final(s).buckets() == old(s).buckets(),
{
}

/// The names and sizes that both ends and every version agree on.
pub proof fn names_and_sizes_are_fixed()
    ensures
        crate::proto::CONTROL_ALPN@ == "/supervisor/control/1"@,
        crate::proto::MAX_FRAME == 65536,
        crate::store::KEY_SECRET@ == "secret_key"@,
        crate::store::KEY_NEXT@ == "next_handle"@,
        crate::telemetry::DEFAULT_TOPIC_LABEL@ == "p2p-telemtry/telemetry/1"@,
        crate::process::STDOUT_CAP == 1024,
        crate::process::CHUNK == 8192,
        crate::cgroup::MOUNT@ == "/sys/fs/cgroup"@,
        crate::cgroup::GROUP@ == "p2p-telemetry"@,
{
}

} // verus!
