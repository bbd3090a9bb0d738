//! The control plane's decisions: who may do what, what a request asks of the
//! process table, and what the client is told.

use vstd::prelude::*;

use crate::config::{RateLimiterConfig, SupervisorConfig};
use crate::id::{EndpointId, Key};
use crate::process::{Effect, ProcessManager, Termination};
use crate::proto::{ControlError, Handle, ProcInfo, Request, Response, Spec};
use crate::ratelimit::RateLimiter;
use crate::time::Duration;

verus! {

/// Who may do what. `open` admits everyone with full control; otherwise a client
/// must be in `control` (full control) or in `read` (read-only requests).
#[derive(Debug)]
pub struct Authz {
    pub open: bool,
    pub control: Vec<EndpointId>,
    pub read: Vec<EndpointId>,
}

impl Default for Authz {
    /// Nobody is admitted.
    fn default() -> (a: Authz)
        ensures
            !a.open,
            a.control@.len() == 0,
            a.read@.len() == 0,
    {
        Authz { open: false, control: Vec::new(), read: Vec::new() }
    }
}

/// Whether `id` is in the list.
pub fn is_member(ids: &Vec<EndpointId>, id: &EndpointId) -> (r: bool)
    ensures
        r == ids@.contains(*id),
{
    let mut i: usize = 0;
    while i < ids.len()
        invariant
            i <= ids@.len(),
            forall|j: int| 0 <= j < i ==> ids@[j] != *id,
        decreases ids@.len() - i,
    {
        if ids[i].same(id) {
            return true;
        }
        i = i + 1;
    }
    false
}

impl Authz {
    /// Admits every client with full control.
    pub fn open() -> (a: Authz)
        ensures
            a.open,
            a.control@.len() == 0,
            a.read@.len() == 0,
    {
        Authz { open: true, control: Vec::new(), read: Vec::new() }
    }

    /// Whether `remote` may make a request.
    pub open spec fn permits(&self, remote: EndpointId, req: Request) -> bool {
        ||| self.open
        ||| self.control@.contains(remote)
        ||| req.read_only() && self.read@.contains(remote)
    }

    /// Lets a request pass, or denies it.
    pub fn authorize(&self, remote: EndpointId, req: &Request) -> (r: Result<(), ControlError>)
        ensures
            match r {
                Ok(_) => self.permits(remote, *req),
                Err(e) => !self.permits(remote, *req) && e == ControlError::Denied,
            },
    {
        if self.open || is_member(&self.control, &remote) {
            return Ok(());
        }
        if req.is_read_only() && is_member(&self.read, &remote) {
            return Ok(());
        }
        Err(ControlError::Denied)
    }
}

/// Unless a posture is chosen, nobody may do anything.
pub proof fn nobody_is_admitted_by_default(authz: Authz, remote: EndpointId, req: Request)
    requires
        !authz.open,
        authz.control@.len() == 0,
        authz.read@.len() == 0,
    ensures
        !authz.permits(remote, req),
{
}

/// A client with read-only rights can look and nothing else.
pub proof fn readers_can_only_look(authz: Authz, remote: EndpointId, req: Request)
    requires
        !authz.open,
        !authz.control@.contains(remote),
    ensures
        authz.permits(remote, req) ==> req.read_only(),
        authz.read@.contains(remote) && req.read_only() ==> authz.permits(remote, req),
{
}

/// What came of waiting for a client's request.
#[derive(Debug)]
pub enum Arrival {
    /// The peer is over its rate; nothing was read.
    Limited,
    /// A request.
    Request(Request),
    /// Something that is no request.
    Malformed,
    /// Nothing in time.
    TimedOut,
}

/// What to do about a connection.
#[derive(Debug)]
pub enum Route {
    /// Reply with this error.
    Reject(ControlError),
    /// Stream a process's output: an acknowledgement first, then raw bytes.
    Subscribe { id: Handle },
    /// Copy the rest of the request stream to a process's standard input.
    StdinStream { id: Handle },
    /// Write one chunk to a process's standard input.
    Stdin { id: Handle, data: Vec<u8> },
    /// Dispatch the request and send one reply.
    Dispatch(Request),
}

/// Whether a request takes more than one message, or waits for its turn on a
/// process's standard input.
pub open spec fn streams(req: Request) -> bool {
    req is Subscribe || req is StdinStream || req is Stdin
}

/// Where an authorized request goes.
pub open spec fn routed(req: Request) -> Route {
    match req {
        Request::Subscribe { id } => Route::Subscribe { id },
        Request::StdinStream { id } => Route::StdinStream { id },
        Request::Stdin { id, data } => Route::Stdin { id, data },
        other => Route::Dispatch(other),
    }
}

/// What a request asks for, once the table has been consulted.
#[derive(Debug)]
pub enum Work {
    /// Reply with this.
    Reply(Response),
    /// Launch a child under this new handle, and report what came of it.
    Launch { id: Handle, spec: Spec },
    /// Complete this snapshot with the live usage, and reply with it.
    Status(ProcInfo),
    /// Complete these snapshots with the live usage, and reply with them.
    List(Vec<ProcInfo>),
    /// Send a signal to this process, and report whether it was delivered.
    Signal { pid: u32, sig: i32 },
    /// Acknowledge, and see to it that the child, if one runs, comes down.
    Stop(Option<Termination>),
    /// Acknowledge, and do this.
    Forget(Vec<Effect>),
}

/// Whether dispatching `req` on the table `m` may leave `after` and ask for `w`.
pub open spec fn dispatched(
    m: crate::process::Manager,
    req: Request,
    after: crate::process::Manager,
    w: Work,
) -> bool {
    match req {
        Request::Spawn(spec) => after == m.reserved() && w == (Work::Launch {
            id: (m.next + 1) as u64,
            spec,
        }),
        Request::Query { id } => after == m && w == (if m.tracks(id) {
            Work::Status(m.procs[id].bare_info(id))
        } else {
            Work::Reply(Response::Error(ControlError::NotFound(id)))
        }),
        Request::List => after == m && (w matches Work::List(v) && crate::process::snapshots(
            m.procs,
            v@,
        )),
        Request::Signal { id, sig } => after == m && signal_work(m, id, sig, w),
        Request::Stop { id } => after == m.disarmed(id) && w == (if !m.tracks(id) {
            Work::Reply(Response::Error(ControlError::NotFound(id)))
        } else if m.runs(id) {
            Work::Stop(Some(Termination { id, pid: m.procs[id].pid, grace: m.stop_deadline }))
        } else {
            Work::Stop(None)
        }),
        Request::Forget { id } => if !m.tracks(id) {
            after == m && w == Work::Reply(Response::Error(ControlError::NotFound(id)))
        } else if m.runs(id) {
            after == m && (w matches Work::Reply(Response::Error(e)) && e.bad_request(
                "cannot forget a running process"@,
            ))
        } else {
            after == m.forgotten(id) && (w matches Work::Forget(effects) && effects@ == (
            if m.stored {
                seq![Effect::Unpersist { id }]
            } else {
                Seq::empty()
            }))
        },
        _ => false,
    }
}

/// Whether a request for a signal may ask for `w`: the signal goes out, or the
/// client is told why not. Which signals there are is up to the platform.
pub open spec fn signal_work(m: crate::process::Manager, id: Handle, sig: i32, w: Work) -> bool {
    match w {
        Work::Signal { pid, sig: s } => s == sig && m.runs(id) && pid == m.procs[id].pid
            && crate::process::platform_says(sig, true) && !crate::process::never_known(sig),
        Work::Reply(Response::Error(e)) => !(m.runs(id) && crate::process::always_known(sig))
            && exists|known: bool| #[trigger]
            crate::process::signal_outcome(m, id, sig, known, Err(e))
                && crate::process::platform_says(sig, known),
        _ => false,
    }
}

/// The supervisor: the process table, who may use it and how fast.
#[derive(Debug)]
pub struct Supervisor<T> {
    procs: ProcessManager,
    authz: Authz,
    limiter: RateLimiter<T>,
    cfg: SupervisorConfig<T>,
}

impl<T: Copy> Supervisor<T> {
    /// The process table.
    pub closed spec fn table(&self) -> crate::process::Manager {
        self.procs@
    }

    /// Who may do what.
    pub closed spec fn policy(&self) -> Authz {
        self.authz
    }

    /// The peers' buckets.
    pub closed spec fn buckets(&self) -> Map<EndpointId, crate::ratelimit::Bucket<T>> {
        self.limiter@
    }

    /// The operational settings.
    pub closed spec fn config(&self) -> SupervisorConfig<T> {
        self.cfg
    }

    pub closed spec fn wf(&self) -> bool {
        self.procs@.wf() && self.limiter.wf() && self.limiter.config() == self.cfg.rate_limiter
    }

    /// A supervisor around a process table, a policy and settings.
    pub fn new(procs: ProcessManager, authz: Authz, cfg: SupervisorConfig<T>) -> (s: Supervisor<T>)
        requires
            procs@.wf(),
        ensures
            s.wf(),
            s.table() == procs@,
            s.policy() == authz,
            s.config() == cfg,
            s.buckets() == Map::<EndpointId, crate::ratelimit::Bucket<T>>::empty(),
    {
        Supervisor { procs, authz, limiter: RateLimiter::new(cfg.rate_limiter), cfg }
    }

    /// How long a client may take to send its request.
    pub fn request_timeout(&self) -> (d: Duration)
        ensures
            d == self.config().request_timeout,
    {
        self.cfg.request_timeout
    }

    /// The process table.
    pub fn procs(&self) -> (p: &ProcessManager)
        requires
            self.wf(),
        ensures
            p@ == self.table(),
            p@.wf(),
    {
        &self.procs
    }

    /// The process table, to report to it what has become of its children.
    pub fn procs_mut(&mut self) -> (p: &mut ProcessManager)
        requires
            old(self).wf(),
        ensures
            p@ == old(self).table(),
            p@.wf(),
            final(self).table() == final(p)@,
            final(self).policy() == old(self).policy(),
            final(self).config() == old(self).config(),
            final(self).buckets() == old(self).buckets(),
            final(p)@.wf() ==> final(self).wf(),
    {
        &mut self.procs
    }

    /// Charges a connection of `remote` at `now` to its bucket with `step`; says
    /// whether its request is read at all.
    pub fn allow<F: Fn(T, Duration, RateLimiterConfig<T>) -> (T, bool)>(
        &mut self,
        remote: EndpointId,
        now: Duration,
        step: F,
    ) -> (admitted: bool)
        requires
            old(self).wf(),
            forall|t: T, d: Duration, c: RateLimiterConfig<T>| #[trigger]
                call_requires(step, (t, d, c)),
        ensures
            final(self).wf(),
            final(self).table() == old(self).table(),
            final(self).policy() == old(self).policy(),
            final(self).config() == old(self).config(),
            crate::ratelimit::limits_to(
                step,
                old(self).buckets(),
                old(self).config().rate_limiter,
                remote,
                now,
                final(self).buckets(),
                admitted,
            ),
    {
        self.limiter.allow(remote, now, step)
    }

    /// Decides what to do about a connection of `remote`: limits, malformed
    /// requests and rights are settled here, in one place for every request. The
    /// reader's own words are not reflected to the client.
    pub fn accept(&self, remote: EndpointId, arrival: Arrival) -> (r: Route)
        ensures
            match arrival {
                Arrival::Limited => r == Route::Reject(ControlError::RateLimited),
                Arrival::TimedOut => r == Route::Reject(ControlError::Timeout),
                Arrival::Malformed => r matches Route::Reject(e) && e.bad_request(
                    "malformed request"@,
                ),
                Arrival::Request(req) => r == (if self.policy().permits(remote, req) {
                    routed(req)
                } else {
                    Route::Reject(ControlError::Denied)
                }),
            },
    {
        match arrival {
            Arrival::Limited => Route::Reject(ControlError::RateLimited),
            Arrival::TimedOut => Route::Reject(ControlError::Timeout),
            Arrival::Malformed => Route::Reject(
                ControlError::BadRequest("malformed request".to_owned()),
            ),
            Arrival::Request(req) => match self.authz.authorize(remote, &req) {
                Err(e) => Route::Reject(e),
                Ok(_) => match req {
                    Request::Subscribe { id } => Route::Subscribe { id },
                    Request::StdinStream { id } => Route::StdinStream { id },
                    Request::Stdin { id, data } => Route::Stdin { id, data },
                    other => Route::Dispatch(other),
                },
            },
        }
    }

    /// Consults the table about one authorized request.
    pub fn dispatch(&mut self, req: Request) -> (w: Work)
        requires
            old(self).wf(),
            !streams(req),
            req is Spawn ==> old(self).table().next < u64::MAX,
        ensures
            final(self).wf(),
            final(self).policy() == old(self).policy(),
            final(self).config() == old(self).config(),
            final(self).buckets() == old(self).buckets(),
            dispatched(old(self).table(), req, final(self).table(), w),
    {
        match req {
            Request::Spawn(spec) => {
                let id: Handle = self.procs.reserve();
                Work::Launch { id, spec }
            },
            Request::Query { id } => match self.procs.query(id) {
                Ok(info) => Work::Status(info),
                Err(e) => Work::Reply(Response::Error(e)),
            },
            Request::List => Work::List(self.procs.snapshot()),
            Request::Signal { id, sig } => match self.procs.signal(id, sig) {
                Ok(pid) => Work::Signal { pid, sig },
                Err(e) => Work::Reply(Response::Error(e)),
            },
            Request::Stop { id } => match self.procs.stop(id) {
                Ok(t) => Work::Stop(t),
                Err(e) => Work::Reply(Response::Error(e)),
            },
            Request::Forget { id } => match self.procs.forget(id) {
                Ok(effects) => Work::Forget(effects),
                Err(e) => Work::Reply(Response::Error(e)),
            },
            _ => vstd::pervasive::unreached(),
        }
    }

    /// Notes what came of launching a child under a handle that was handed out,
    /// and says what the client is told: never why a launch failed.
    pub fn launched<E>(&mut self, id: Handle, spec: &Spec, launched: Result<u32, E>) -> (r: (
        Response,
        Vec<Effect>,
    ))
        requires
            old(self).wf(),
            id <= old(self).table().next,
        ensures
            final(self).wf(),
            final(self).policy() == old(self).policy(),
            final(self).config() == old(self).config(),
            final(self).buckets() == old(self).buckets(),
            match launched {
                Ok(pid) => {
                    &&& r.0 == (Response::Spawned { id, pid })
                    &&& final(self).table() == old(self).table().spawned(id, pid)
                    &&& old(self).table().launch_effects(r.1@, id, *spec, pid)
                },
                Err(_) => {
                    &&& r.0 matches Response::Error(e) && e.spawn_failed(
                        "could not start process"@,
                    )
                    &&& final(self).table() == old(self).table()
                    &&& r.1@ == old(self).table().cleanup_effects(id)
                },
            },
    {
        let (r, effects) = self.procs.spawn(id, spec, launched);
        match r {
            Ok((id, pid)) => (Response::Spawned { id, pid }, effects),
            Err(_) => (
                Response::Error(ControlError::SpawnFailed("could not start process".to_owned())),
                effects,
            ),
        }
    }

    /// What a client that subscribes to a process's output is told first.
    pub fn subscribe(&self, id: Handle) -> (r: Response)
        ensures
            r == (if self.table().tracks(id) {
                Response::Ack
            } else {
                Response::Error(ControlError::NotFound(id))
            }),
    {
        reply(self.procs.subscribe(id))
    }
}

/// The reply to a request that either succeeds or fails, and says no more.
pub fn reply(r: Result<(), ControlError>) -> (resp: Response)
    ensures
        resp == (match r {
            Ok(_) => Response::Ack,
            Err(e) => Response::Error(e),
        }),
{
    match r {
        Ok(_) => Response::Ack,
        Err(e) => Response::Error(e),
    }
}

/// What comes of waiting for a process's output.
#[derive(Debug, Clone, Copy, PartialEq, Eq, Structural)]
pub enum OutputEvent {
    /// More output.
    Chunk,
    /// The end of the output: the process exited.
    Closed,
    /// The subscriber was too slow, and chunks were dropped.
    Lagged,
}

/// What to do for a subscriber.
#[derive(Debug, Clone, Copy, PartialEq, Eq, Structural)]
pub enum Relay {
    /// Send the chunk.
    Forward,
    /// Go on with the next.
    Skip,
    /// End the stream.
    Finish,
}

/// What to do for a subscriber. One that lags loses chunks, not the stream.
pub fn relay(event: OutputEvent) -> (r: Relay)
    ensures
        event == OutputEvent::Chunk ==> r == Relay::Forward,
        event == OutputEvent::Closed ==> r == Relay::Finish,
        event == OutputEvent::Lagged ==> r == Relay::Skip,
{
    match event {
        OutputEvent::Chunk => Relay::Forward,
        OutputEvent::Closed => Relay::Finish,
        OutputEvent::Lagged => Relay::Skip,
    }
}

/// A request that only looks changes nothing.
pub proof fn looking_changes_nothing(
    m: crate::process::Manager,
    req: Request,
    after: crate::process::Manager,
    w: Work,
)
    requires
        req.read_only(),
        dispatched(m, req, after, w),
    ensures
        after == m,
{
}

/// A client without control rights cannot change the table, whatever it asks for.
pub proof fn only_controllers_change_the_table(
    authz: Authz,
    remote: EndpointId,
    m: crate::process::Manager,
    req: Request,
    after: crate::process::Manager,
    w: Work,
)
    requires
        !authz.open,
        !authz.control@.contains(remote),
        authz.permits(remote, req),
        dispatched(m, req, after, w),
    ensures
        after == m,
{
}

/// A request about a process that is not tracked is answered with that, and
/// changes nothing.
pub proof fn unknown_handles_are_not_found(
    m: crate::process::Manager,
    req: Request,
    id: Handle,
    after: crate::process::Manager,
    w: Work,
)
    requires
        !m.tracks(id),
        req == (Request::Query { id }) || req == (Request::Stop { id }) || req == (Request::Forget {
            id,
        }) || (req matches Request::Signal { id: h, sig } && h == id),
        dispatched(m, req, after, w),
    ensures
        after == m,
        w == Work::Reply(Response::Error(ControlError::NotFound(id))),
{
}

} // verus!
