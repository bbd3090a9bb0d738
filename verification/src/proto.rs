//! The control plane's messages and their framing.

use vstd::prelude::*;

verus! {

/// The control plane's protocol name. The trailing number is the version:
/// mismatches fail at the handshake.
pub const CONTROL_ALPN: &'static str = "/supervisor/control/1";

/// The most bytes that one framed message may hold.
pub const MAX_FRAME: usize = 65536;

/// An id local to one supervisor. Mesh-wide, a process is a node and a handle.
pub type Handle = u64;

/// Per-process resource caps. `None` = unlimited.
#[derive(Debug, Clone, Copy, PartialEq)]
pub struct Limits {
    /// Most memory in bytes.
    pub memory: Option<u64>,
    /// Most processes and threads in the job.
    pub pids: Option<u64>,
    /// Most total CPU time in seconds.
    pub cpu: Option<u64>,
}

impl Default for Limits {
    fn default() -> (l: Limits)
        ensures
            l == (Limits { memory: None, pids: None, cpu: None }),
    {
        Limits { memory: None, pids: None, cpu: None }
    }
}

/// When the supervisor relaunches a child after it exits.
#[derive(Debug, Clone, Copy, PartialEq, Eq, Structural)]
pub enum RestartPolicy {
    /// Never relaunch.
    Never,
    /// Relaunch only on a non-zero exit or death by signal.
    OnFailure,
    /// Relaunch on any exit, a clean one too.
    Always,
}

impl Default for RestartPolicy {
    fn default() -> (p: RestartPolicy)
        ensures
            p == RestartPolicy::Never,
    {
        RestartPolicy::Never
    }
}

/// Everything needed to launch, and relaunch, a child.
#[derive(Debug, Clone, PartialEq)]
pub struct Spec {
    pub cmd: String,
    pub args: Vec<String>,
    pub env: Vec<(String, String)>,
    pub limits: Limits,
    pub policy: RestartPolicy,
    /// Consecutive fast restarts allowed before giving up; `0` = unlimited.
    pub max_retries: u32,
    /// Run the child in fresh namespaces.
    pub isolate: bool,
}

impl Default for Spec {
    fn default() -> (s: Spec)
        ensures
            s.cmd@ == Seq::<char>::empty(),
            s.args@ == Seq::<String>::empty(),
            s.env@ == Seq::<(String, String)>::empty(),
            s.limits == (Limits { memory: None, pids: None, cpu: None }),
            s.policy == RestartPolicy::Never,
            s.max_retries == 0,
            !s.isolate,
    {
        Spec {
            cmd: String::new(),
            args: Vec::new(),
            env: Vec::new(),
            limits: Limits::default(),
            policy: RestartPolicy::default(),
            max_retries: 0,
            isolate: false,
        }
    }
}

/// A control request from a client.
#[derive(Debug, Clone, PartialEq)]
pub enum Request {
    Spawn(Spec),
    Signal { id: Handle, sig: i32 },
    /// Stop a process and disarm its restart policy (intentional, unlike a crash).
    Stop { id: Handle },
    /// Write one chunk of bytes to a process's standard input.
    Stdin { id: Handle, data: Vec<u8> },
    Query { id: Handle },
    Subscribe { id: Handle },
    Forget { id: Handle },
    List,
    /// Copy the rest of the request stream to a process's standard input.
    StdinStream { id: Handle },
}

impl Request {
    pub open spec fn read_only(self) -> bool {
        self is List || self is Query || self is Subscribe
    }

    /// Whether the request only looks: it changes no process. The rest require
    /// control rights.
    pub fn is_read_only(&self) -> (r: bool)
        ensures
            r == self.read_only(),
    {
        match self {
            Request::List => true,
            Request::Query { .. } => true,
            Request::Subscribe { .. } => true,
            _ => false,
        }
    }
}

/// Lifecycle state of a tracked process.
#[derive(Debug, Clone, Copy, PartialEq, Eq, Structural)]
pub enum ProcState {
    Running,
    /// The exit code; `None` = killed by a signal.
    Exited(Option<i32>),
    /// Reloaded from the store after a supervisor restart; the child is gone.
    Stale,
}

/// A child's resource usage: raw counters, not rates.
#[derive(Debug, Clone, Copy, PartialEq)]
pub struct Usage {
    /// Memory in use now.
    pub mem_bytes: u64,
    /// CPU time used so far.
    pub cpu_usec: u64,
}

/// A snapshot of one process.
#[derive(Debug, Clone, Copy, PartialEq)]
pub struct ProcInfo {
    pub handle: Handle,
    pub pid: u32,
    pub state: ProcState,
    /// `None` when it is not running or the host has no cgroup for it.
    pub usage: Option<Usage>,
    /// How often the supervisor has relaunched this handle.
    pub restarts: u32,
}

/// A control response from the supervisor.
#[derive(Debug, Clone, PartialEq)]
pub enum Response {
    Spawned { id: Handle, pid: u32 },
    Ack,
    Status(ProcInfo),
    List(Vec<ProcInfo>),
    Error(ControlError),
}

/// A control-plane error, carried inside `Response::Error`.
#[derive(Debug, Clone, PartialEq)]
pub enum ControlError {
    NotFound(Handle),
    Denied,
    /// Too many requests from this peer; back off.
    RateLimited,
    SpawnFailed(String),
    BadRequest(String),
    /// The client was too slow to send its request.
    Timeout,
}

impl ControlError {
    /// Whether this is a bad request with the message `text`.
    pub open spec fn bad_request(self, text: Seq<char>) -> bool {
        self matches ControlError::BadRequest(m) && m@ == text
    }

    /// Whether this is a failed spawn with the message `text`.
    pub open spec fn spawn_failed(self, text: Seq<char>) -> bool {
        self matches ControlError::SpawnFailed(m) && m@ == text
    }
}

/// Why a message could not be framed or read.
#[derive(Debug, Clone, Copy, PartialEq, Eq, Structural)]
pub enum FrameError {
    /// The message cannot be put into bytes.
    Encode,
    /// The payload would be this long, which is over the cap.
    TooLarge(usize),
    /// The stream ended inside the frame.
    Truncated,
    /// The payload is not such a message.
    Decode,
}

/// The number that four bytes stand for, most significant first.
pub open spec fn be32(b: Seq<u8>) -> nat {
    (b[0] * 16777216 + b[1] * 65536 + b[2] * 256 + b[3]) as nat
}

/// The four bytes of `n`, most significant first.
#[verifier::opaque]
pub open spec fn be32_bytes(n: nat) -> Seq<u8> {
    seq![
        (n / 16777216 % 256) as u8,
        (n / 65536 % 256) as u8,
        (n / 256 % 256) as u8,
        (n % 256) as u8,
    ]
}

/// A frame: the payload's length in four bytes, then the payload.
pub open spec fn framed(payload: Seq<u8>) -> Seq<u8> {
    be32_bytes(payload.len()) + payload
}

/// What the frame at the front of `input` holds.
pub open spec fn unframed(input: Seq<u8>) -> Result<Seq<u8>, FrameError> {
    if input.len() < 4 {
        Err(FrameError::Truncated)
    } else if be32(input) > MAX_FRAME {
        Err(FrameError::TooLarge(be32(input) as usize))
    } else if input.len() < 4 + be32(input) {
        Err(FrameError::Truncated)
    } else {
        Ok(input.subrange(4, (4 + be32(input)) as int))
    }
}

/// The payload length that a frame's first four bytes announce; an error if it
/// is over the cap.
pub fn frame_len(header: &[u8; 4]) -> (r: Result<usize, FrameError>)
    ensures
        r == (if be32(header@) > MAX_FRAME {
            Err::<usize, FrameError>(FrameError::TooLarge(be32(header@) as usize))
        } else {
            Ok(be32(header@) as usize)
        }),
        r matches Ok(n) ==> n <= MAX_FRAME,
{
    let n: u32 = header[0] as u32 * 16777216 + header[1] as u32 * 65536 + header[2] as u32 * 256
        + header[3] as u32;
    let len: usize = n as usize;
    if len > MAX_FRAME {
        Err(FrameError::TooLarge(len))
    } else {
        Ok(len)
    }
}

/// Whether `encode` may put `msg` into these bytes.
pub open spec fn encodes_to<T, E: Fn(&T) -> Option<Vec<u8>>>(
    encode: E,
    msg: T,
    bytes: Seq<u8>,
) -> bool {
    exists|p: Vec<u8>| p@ == bytes && #[trigger] call_ensures(encode, (&msg,), Some(p))
}

/// Whether `write_msg` may answer `r`: the frame of the message's bytes, if there
/// are any and they are within the cap.
pub open spec fn writes_to<T, E: Fn(&T) -> Option<Vec<u8>>>(
    encode: E,
    msg: T,
    r: Result<Vec<u8>, FrameError>,
) -> bool {
    match r {
        Ok(wire) => exists|p: Seq<u8>| #[trigger]
            encodes_to(encode, msg, p) && p.len() <= MAX_FRAME && wire@ == framed(p),
        Err(FrameError::TooLarge(n)) => exists|p: Seq<u8>| #[trigger]
            encodes_to(encode, msg, p) && p.len() == n && n > MAX_FRAME,
        Err(e) => e == FrameError::Encode && call_ensures(encode, (&msg,), None),
    }
}

/// Puts `msg` into bytes with `encode` and frames them: the single framing for
/// every request and response.
pub fn write_msg<T, E: Fn(&T) -> Option<Vec<u8>>>(msg: &T, encode: E) -> (r: Result<
    Vec<u8>,
    FrameError,
>)
    requires
        call_requires(encode, (msg,)),
    ensures
        writes_to(encode, *msg, r),
{
    match encode(msg) {
        None => Err(FrameError::Encode),
        Some(payload) => {
            let n: usize = payload.len();
            assert(encodes_to(encode, *msg, payload@));
            if n > MAX_FRAME {
                return Err(FrameError::TooLarge(n));
            }
            let mut wire: Vec<u8> = Vec::new();
            wire.push((n / 16777216 % 256) as u8);
            wire.push((n / 65536 % 256) as u8);
            wire.push((n / 256 % 256) as u8);
            wire.push((n % 256) as u8);
            wire.extend_from_slice(payload.as_slice());
            proof {
                reveal(be32_bytes);
            }
            assert(wire@ =~= framed(payload@));
            Ok(wire)
        },
    }
}

/// Whether `decode` may hand back `out` for these bytes.
pub open spec fn decodes_to<T, D: Fn(&[u8]) -> Option<T>>(
    decode: D,
    bytes: Seq<u8>,
    out: Option<T>,
) -> bool {
    exists|p: &[u8]| p@ == bytes && #[trigger] call_ensures(decode, (p,), out)
}

/// Whether `read_msg` may answer `r`: what the payload of the frame at the front of
/// `input` is decoded to, or why there is none.
pub open spec fn reads_to<T, D: Fn(&[u8]) -> Option<T>>(
    decode: D,
    input: Seq<u8>,
    r: Result<T, FrameError>,
) -> bool {
    match unframed(input) {
        Err(e) => r is Err && r->Err_0 == e,
        Ok(payload) => match r {
            Ok(msg) => decodes_to(decode, payload, Some(msg)),
            Err(e) => e == FrameError::Decode && decodes_to(decode, payload, None),
        },
    }
}

/// Whether reading back what `encode` makes of `msg` can only give `msg`.
pub open spec fn reads_back<
    T,
    E: Fn(&T) -> Option<Vec<u8>>,
    D: Fn(&[u8]) -> Option<T>,
>(encode: E, decode: D, msg: T) -> bool {
    forall|bytes: Seq<u8>, out: Option<T>|
        #![trigger encodes_to(encode, msg, bytes), decodes_to(decode, bytes, out)]
        encodes_to(encode, msg, bytes) && decodes_to(decode, bytes, out) ==> out == Some(msg)
}

/// Reads the frame at the front of `input` and turns its payload into a message
/// with `decode`.
pub fn read_msg<T, D: Fn(&[u8]) -> Option<T>>(input: &[u8], decode: D) -> (r: Result<T, FrameError>)
    requires
        forall|p: &[u8]| #[trigger] call_requires(decode, (p,)),
    ensures
        reads_to(decode, input@, r),
{
    if input.len() < 4 {
        return Err(FrameError::Truncated);
    }
    let header: [u8; 4] = [input[0], input[1], input[2], input[3]];
    assert(be32(header@) == be32(input@));
    match frame_len(&header) {
        Err(e) => Err(e),
        Ok(n) => {
            if input.len() - 4 < n {
                return Err(FrameError::Truncated);
            }
            let payload = vstd::slice::slice_subrange(input, 4, 4 + n);
            assert(unframed(input@) == Ok::<Seq<u8>, FrameError>(payload@));
            match decode(payload) {
                Some(msg) => {
                    assert(decodes_to(decode, payload@, Some(msg)));
                    Ok(msg)
                },
                None => {
                    assert(decodes_to(decode, payload@, None));
                    Err(FrameError::Decode)
                },
            }
        },
    }
}

/// Reading undoes framing: whatever follows a frame on the stream, the frame at
/// its front gives back the payload that was framed.
pub proof fn framing_round_trips(payload: Seq<u8>, rest: Seq<u8>)
    requires
        payload.len() <= MAX_FRAME,
    ensures
        unframed(framed(payload) + rest) == Ok::<Seq<u8>, FrameError>(payload),
        be32(framed(payload) + rest) == payload.len(),
        framed(payload).len() == 4 + payload.len(),
{
    reveal(be32_bytes);
    let n = payload.len();
    let wire = framed(payload) + rest;
    assert(wire.subrange(0, 4) =~= be32_bytes(n));
    assert(wire[0] == be32_bytes(n)[0] && wire[1] == be32_bytes(n)[1] && wire[2] == be32_bytes(n)[2]
        && wire[3] == be32_bytes(n)[3]);
    assert(be32(wire) == n);
    assert(wire.subrange(4, (4 + n) as int) =~= payload);
}

/// A message that is written is read: whatever follows it on the stream, the reader
/// gets the very message, by a codec that reads back. The header announces what
/// follows it, within the cap.
pub proof fn messages_round_trip<
    T,
    E: Fn(&T) -> Option<Vec<u8>>,
    D: Fn(&[u8]) -> Option<T>,
>(
    encode: E,
    decode: D,
    msg: T,
    wire: Vec<u8>,
    rest: Seq<u8>,
    r: Result<T, FrameError>,
)
    requires
        reads_back(encode, decode, msg),
        writes_to(encode, msg, Ok(wire)),
        reads_to(decode, wire@ + rest, r),
    ensures
        r == Ok::<T, FrameError>(msg),
        be32(wire@ + rest) == wire@.len() - 4,
        wire@.len() <= 4 + MAX_FRAME,
{
    let p = choose|p: Seq<u8>| #[trigger]
        encodes_to(encode, msg, p) && p.len() <= MAX_FRAME && wire@ == framed(p);
    framing_round_trips(p, rest);
    lemma_payload_is_read(encode, decode, msg, p, wire@ + rest, r);
}

/// A payload that holds `msg` is read as `msg`.
proof fn lemma_payload_is_read<T, E: Fn(&T) -> Option<Vec<u8>>, D: Fn(&[u8]) -> Option<T>>(
    encode: E,
    decode: D,
    msg: T,
    payload: Seq<u8>,
    input: Seq<u8>,
    r: Result<T, FrameError>,
)
    requires
        reads_back(encode, decode, msg),
        encodes_to(encode, msg, payload),
        unframed(input) == Ok::<Seq<u8>, FrameError>(payload),
        reads_to(decode, input, r),
    ensures
        r == Ok::<T, FrameError>(msg),
{
    match r {
        Ok(m) => {
            assert(decodes_to(decode, payload, Some(m)));
        },
        Err(_) => {
            assert(decodes_to(decode, payload, None));
        },
    }
}

/// A header that announces more than the cap is refused before anything of the
/// payload is looked at, and one that announces exactly the cap is not.
pub proof fn oversized_frames_are_refused<T, D: Fn(&[u8]) -> Option<T>>(
    decode: D,
    input: Seq<u8>,
    r: Result<T, FrameError>,
)
    requires
        input.len() >= 4,
        reads_to(decode, input, r),
    ensures
        be32(input) > MAX_FRAME ==> r == Err::<T, FrameError>(
            FrameError::TooLarge(be32(input) as usize),
        ),
        be32(input) <= MAX_FRAME ==> !(r matches Err(FrameError::TooLarge(_))),
{
}

} // verus!
