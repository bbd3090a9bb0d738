//! Messages on the wire, and what the two ends make of them.

use vstd::prelude::*;

use crate::client::{Refusal, Retry};
use crate::cli::Verdict;
use crate::config::ClientConfig;
use crate::proto::{ControlError, FrameError, Limits, Request, Response, RestartPolicy, Spec};
use crate::time::Duration;

verus! {

/// The number that four bytes stand for, the most significant first.
pub open spec fn big_endian(a: u8, b: u8, c: u8, d: u8) -> int {
    ((a * 256 + b) * 256 + c) * 256 + d
}

/// A header announces the payload's length; one over 65536 bytes is refused, and
/// nothing else is.
pub proof fn headers_announce_lengths(header: [u8; 4], r: Result<usize, FrameError>)
    requires
        call_ensures(crate::proto::frame_len, (&header,), r),
    ensures
        ({
            let n = big_endian(header@[0], header@[1], header@[2], header@[3]);
            &&& r is Ok <==> n <= 65536
            &&& r matches Ok(k) ==> k == n
            &&& r matches Err(e) ==> e is TooLarge
        }),
{
}

/// What is written is the payload behind four bytes that tell its length. A message
/// is written whenever it can be put into no more than 65536 bytes.
pub proof fn messages_are_framed<T, E: Fn(&T) -> Option<Vec<u8>>>(
    msg: T,
    encode: E,
    payload: Option<Vec<u8>>,
    r: Result<Vec<u8>, FrameError>,
)
    requires
        call_ensures(crate::proto::write_msg::<T, E>, (&msg, encode), r),
        forall|out: Option<Vec<u8>>| #[trigger]
            call_ensures(encode, (&msg,), out) ==> (out is Some <==> payload is Some) && (out
                matches Some(p) ==> p@ == payload->0@),
    ensures
        payload is None ==> r == Err::<Vec<u8>, FrameError>(FrameError::Encode),
        payload matches Some(p) ==> {
            &&& r is Ok <==> p@.len() <= 65536
            &&& r is Err ==> r->Err_0 == FrameError::TooLarge(p@.len() as usize)
            &&& r matches Ok(wire) ==> {
                &&& wire@.len() == 4 + p@.len()
                &&& wire@.skip(4) == p@
                &&& big_endian(wire@[0], wire@[1], wire@[2], wire@[3]) == p@.len()
            }
        },
{
    match r {
        Ok(wire) => {
            let q = choose|q: Seq<u8>| #[trigger]
                crate::proto::encodes_to(encode, msg, q) && q.len() <= crate::proto::MAX_FRAME
                    && wire@ == crate::proto::framed(q);
            let v = choose|v: Vec<u8>| v@ == q && #[trigger] call_ensures(encode, (&msg,), Some(v));
            crate::proto::framing_round_trips(q, Seq::empty());
            assert(wire@ + Seq::<u8>::empty() =~= wire@);
            assert(wire@.skip(4) =~= q) by {
                reveal(crate::proto::be32_bytes);
            }
            assert(crate::proto::be32(wire@) == q.len());
        },
        Err(FrameError::TooLarge(n)) => {
            let q = choose|q: Seq<u8>| #[trigger]
                crate::proto::encodes_to(encode, msg, q) && q.len() == n && n
                    > crate::proto::MAX_FRAME;
            let v = choose|v: Vec<u8>| v@ == q && #[trigger] call_ensures(encode, (&msg,), Some(v));
        },
        Err(_) => {
            assert(call_ensures(encode, (&msg,), None::<Vec<u8>>));
        },
    }
}

/// A message is read from as many bytes as its header tells, whatever follows them.
pub proof fn frames_are_read<T, D: Fn(&[u8]) -> Option<T>>(
    input: &[u8],
    decode: D,
    msg: Option<T>,
    r: Result<T, FrameError>,
)
    requires
        call_ensures(crate::proto::read_msg::<T, D>, (input, decode), r),
        input@.len() >= 4,
        forall|p: &[u8], out: Option<T>|
            p@ == input@.subrange(
                4,
                4 + big_endian(input@[0], input@[1], input@[2], input@[3]),
            ) && #[trigger] call_ensures(decode, (p,), out) ==> out == msg,
    ensures
        ({
            let n = big_endian(input@[0], input@[1], input@[2], input@[3]);
            &&& n > 65536 ==> r is Err && r->Err_0 is TooLarge
            &&& n <= 65536 && input@.len() < 4 + n ==> r == Err::<T, FrameError>(
                FrameError::Truncated,
            )
            &&& n <= 65536 && input@.len() >= 4 + n ==> {
                &&& msg matches Some(m) ==> r == Ok::<T, FrameError>(m)
                &&& msg is None ==> r == Err::<T, FrameError>(FrameError::Decode)
            }
        }),
{
    let n = big_endian(input@[0], input@[1], input@[2], input@[3]);
    assert(crate::proto::be32(input@) == n);
    if n <= 65536 && input@.len() >= 4 + n {
        let payload = input@.subrange(4, 4 + n);
        match r {
            Ok(m) => {
                assert(crate::proto::decodes_to(decode, payload, Some(m)));
                let p = choose|p: &[u8]|
                    p@ == payload && #[trigger] call_ensures(decode, (p,), Some(m));
            },
            Err(_) => {
                assert(crate::proto::decodes_to(decode, payload, None));
                let p = choose|p: &[u8]|
                    p@ == payload && #[trigger] call_ensures(decode, (p,), None::<T>);
            },
        }
    }
}

/// What is shorter than a header is no message.
pub proof fn short_frames_are_truncated<T, D: Fn(&[u8]) -> Option<T>>(
    input: &[u8],
    decode: D,
    r: Result<T, FrameError>,
)
    requires
        call_ensures(crate::proto::read_msg::<T, D>, (input, decode), r),
        input@.len() < 4,
    ensures
        r == Err::<T, FrameError>(FrameError::Truncated),
{
}

/// Reading gives back what was written, whatever follows it, by a codec that reads
/// back.
pub proof fn what_is_written_is_read<
    T,
    E: Fn(&T) -> Option<Vec<u8>>,
    D: Fn(&[u8]) -> Option<T>,
>(
    msg: T,
    encode: E,
    decode: D,
    wire: Vec<u8>,
    input: &[u8],
    rest: Seq<u8>,
    r: Result<T, FrameError>,
)
    requires
        call_ensures(crate::proto::write_msg::<T, E>, (&msg, encode), Ok(wire)),
        input@ == wire@ + rest,
        call_ensures(crate::proto::read_msg::<T, D>, (input, decode), r),
        crate::proto::reads_back(encode, decode, msg),
    ensures
        r == Ok::<T, FrameError>(msg),
{
    crate::proto::messages_round_trip(encode, decode, msg, wire, rest, r);
}

/// Unless a client says otherwise a child is not capped, not restarted and not
/// isolated.
pub proof fn defaults_ask_for_nothing(l: Limits, p: RestartPolicy, s: Spec)
    requires
        call_ensures(<Limits as Default>::default, (), l),
        call_ensures(<RestartPolicy as Default>::default, (), p),
        call_ensures(<Spec as Default>::default, (), s),
    ensures
        l.memory is None && l.pids is None && l.cpu is None,
        p is Never,
        s.cmd@.len() == 0 && s.args@.len() == 0 && s.env@.len() == 0,
        s.limits == l,
        s.policy is Never,
        s.max_retries == 0,
        !s.isolate,
{
}

/// An operation is tried as often as is configured, and at least once: each failure
/// but the last is followed by a wait, the first by the base delay, each further one
/// by twice the wait before, but none by more than the longest.
pub proof fn retries_double_their_waits(
    cfg: ClientConfig,
    start: Retry,
    a: &mut Retry,
    b: &mut Retry,
    first: &mut Retry,
    w0: Option<Duration>,
    w1: Option<Duration>,
    w2: Option<Duration>,
)
    requires
        call_ensures(Retry::with_retry, (&cfg,), start),
        *old(first) == start,
        call_ensures(Retry::failed, (first,), w0),
        old(a).wf(),
        old(a).config() == cfg,
        call_ensures(Retry::failed, (a,), w1),
        *old(b) == *final(a),
        call_ensures(Retry::failed, (b,), w2),
    ensures
        start.attempt() == 1,
        start.config() == cfg,
        final(a).config() == cfg,
        w0 is Some <==> cfg.max_retries >= 2,
        w0 matches Some(d) ==> d.nanos == if cfg.retry_base_delay.nanos
            <= cfg.retry_max_delay.nanos {
            cfg.retry_base_delay.nanos
        } else {
            cfg.retry_max_delay.nanos
        },
        w1 is Some <==> old(a).attempt() < cfg.max_retries,
        w1 is Some ==> final(a).attempt() == old(a).attempt() + 1,
        w1 is None ==> w2 is None,
        w1 is Some && w2 is Some ==> w2->0.nanos == if 2 * w1->0.nanos
            <= cfg.retry_max_delay.nanos {
            2 * w1->0.nanos
        } else {
            cfg.retry_max_delay.nanos as int
        },
        w1 matches Some(d) ==> d.nanos <= cfg.retry_max_delay.nanos,
{
    crate::client::delays_are_bounded(cfg, 1);
    Retry::lemma_attempts(*old(a));
    crate::client::lemma_delay_doubles(cfg, old(a).attempt());
}

/// A stream begins with an acknowledgement; an error of the supervisor is final, and
/// anything else is no answer.
pub proof fn only_acknowledgements_will_do(resp: Response, r: Result<(), Refusal>)
    requires
        call_ensures(crate::client::acknowledged, (resp,), r),
    ensures
        r is Ok <==> resp is Ack,
        resp matches Response::Error(e) ==> r is Err && r->Err_0 is Rejected && (
        r->Err_0)->Rejected_0 == e,
        !(resp is Ack) && !(resp is Error) ==> r is Err && r->Err_0 is Unexpected && (
        r->Err_0)->Unexpected_0 == resp,
{
}

/// A client that waited in vain is told for what.
pub proof fn timeouts_name_what_was_awaited(what: &str, m: String)
    requires
        call_ensures(crate::client::timed_out, (what,), m),
    ensures
        m@.len() == 22 + what@.len(),
        m@.take(22) == "timed out waiting for "@,
        m@.skip(22) == what@,
{
    reveal_strlit("timed out waiting for ");
    assert(m@.take(22) =~= "timed out waiting for "@);
    assert(m@.skip(22) =~= what@);
}

/// A command takes the reply that its request asks for: a handle for a spawn, a list
/// for a listing, a status for a query and an acknowledgement for the rest. An error
/// is a failure whatever was asked, and nothing is taken for what it is not.
pub proof fn replies_are_judged_by_the_request(req: Request, resp: Response, v: Verdict)
    requires
        call_ensures(crate::cli::judge, (&req, resp), v),
    ensures
        v is Done <==> {
            ||| req is Spawn && resp is Spawned
            ||| req is List && resp is List
            ||| req is Query && resp is Status
            ||| !(req is Spawn || req is List || req is Query) && resp is Ack
        },
        v is Failed <==> resp is Error,
        v matches Verdict::Done(r) ==> r == resp,
        v matches Verdict::Failed(e) ==> resp->Error_0 == e,
        v matches Verdict::Unexpected(r) ==> r == resp,
{
}

} // verus!
