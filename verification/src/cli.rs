//! The command line: memory sizes, the spawn request and the authorization posture
//! that the flags describe, and what a command makes of a supervisor's reply.

use vstd::prelude::*;

use crate::id::EndpointId;
use crate::proto::{ControlError, Limits, Request, Response, RestartPolicy, Spec, Usage};
use crate::supervisor::{is_member, Authz};
use crate::text::{chars_of, decimal_string, parse_u64, quoted, same_text, string_of, trim};

verus! {

/// What one unit of a memory size is worth, by its last character.
pub open spec fn size_unit(last: char) -> Option<nat> {
    if last == 'K' || last == 'k' {
        Some(1024)
    } else if last == 'M' || last == 'm' {
        Some(1024 * 1024)
    } else if last == 'G' || last == 'g' {
        Some(1024 * 1024 * 1024)
    } else {
        None
    }
}

/// The number in front of the unit, and what the unit is worth.
pub open spec fn size_parts(t: Seq<char>) -> (Seq<char>, nat) {
    if t.len() > 0 && size_unit(t.last()) is Some {
        (crate::text::trimmed(t.drop_last()), size_unit(t.last())->0)
    } else {
        (crate::text::trimmed(t), 1)
    }
}

/// Parses a memory size with an optional K, M or G behind it, such as `256M`,
/// into bytes.
pub fn parse_size(s: &str) -> (r: Result<u64, String>)
    ensures
        ({
            let t = crate::text::trimmed(s@);
            let (num, unit) = size_parts(t);
            match crate::text::parsed_u64(num) {
                None => r matches Err(m) && m@ == "invalid size "@ + crate::text::debug_form(t)
                    + ": "@ + crate::text::parse_error_text(num),
                Some(n) => if n * unit <= u64::MAX {
                    r matches Ok(bytes) && bytes == n * unit
                } else {
                    r matches Err(m) && m@ == "size "@ + crate::text::debug_form(t)
                        + " overflows u64"@
                },
            }
        }),
{
    let all = chars_of(s);
    let t = trim(all.as_slice());
    let n: usize = t.len();
    let unit: u64 = if n == 0 {
        1
    } else {
        match t[n - 1] {
            'K' | 'k' => 1024,
            'M' | 'm' => 1048576,
            'G' | 'g' => 1073741824,
            _ => 1,
        }
    };
    let head = if unit != 1 {
        vstd::slice::slice_subrange(t, 0, n - 1)
    } else {
        t
    };
    proof {
        if unit != 1 {
            assert(head@ =~= t@.drop_last());
        }
    }
    let num = trim(head);
    assert(size_parts(t@) == (num@, unit as nat));
    let text = string_of(num);
    let whole = string_of(t);
    match parse_u64(text.as_str()) {
        Err(e) => {
            let mut m = String::new();
            m.append("invalid size ");
            m.append(quoted(whole.as_str()).as_str());
            m.append(": ");
            m.append(e.as_str());
            assert(m@ =~= "invalid size "@ + crate::text::debug_form(t@) + ": "@
                + crate::text::parse_error_text(num@));
            Err(m)
        },
        Ok(v) => match v.checked_mul(unit) {
            Some(bytes) => Ok(bytes),
            None => {
                let mut m = String::new();
                m.append("size ");
                m.append(quoted(whole.as_str()).as_str());
                m.append(" overflows u64");
                assert(m@ =~= "size "@ + crate::text::debug_form(t@) + " overflows u64"@);
                Err(m)
            },
        },
    }
}

/// A process's memory in whole mebibytes, or `-` where none is known.
pub fn mem_str(usage: Option<Usage>) -> (s: String)
    ensures
        s@ == (match usage {
            Some(u) => crate::text::decimal((u.mem_bytes / 1_048_576) as nat) + "MiB"@,
            None => "-"@,
        }),
{
    match usage {
        None => "-".to_owned(),
        Some(u) => {
            let mut s = decimal_string(u.mem_bytes / 1_048_576);
            s.append("MiB");
            s
        },
    }
}

/// Whether the list holds each of these ids once, and nothing else.
pub open spec fn each_once(list: Seq<EndpointId>, ids: Seq<EndpointId>) -> bool {
    &&& list.no_duplicates()
    &&& forall|id: EndpointId| #[trigger] list.contains(id) <==> ids.contains(id)
}

/// Each id once.
pub fn distinct(ids: &Vec<EndpointId>) -> (list: Vec<EndpointId>)
    ensures
        each_once(list@, ids@),
{
    let mut list: Vec<EndpointId> = Vec::new();
    let mut i: usize = 0;
    assert(ids@.take(0) =~= Seq::<EndpointId>::empty());
    while i < ids.len()
        invariant
            i <= ids@.len(),
            each_once(list@, ids@.take(i as int)),
        decreases ids@.len() - i,
    {
        let id = ids[i];
        let ghost before = list@;
        let ghost seen = ids@.take(i as int);
        if !is_member(&list, &id) {
            list.push(id);
        }
        proof {
            let now = list@;
            let taken = ids@.take(i + 1);
            assert(taken =~= seen.push(id));
            assert forall|q: EndpointId| #[trigger] now.contains(q) <==> taken.contains(q) by {
                if now.contains(q) {
                    if before.contains(q) {
                        assert(seen.contains(q));
                        let j = choose|j: int| 0 <= j < seen.len() && seen[j] == q;
                        assert(taken[j] == q);
                    } else {
                        let j = choose|j: int| 0 <= j < now.len() && now[j] == q;
                        if j < before.len() {
                            assert(before[j] == q);
                        }
                        assert(q == id);
                        assert(taken[i as int] == q);
                    }
                }
                if taken.contains(q) {
                    let j = choose|j: int| 0 <= j < taken.len() && taken[j] == q;
                    if j < i {
                        assert(seen[j] == q);
                        assert(before.contains(q));
                    }
                    if before.contains(q) {
                        let k = choose|k: int| 0 <= k < before.len() && before[k] == q;
                        assert(now[k] == q);
                    } else {
                        assert(now.last() == id);
                    }
                }
            }
            assert(now.no_duplicates()) by {
                if now.len() > before.len() {
                    assert forall|a: int, b: int| 0 <= a < now.len() && 0 <= b < now.len() && a
                        != b implies now[a] != now[b] by {
                        if a == before.len() {
                            assert(before[b] == now[b]);
                            assert(before.contains(now[b]));
                        } else if b == before.len() {
                            assert(before[a] == now[a]);
                            assert(before.contains(now[a]));
                        }
                    }
                }
            }
        }
        i = i + 1;
    }
    assert(ids@.take(ids@.len() as int) =~= ids@);
    list
}

/// The authorization posture that the flags describe. The operator has to choose
/// one: nothing is ever silently open.
pub fn authz_from_flags(open: bool, allow: &Vec<EndpointId>, allow_read: &Vec<EndpointId>) -> (r:
    Result<Authz, String>)
    ensures
        match r {
            Ok(a) => {
                &&& open || allow@.len() > 0 || allow_read@.len() > 0
                &&& a.open == open
                &&& each_once(a.control@, allow@)
                &&& each_once(a.read@, allow_read@)
            },
            Err(m) => !open && allow@.len() == 0 && allow_read@.len() == 0 && m@
                == "no authorization configured: pass --allow <id>... / --allow-read <id>..., or --open to accept all clients"@,
        },
{
    if !open && allow.len() == 0 && allow_read.len() == 0 {
        return Err(
            "no authorization configured: pass --allow <id>... / --allow-read <id>..., or --open to accept all clients".to_owned(),
        );
    }
    Ok(Authz { open, control: distinct(allow), read: distinct(allow_read) })
}

/// To whom an open supervisor is open.
pub fn open_scope(relayed: bool) -> (s: String)
    ensures
        s@ == (if relayed {
            "anyone on the internet who knows this id"@
        } else {
            "anyone who can reach this supervisor"@
        }),
{
    if relayed {
        "anyone on the internet who knows this id".to_owned()
    } else {
        "anyone who can reach this supervisor".to_owned()
    }
}

/// The restart policy of this name; a process is not restarted under any other.
pub open spec fn policy_named(name: Option<Seq<char>>) -> RestartPolicy {
    match name {
        Some(n) => if n == "on-failure"@ {
            RestartPolicy::OnFailure
        } else if n == "always"@ {
            RestartPolicy::Always
        } else {
            RestartPolicy::Never
        },
        None => RestartPolicy::Never,
    }
}

/// The restart policy of this name; a process is not restarted under any other.
pub fn restart_policy(name: Option<&str>) -> (p: RestartPolicy)
    ensures
        p == policy_named(
            match name {
                Some(n) => Some(n@),
                None => None,
            },
        ),
{
    match name {
        None => RestartPolicy::Never,
        Some(n) => {
            let given = chars_of(n);
            let on_failure = chars_of("on-failure");
            let always = chars_of("always");
            if same_text(given.as_slice(), on_failure.as_slice()) {
                RestartPolicy::OnFailure
            } else if same_text(given.as_slice(), always.as_slice()) {
                RestartPolicy::Always
            } else {
                RestartPolicy::Never
            }
        },
    }
}

/// The spawn request that the flags describe: the first word is the command, the
/// others its arguments. No environment is passed.
pub fn spec_from_args(
    argv: &Vec<String>,
    limits: Limits,
    restart: Option<&str>,
    max_retries: u32,
    isolate: bool,
) -> (s: Spec)
    requires
        argv@.len() > 0,
    ensures
        s.cmd == argv@[0],
        s.args@ == argv@.skip(1),
        s.env@.len() == 0,
        s.limits == limits,
        s.policy == policy_named(
            match restart {
                Some(n) => Some(n@),
                None => None,
            },
        ),
        s.max_retries == max_retries,
        s.isolate == isolate,
{
    let mut args: Vec<String> = Vec::new();
    let mut i: usize = 1;
    while i < argv.len()
        invariant
            1 <= i <= argv@.len(),
            args@ == argv@.subrange(1, i as int),
        decreases argv@.len() - i,
    {
        args.push(argv[i].clone());
        i = i + 1;
        assert(argv@.subrange(1, i as int) =~= argv@.subrange(1, i - 1).push(argv@[i - 1]));
    }
    assert(args@ =~= argv@.skip(1));
    Spec {
        cmd: argv[0].clone(),
        args,
        env: Vec::new(),
        limits,
        policy: restart_policy(restart),
        max_retries,
        isolate,
    }
}

/// What a command makes of a reply.
#[derive(Debug)]
pub enum Verdict {
    /// It is the reply that the request asks for.
    Done(Response),
    /// The request failed.
    Failed(ControlError),
    /// It is a reply to something else.
    Unexpected(Response),
}

/// Whether a reply is of the kind that a request asks for.
pub open spec fn answers(req: Request, resp: Response) -> bool {
    match req {
        Request::Spawn(_) => resp is Spawned,
        Request::List => resp is List,
        Request::Query { .. } => resp is Status,
        _ => resp is Ack,
    }
}

/// What a command makes of the reply to its request.
pub fn judge(req: &Request, resp: Response) -> (v: Verdict)
    ensures
        v == (if answers(*req, resp) {
            Verdict::Done(resp)
        } else {
            match resp {
                Response::Error(e) => Verdict::Failed(e),
                other => Verdict::Unexpected(other),
            }
        }),
{
    let fits = match (req, &resp) {
        (Request::Spawn(_), Response::Spawned { .. }) => true,
        (Request::Spawn(_), _) => false,
        (Request::List, Response::List(_)) => true,
        (Request::List, _) => false,
        (Request::Query { .. }, Response::Status(_)) => true,
        (Request::Query { .. }, _) => false,
        (_, Response::Ack) => true,
        _ => false,
    };
    if fits {
        Verdict::Done(resp)
    } else {
        match resp {
            Response::Error(e) => Verdict::Failed(e),
            other => Verdict::Unexpected(other),
        }
    }
}

} // verus!
