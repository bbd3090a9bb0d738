//! The client side: how often and after which delays a connection is tried, and
//! what a supervisor's reply means.

use vstd::prelude::*;

use crate::config::ClientConfig;
use crate::proto::{ControlError, Response};
use crate::time::Duration;

verus! {

/// How many attempts are made: at least one, whatever is configured.
pub open spec fn attempts_allowed(cfg: ClientConfig) -> nat {
    if cfg.max_retries >= 1 {
        cfg.max_retries as nat
    } else {
        1
    }
}

/// The delay after the `n`-th failed attempt: the base delay, doubled with every
/// further failure, but never more than the longest.
pub open spec fn retry_delay(cfg: ClientConfig, n: nat) -> Duration {
    let doubled = cfg.retry_base_delay.nanos * crate::time::two_to((n - 1) as nat);
    if doubled <= cfg.retry_max_delay.nanos {
        Duration { nanos: doubled as u128 }
    } else {
        cfg.retry_max_delay
    }
}

/// How long to wait if the `n`-th attempt fails; `None` if it is the last.
pub open spec fn next_wait(cfg: ClientConfig, n: nat) -> Option<Duration> {
    if n < attempts_allowed(cfg) {
        Some(retry_delay(cfg, n))
    } else {
        None
    }
}

/// The state of an operation that is retried: which attempt is being made, and how
/// long to wait if it fails.
#[derive(Debug)]
pub struct Retry {
    cfg: ClientConfig,
    attempt: u32,
    delay: Duration,
}

impl Retry {
    /// The configuration that it goes by.
    pub closed spec fn config(&self) -> ClientConfig {
        self.cfg
    }

    /// The number of the attempt being made, from 1.
    pub closed spec fn attempt(&self) -> nat {
        self.attempt as nat
    }

    pub closed spec fn wf(&self) -> bool {
        &&& 1 <= self.attempt <= attempts_allowed(self.cfg)
        &&& self.delay == retry_delay(self.cfg, self.attempt as nat)
    }

    /// An operation is at one of its attempts.
    pub proof fn lemma_attempts(r: Retry)
        requires
            r.wf(),
        ensures
            1 <= r.attempt() <= attempts_allowed(r.config()),
    {
    }

    /// Begins with the first attempt.
    pub fn with_retry(cfg: &ClientConfig) -> (r: Retry)
        ensures
            r.wf(),
            r.config() == *cfg,
            r.attempt() == 1,
    {
        proof {
            delays_are_bounded(*cfg, 1);
        }
        Retry { cfg: *cfg, attempt: 1, delay: cfg.retry_base_delay.min(cfg.retry_max_delay) }
    }

    /// Notes that the attempt failed: hands back how long to wait before the next
    /// one, or `None` if that was the last.
    pub fn failed(&mut self) -> (r: Option<Duration>)
        requires
            old(self).wf(),
        ensures
            final(self).wf(),
            final(self).config() == old(self).config(),
            r == next_wait(old(self).config(), old(self).attempt()),
            final(self).attempt() == (if r is Some {
                old(self).attempt() + 1
            } else {
                old(self).attempt()
            }),
    {
        let attempts: u32 = if self.cfg.max_retries >= 1 {
            self.cfg.max_retries
        } else {
            1
        };
        if self.attempt == attempts {
            return None;
        }
        let delay = self.delay;
        let longest = self.cfg.retry_max_delay;
        proof {
            lemma_delay_doubles(self.cfg, self.attempt as nat);
        }
        self.delay = if delay.nanos <= longest.nanos / 2 {
            Duration { nanos: delay.nanos * 2 }
        } else {
            longest
        };
        self.attempt = self.attempt + 1;
        Some(delay)
    }
}

/// Each delay is twice the last one, but no more than the longest.
pub proof fn lemma_delay_doubles(cfg: ClientConfig, n: nat)
    requires
        n >= 1,
    ensures
        retry_delay(cfg, n).nanos <= cfg.retry_max_delay.nanos,
        retry_delay(cfg, n + 1).nanos == (if 2 * retry_delay(cfg, n).nanos
            <= cfg.retry_max_delay.nanos {
            2 * retry_delay(cfg, n).nanos
        } else {
            cfg.retry_max_delay.nanos as int
        }),
{
    let base = cfg.retry_base_delay.nanos as int;
    let p = crate::time::two_to((n - 1) as nat) as int;
    assert(crate::time::two_to(n) == 2 * p);
    assert(base * (2 * p) == 2 * (base * p)) by (nonlinear_arith);
    assert(0 <= base * p) by (nonlinear_arith)
        requires
            0 <= base,
            0 <= p,
    ;
}

/// No wait between two attempts is longer than the longest one configured, and none
/// is shorter than the one before it.
pub proof fn delays_are_bounded(cfg: ClientConfig, n: nat)
    requires
        n >= 1,
    ensures
        retry_delay(cfg, 1) == cfg.retry_base_delay.min_spec(cfg.retry_max_delay),
        retry_delay(cfg, n).nanos <= cfg.retry_max_delay.nanos,
        retry_delay(cfg, n).nanos <= retry_delay(cfg, n + 1).nanos,
{
    let p = crate::time::two_to(0);
    assert(cfg.retry_base_delay.nanos * p == cfg.retry_base_delay.nanos) by (nonlinear_arith)
        requires
            p == 1,
    ;
    lemma_delay_doubles(cfg, n);
}

/// The number of the attempt with which an operation ends, when its `n`-th is being
/// made and `outcomes` tells which of them succeed.
pub open spec fn last_attempt(cfg: ClientConfig, outcomes: Seq<bool>, n: nat) -> nat
    decreases attempts_allowed(cfg) - n,
{
    if outcomes[n - 1] || next_wait(cfg, n) is None {
        n
    } else {
        last_attempt(cfg, outcomes, n + 1)
    }
}

/// An operation is tried until it succeeds, and no more often than is allowed: it
/// ends with its first success, or else with the last attempt.
pub proof fn operations_end_with_their_first_success(
    cfg: ClientConfig,
    outcomes: Seq<bool>,
    n: nat,
)
    requires
        1 <= n <= attempts_allowed(cfg),
        forall|i: int| 0 <= i < n - 1 ==> !(#[trigger] outcomes[i]),
    ensures
        ({
            let j = last_attempt(cfg, outcomes, n);
            &&& n <= j <= attempts_allowed(cfg)
            &&& outcomes[j - 1] || j == attempts_allowed(cfg)
            &&& forall|i: int| 0 <= i < j - 1 ==> !(#[trigger] outcomes[i])
        }),
    decreases attempts_allowed(cfg) - n,
{
    if !outcomes[n - 1] && next_wait(cfg, n) is Some {
        operations_end_with_their_first_success(cfg, outcomes, n + 1);
    }
}

/// Why a streaming operation did not begin or end well.
#[derive(Debug)]
pub enum Refusal {
    /// The supervisor answered with this error; it is final.
    Rejected(ControlError),
    /// The supervisor answered something else.
    Unexpected(Response),
}

/// What a reply means where only an acknowledgement is in order.
pub fn acknowledged(resp: Response) -> (r: Result<(), Refusal>)
    ensures
        r == (match resp {
            Response::Ack => Ok::<(), Refusal>(()),
            Response::Error(e) => Err(Refusal::Rejected(e)),
            other => Err(Refusal::Unexpected(other)),
        }),
{
    match resp {
        Response::Ack => Ok(()),
        Response::Error(e) => Err(Refusal::Rejected(e)),
        other => Err(Refusal::Unexpected(other)),
    }
}

/// The message for a reply that did not come in time.
pub fn timed_out(what: &str) -> (m: String)
    ensures
        m@ == "timed out waiting for "@ + what@,
{
    let mut m = String::new();
    m.append("timed out waiting for ");
    m.append(what);
    assert(m@ =~= "timed out waiting for "@ + what@);
    m
}

} // verus!
