//! The command line and the settings: what the operator says is what holds.

use vstd::prelude::*;

use crate::config::{
    ClientConfig, ClientOverrides, RateLimiterConfig, RateLimiterOverrides, SupervisorConfig,
    SupervisorOverrides, TelemetryConfig, TelemetryOverrides,
};
use crate::id::EndpointId;
use crate::proto::{ControlError, Limits, Request, RestartPolicy, Spec, Usage};
use crate::supervisor::Authz;
use crate::time::Duration;

verus! {

/// Whether `now` is what the command line says, in units of `unit` nanoseconds, or
/// what was there before.
pub open spec fn set_or_kept(said: Option<u64>, unit: int, was: Duration, now: Duration) -> bool {
    &&& said matches Some(n) ==> now.nanos == n * unit
    &&& said is None ==> now == was
}

/// Without further word ticks are published every second and believed for ten.
pub proof fn telemetry_defaults(c: TelemetryConfig)
    requires
        call_ensures(<TelemetryConfig as Default>::default, (), c),
    ensures
        c.sample_interval.nanos == 1_000_000_000,
        c.max_tick_age.nanos == 10_000_000_000,
{
}

/// Each telemetry setting that the command line gives, in milliseconds, holds, and each
/// that it does not give stays.
pub proof fn telemetry_overrides_hold(c: &mut TelemetryConfig, o: TelemetryOverrides)
    requires
        call_ensures(TelemetryConfig::with_cli_overrides, (c, &o), ()),
    ensures
        set_or_kept(
            o.sample_interval_ms,
            1_000_000,
            old(c).sample_interval,
            final(c).sample_interval,
        ),
        set_or_kept(o.max_tick_age_ms, 1_000_000, old(c).max_tick_age, final(c).max_tick_age),
{
}

/// Without further word a client waits for half a minute, and tries five times, at
/// first after a tenth of a second and never after more than two.
pub proof fn client_defaults(c: ClientConfig)
    requires
        call_ensures(<ClientConfig as Default>::default, (), c),
    ensures
        c.read_timeout.nanos == 30_000_000_000,
        c.max_retries == 5,
        c.retry_base_delay.nanos == 100_000_000,
        c.retry_max_delay.nanos == 2_000_000_000,
        c.telemetry.sample_interval.nanos == 1_000_000_000,
        c.telemetry.max_tick_age.nanos == 10_000_000_000,
{
}

/// Each client setting that the command line gives holds, and each that it does not
/// give stays.
pub proof fn client_overrides_hold(c: &mut ClientConfig, o: ClientOverrides)
    requires
        call_ensures(ClientConfig::with_cli_overrides, (c, &o), ()),
    ensures
        set_or_kept(o.read_timeout, 1_000_000_000, old(c).read_timeout, final(c).read_timeout),
        o.connect_retries matches Some(n) ==> final(c).max_retries == n,
        o.connect_retries is None ==> final(c).max_retries == old(c).max_retries,
        set_or_kept(
            o.retry_base_delay_ms,
            1_000_000,
            old(c).retry_base_delay,
            final(c).retry_base_delay,
        ),
        set_or_kept(
            o.retry_max_delay_ms,
            1_000_000,
            old(c).retry_max_delay,
            final(c).retry_max_delay,
        ),
        set_or_kept(
            o.telemetry.sample_interval_ms,
            1_000_000,
            old(c).telemetry.sample_interval,
            final(c).telemetry.sample_interval,
        ),
        set_or_kept(
            o.telemetry.max_tick_age_ms,
            1_000_000,
            old(c).telemetry.max_tick_age,
            final(c).telemetry.max_tick_age,
        ),
{
}

/// At a given rate no more than 2048 peers have a bucket, and an idle one can be
/// reclaimed after a minute and a half.
pub proof fn rate_defaults<T: Copy>(burst: T, refill: T, c: RateLimiterConfig<T>)
    requires
        call_ensures(RateLimiterConfig::<T>::at_rate, (burst, refill), c),
    ensures
        c.burst == burst,
        c.refill == refill,
        c.max_buckets == 2048,
        c.eviction_ttl.nanos == 90_000_000_000,
{
}

/// Each rate setting that the command line gives holds, and each that it does not give
/// stays.
pub proof fn rate_overrides_hold<T: Copy>(c: &mut RateLimiterConfig<T>, o: RateLimiterOverrides<T>)
    requires
        call_ensures(RateLimiterConfig::<T>::with_cli_overrides, (c, &o), ()),
    ensures
        o.burst matches Some(n) ==> final(c).burst == n,
        o.burst is None ==> final(c).burst == old(c).burst,
        o.refill matches Some(n) ==> final(c).refill == n,
        o.refill is None ==> final(c).refill == old(c).refill,
        o.max_buckets matches Some(n) ==> final(c).max_buckets == n,
        o.max_buckets is None ==> final(c).max_buckets == old(c).max_buckets,
        set_or_kept(
            o.eviction_ttl_secs,
            1_000_000_000,
            old(c).eviction_ttl,
            final(c).eviction_ttl,
        ),
{
}

/// Without further word a supervisor waits half a minute for a request, and five
/// seconds for a child to end.
pub proof fn supervisor_defaults<T: Copy>(burst: T, refill: T, c: SupervisorConfig<T>)
    requires
        call_ensures(SupervisorConfig::<T>::at_rate, (burst, refill), c),
    ensures
        c.request_timeout.nanos == 30_000_000_000,
        c.stop_deadline.nanos == 5_000_000_000,
        c.rate_limiter.burst == burst,
        c.rate_limiter.refill == refill,
        c.rate_limiter.max_buckets == 2048,
        c.rate_limiter.eviction_ttl.nanos == 90_000_000_000,
        c.telemetry.sample_interval.nanos == 1_000_000_000,
        c.telemetry.max_tick_age.nanos == 10_000_000_000,
{
}

/// Each supervisor setting that the command line gives holds, and each that it does
/// not give stays.
pub proof fn supervisor_overrides_hold<T: Copy>(
    c: &mut SupervisorConfig<T>,
    o: SupervisorOverrides<T>,
)
    requires
        call_ensures(SupervisorConfig::<T>::with_cli_overrides, (c, &o), ()),
    ensures
        set_or_kept(
            o.request_timeout,
            1_000_000_000,
            old(c).request_timeout,
            final(c).request_timeout,
        ),
        set_or_kept(
            o.stop_deadline_secs,
            1_000_000_000,
            old(c).stop_deadline,
            final(c).stop_deadline,
        ),
        o.rate_limiter.burst matches Some(n) ==> final(c).rate_limiter.burst == n,
        o.rate_limiter.burst is None ==> final(c).rate_limiter.burst == old(c).rate_limiter.burst,
        o.rate_limiter.refill matches Some(n) ==> final(c).rate_limiter.refill == n,
        o.rate_limiter.refill is None ==> final(c).rate_limiter.refill
            == old(c).rate_limiter.refill,
        o.rate_limiter.max_buckets matches Some(n) ==> final(c).rate_limiter.max_buckets == n,
        o.rate_limiter.max_buckets is None ==> final(c).rate_limiter.max_buckets
            == old(c).rate_limiter.max_buckets,
        set_or_kept(
            o.rate_limiter.eviction_ttl_secs,
            1_000_000_000,
            old(c).rate_limiter.eviction_ttl,
            final(c).rate_limiter.eviction_ttl,
        ),
        set_or_kept(
            o.telemetry.sample_interval_ms,
            1_000_000,
            old(c).telemetry.sample_interval,
            final(c).telemetry.sample_interval,
        ),
        set_or_kept(
            o.telemetry.max_tick_age_ms,
            1_000_000,
            old(c).telemetry.max_tick_age,
            final(c).telemetry.max_tick_age,
        ),
{
}

/// What a letter behind a size multiplies it by.
pub open spec fn factor(c: char) -> Option<int> {
    if c == 'K' || c == 'k' {
        Some(1024)
    } else if c == 'M' || c == 'm' {
        Some(1_048_576)
    } else if c == 'G' || c == 'g' {
        Some(1_073_741_824)
    } else {
        None
    }
}

/// A size is so many bytes; a letter behind it makes that kibibytes, mebibytes or
/// gibibytes. It is refused if that is more than 64 bits hold.
pub proof fn sizes_are_counted_in_bytes(
    plain: &str,
    scaled: &str,
    digits: Seq<char>,
    unit: char,
    a: Result<u64, String>,
    b: Result<u64, String>,
)
    requires
        crate::text::is_digits(digits),
        factor(unit) is Some,
        plain@ == digits,
        scaled@ == digits.push(unit),
        call_ensures(crate::cli::parse_size, (plain,), a),
        call_ensures(crate::cli::parse_size, (scaled,), b),
    ensures
        ({
            let n = crate::text::digits_value(digits);
            let f = factor(unit)->0;
            &&& a is Ok <==> n <= u64::MAX
            &&& a matches Ok(v) ==> v == n
            &&& b is Ok <==> n * f <= u64::MAX
            &&& b matches Ok(v) ==> v == n * f
        }),
{
    let n = crate::text::digits_value(digits);
    let f = factor(unit)->0;
    lemma_digits_stay(digits);
    let t = digits.push(unit);
    assert(t.drop_last() =~= digits);
    assert(crate::text::trim_start(t) == t);
    assert(crate::text::trim_end(t) == t);
    assert(crate::cli::size_unit(digits.last()) is None);
    assert(n <= n * f) by (nonlinear_arith)
        requires
            f >= 1,
            n >= 0,
    ;
    assert(crate::cli::size_parts(t) == (digits, f as nat));
    assert(crate::cli::size_parts(digits) == (digits, 1nat));
    if n <= u64::MAX {
        let m = n as u64;
        assert(crate::text::parsed_u64(digits) == Some(m));
        assert(m * (f as nat) == n * f);
        assert(m * 1nat == n);
    }
}

/// A size that is refused is named, and so is the reason: it is too large, or it is
/// no number.
pub proof fn refused_sizes_are_named(s: &str, r: Result<u64, String>, digits: Seq<char>, unit: char)
    requires
        crate::text::is_digits(digits),
        factor(unit) is Some,
        s@ == digits.push(unit),
        call_ensures(crate::cli::parse_size, (s,), r),
    ensures
        r matches Err(m) ==> {
            let n = crate::text::digits_value(digits);
            &&& n <= u64::MAX ==> m@ == "size "@ + crate::text::debug_form(s@) + " overflows u64"@
            &&& n > u64::MAX ==> m@ == "invalid size "@ + crate::text::debug_form(s@) + ": "@
                + crate::text::parse_error_text(digits)
        },
{
    lemma_digits_stay(digits);
    let t = digits.push(unit);
    assert(t.drop_last() =~= digits);
    assert(crate::text::trim_start(t) == t);
    assert(crate::text::trim_end(t) == t);
}

/// White space around a size, and between its number and its unit, does not matter.
pub proof fn sizes_may_be_spaced(
    tight: &str,
    loose: &str,
    digits: Seq<char>,
    unit: Seq<char>,
    front: Seq<char>,
    gap: Seq<char>,
    back: Seq<char>,
    a: Result<u64, String>,
    b: Result<u64, String>,
)
    requires
        crate::text::is_digits(digits),
        unit.len() == 0 && gap.len() == 0 || unit.len() == 1 && factor(unit[0]) is Some,
        forall|i: int| 0 <= i < front.len() ==> crate::text::white_space(#[trigger] front[i]),
        forall|i: int| 0 <= i < gap.len() ==> crate::text::white_space(#[trigger] gap[i]),
        forall|i: int| 0 <= i < back.len() ==> crate::text::white_space(#[trigger] back[i]),
        tight@ == digits + unit,
        loose@ == front + digits + gap + unit + back,
        call_ensures(crate::cli::parse_size, (tight,), a),
        call_ensures(crate::cli::parse_size, (loose,), b),
    ensures
        a is Ok <==> b is Ok,
        a is Ok ==> a->Ok_0 == b->Ok_0,
{
    let none = Seq::<char>::empty();
    let core = digits + gap + unit;
    lemma_digits_stay(digits);
    crate::laws::texts::lemma_trimmed(front, core, back);
    assert(loose@ =~= front + core + back);
    crate::laws::texts::lemma_trimmed(none, digits + unit, none);
    assert(tight@ =~= none + (digits + unit) + none);
    if unit.len() == 0 {
        assert(core =~= digits);
        assert(digits + unit =~= digits);
    } else {
        assert(core.drop_last() =~= none + digits + gap);
        assert((digits + unit).drop_last() =~= digits);
        crate::laws::texts::lemma_trimmed(none, digits, gap);
    }
}

/// A text of digits has no white space, no sign and no unit in it.
proof fn lemma_digits_stay(digits: Seq<char>)
    requires
        crate::text::is_digits(digits),
    ensures
        crate::text::trimmed(digits) == digits,
        !crate::text::white_space(digits[0]),
        !crate::text::white_space(digits.last()),
        digits[0] != '+',
        factor(digits.last()) is None,
{
    assert('0' <= digits[0] <= '9');
    assert('0' <= digits[digits.len() - 1] <= '9');
}

/// What begins with no digit and no sign is no size.
pub proof fn words_are_no_sizes(s: &str, r: Result<u64, String>)
    requires
        call_ensures(crate::cli::parse_size, (s,), r),
        forall|i: int| 0 <= i < s@.len() ==> !('0' <= #[trigger] s@[i] <= '9'),
    ensures
        r is Err,
{
    let t = crate::text::trimmed(s@);
    crate::laws::texts::lemma_trimmed_part(s@);
    let (num, unit) = crate::cli::size_parts(t);
    let head = if t.len() > 0 && crate::cli::size_unit(t.last()) is Some {
        t.drop_last()
    } else {
        t
    };
    crate::laws::texts::lemma_trimmed_part(head);
    let (i, j) = crate::laws::texts::trimmed_bounds(s@);
    let (a, b) = crate::laws::texts::trimmed_bounds(head);
    assert(num == crate::text::trimmed(head));
    if crate::text::parsed_u64(num) is Some {
        let body = if num.len() > 0 && num[0] == '+' {
            num.skip(1)
        } else {
            num
        };
        assert('0' <= body[0] <= '9');
        let k = if num[0] == '+' {
            1int
        } else {
            0
        };
        assert(body[0] == num[k]);
        assert(num[k] == head[a + k]);
        assert(head[a + k] == t[a + k]);
        assert(t[a + k] == s@[i + a + k]);
    }
}

/// A size is a number, maybe behind a plus sign, maybe in front of one of the letters,
/// maybe with white space around and between; nothing else is a size.
pub proof fn nothing_else_is_a_size(s: &str, v: u64)
    requires
        call_ensures(crate::cli::parse_size, (s,), Ok(v)),
    ensures
        exists|i: int, a: int, b: int, j: int| #[trigger]
            reads_as_size(s@, i, a, b, j, v),
{
    let t = crate::text::trimmed(s@);
    crate::laws::texts::lemma_trimmed_part(s@);
    let (i, j) = crate::laws::texts::trimmed_bounds(s@);
    let scaled = t.len() > 0 && crate::cli::size_unit(t.last()) is Some;
    let head = if scaled {
        t.drop_last()
    } else {
        t
    };
    crate::laws::texts::lemma_trimmed_part(head);
    let (x, y) = crate::laws::texts::trimmed_bounds(head);
    let num = crate::text::trimmed(head);
    assert(x == 0) by {
        if x > 0 {
            assert(head[0] == t[0]);
        }
    }
    let signed = num.len() > 0 && num[0] == '+';
    let a = if signed {
        i + 1
    } else {
        i
    };
    let b = i + y;
    let body = if signed {
        num.skip(1)
    } else {
        num
    };
    assert(body =~= s@.subrange(a, b));
    if scaled {
        assert(t.last() == s@[j - 1]);
    }
    assert forall|k: int| b <= k < i + head.len() implies crate::text::white_space(
        #[trigger] s@[k],
    ) by {
        assert(head[k - i] == s@[k]);
    }
    if signed {
        assert(num[0] == s@[i]);
    }
    assert(reads_as_size(s@, i, a, b, j, v));
}

/// Whether a text is `v` bytes in these parts: white space up to `i`, a sign up to `a`,
/// a number up to `b`, more white space and maybe a letter up to `j`, and white space.
pub open spec fn reads_as_size(s: Seq<char>, i: int, a: int, b: int, j: int, v: u64) -> bool {
    &&& 0 <= i <= a < b <= j <= s.len()
    &&& forall|k: int| 0 <= k < i ==> crate::text::white_space(#[trigger] s[k])
    &&& forall|k: int| j <= k < s.len() ==> crate::text::white_space(#[trigger] s[k])
    &&& a == i || a == i + 1 && s[i] == '+'
    &&& crate::text::is_digits(s.subrange(a, b))
    &&& {
        ||| b == j && v == crate::text::digits_value(s.subrange(a, b))
        ||| b < j && factor(s[j - 1]) is Some && v == crate::text::digits_value(s.subrange(a, b))
            * factor(s[j - 1])->0 && forall|k: int|
            b <= k < j - 1 ==> crate::text::white_space(#[trigger] s[k])
    }
}

/// Memory is told in whole mebibytes, rounded down, or not at all.
pub proof fn memory_is_told_in_mebibytes(usage: Option<Usage>, s: String)
    requires
        call_ensures(crate::cli::mem_str, (usage,), s),
    ensures
        usage is None ==> s@ == "-"@,
        usage matches Some(u) ==> {
            let k = s@.len() - 3;
            &&& k > 0
            &&& s@.skip(k) == "MiB"@
            &&& crate::text::is_digits(s@.take(k))
            &&& crate::text::digits_value(s@.take(k)) * 1_048_576 <= u.mem_bytes
            &&& u.mem_bytes < (crate::text::digits_value(s@.take(k)) + 1) * 1_048_576
        },
{
    reveal_strlit("MiB");
    if let Some(u) = usage {
        let d = crate::text::decimal((u.mem_bytes / 1_048_576) as nat);
        crate::text::decimal_reads_back((u.mem_bytes / 1_048_576) as nat);
        let k = s@.len() - 3;
        assert(s@.take(k) =~= d);
        assert(s@.skip(k) =~= "MiB"@);
    }
}

/// A list without repetition names the same clients, each once.
pub proof fn lists_lose_only_repetitions(ids: Vec<EndpointId>, list: Vec<EndpointId>, id: EndpointId)
    requires
        call_ensures(crate::cli::distinct, (&ids,), list),
    ensures
        ids@.contains(id) <==> list@.contains(id),
        forall|i: int, j: int| 0 <= i < j < list@.len() ==> list@[i] != list@[j],
{
}

/// The flags give control to those that they allow, and read-only rights to those that
/// they allow to read; to everyone only if they say so. Flags that give no rights at
/// all are refused.
pub proof fn flags_give_the_rights_they_name(
    open: bool,
    allow: Vec<EndpointId>,
    read: Vec<EndpointId>,
    r: Result<Authz, String>,
    remote: EndpointId,
    req: Request,
    may: Result<(), ControlError>,
)
    requires
        call_ensures(crate::cli::authz_from_flags, (open, &allow, &read), r),
        r is Ok ==> call_ensures(Authz::authorize, (&r->Ok_0, remote, &req), may),
    ensures
        r is Err <==> !open && allow@.len() == 0 && read@.len() == 0,
        r matches Err(m) ==> m@
            == "no authorization configured: pass --allow <id>... / --allow-read <id>..., or --open to accept all clients"@,
        r is Ok ==> (may is Ok <==> open || allow@.contains(remote) || (read@.contains(remote) && (
        req is List || req is Query || req is Subscribe))),
{
}

/// An operator is warned of everyone whom an open supervisor lets in.
pub proof fn open_scopes_differ(a: String, b: String)
    requires
        call_ensures(crate::cli::open_scope, (true,), a),
        call_ensures(crate::cli::open_scope, (false,), b),
    ensures
        a@ == "anyone on the internet who knows this id"@,
        b@ == "anyone who can reach this supervisor"@,
{
}

/// A policy is called by its name; without one a process is not restarted.
pub proof fn policies_have_names(name: &str, p: RestartPolicy, q: RestartPolicy)
    requires
        call_ensures(crate::cli::restart_policy, (Some(name),), p),
        call_ensures(crate::cli::restart_policy, (None::<&str>,), q),
    ensures
        p is Always <==> name@ == "always"@,
        p is OnFailure <==> name@ == "on-failure"@,
        q is Never,
{
    reveal_strlit("always");
    reveal_strlit("on-failure");
    assert("always"@.len() != "on-failure"@.len());
}

/// The command line's words, limits and flags are what is asked for.
pub proof fn specs_are_what_was_typed(
    argv: Vec<String>,
    limits: Limits,
    restart: Option<&str>,
    max_retries: u32,
    isolate: bool,
    s: Spec,
    p: RestartPolicy,
    i: int,
)
    requires
        argv@.len() > 0,
        call_ensures(
            crate::cli::spec_from_args,
            (&argv, limits, restart, max_retries, isolate),
            s,
        ),
        call_ensures(crate::cli::restart_policy, (restart,), p),
    ensures
        s.cmd@ == argv@[0]@,
        s.args@.len() == argv@.len() - 1,
        1 <= i < argv@.len() ==> s.args@[i - 1]@ == argv@[i]@,
        s.env@.len() == 0,
        s.limits.memory == limits.memory,
        s.limits.pids == limits.pids,
        s.limits.cpu == limits.cpu,
        s.policy == p,
        s.max_retries == max_retries,
        s.isolate == isolate,
{
}

/// Spans are counted in nanoseconds, and the shorter of two is one of them.
pub proof fn spans_are_counted(
    n: u64,
    secs: Duration,
    ms: Duration,
    a: Duration,
    b: Duration,
    least: Duration,
)
    requires
        call_ensures(Duration::from_secs, (n,), secs),
        call_ensures(Duration::from_millis, (n,), ms),
        call_ensures(Duration::min, (a, b), least),
    ensures
        secs.nanos == n * 1_000_000_000,
        ms.nanos == n * 1_000_000,
        least.nanos <= a.nanos,
        least.nanos <= b.nanos,
        least == a || least == b,
{
}

} // verus!
