//! Operational policy knobs: timeouts, rate limits, retry behaviour and telemetry
//! cadence, with their defaults and what the command line overrides.

use vstd::prelude::*;

use crate::time::Duration;

verus! {

/// `value` if the command line gives one, else what was there.
pub open spec fn overridden<A>(value: Option<A>, default: A) -> A {
    match value {
        Some(v) => v,
        None => default,
    }
}

/// What the command line says about telemetry.
#[derive(Debug, Clone, Copy)]
pub struct TelemetryOverrides {
    pub sample_interval_ms: Option<u64>,
    pub max_tick_age_ms: Option<u64>,
}

/// Telemetry publishing cadence and freshness window.
#[derive(Debug, Clone, Copy, PartialEq, Eq, Structural)]
pub struct TelemetryConfig {
    /// Publish cadence for telemetry ticks.
    pub sample_interval: Duration,
    /// Reject ticks whose timestamp is farther than this from now.
    pub max_tick_age: Duration,
}

impl Default for TelemetryConfig {
    fn default() -> (c: TelemetryConfig)
        ensures
            c == (TelemetryConfig {
                sample_interval: Duration::secs_spec(1),
                max_tick_age: Duration::millis_spec(10_000),
            }),
    {
        TelemetryConfig {
            sample_interval: Duration::from_secs(1),
            max_tick_age: Duration::from_millis(10_000),
        }
    }
}

/// A span of seconds that the command line may give.
pub open spec fn secs_or(secs: Option<u64>, default: Duration) -> Duration {
    match secs {
        Some(n) => Duration::secs_spec(n as nat),
        None => default,
    }
}

/// A span of milliseconds that the command line may give.
pub open spec fn millis_or(ms: Option<u64>, default: Duration) -> Duration {
    match ms {
        Some(n) => Duration::millis_spec(n as nat),
        None => default,
    }
}

impl TelemetryConfig {
    pub open spec fn overridden(self, o: TelemetryOverrides) -> TelemetryConfig {
        TelemetryConfig {
            sample_interval: millis_or(o.sample_interval_ms, self.sample_interval),
            max_tick_age: millis_or(o.max_tick_age_ms, self.max_tick_age),
        }
    }

    /// Applies what the command line says.
    pub fn with_cli_overrides(&mut self, o: &TelemetryOverrides)
        ensures
            *final(self) == old(self).overridden(*o),
    {
        if let Some(ms) = o.sample_interval_ms {
            self.sample_interval = Duration::from_millis(ms);
        }
        if let Some(ms) = o.max_tick_age_ms {
            self.max_tick_age = Duration::from_millis(ms);
        }
    }
}

/// What the command line says about a client.
#[derive(Debug, Clone, Copy)]
pub struct ClientOverrides {
    pub read_timeout: Option<u64>,
    pub connect_retries: Option<u32>,
    pub retry_base_delay_ms: Option<u64>,
    pub retry_max_delay_ms: Option<u64>,
    pub telemetry: TelemetryOverrides,
}

/// Client-side connection and read behaviour. Used by every command that dials a
/// supervisor or joins the telemetry topic as a watcher.
#[derive(Debug, Clone, Copy, PartialEq, Eq, Structural)]
pub struct ClientConfig {
    /// How long to wait for a response after a stream is open.
    pub read_timeout: Duration,
    /// The most connection attempts for a single operation.
    pub max_retries: u32,
    /// The delay before the first retry.
    pub retry_base_delay: Duration,
    /// The longest delay between retries.
    pub retry_max_delay: Duration,
    /// Telemetry settings; a watcher uses the freshness window.
    pub telemetry: TelemetryConfig,
}

impl Default for ClientConfig {
    fn default() -> (c: ClientConfig)
        ensures
            c.read_timeout == Duration::secs_spec(30),
            c.max_retries == 5,
            c.retry_base_delay == Duration::millis_spec(100),
            c.retry_max_delay == Duration::secs_spec(2),
            c.telemetry == (TelemetryConfig {
                sample_interval: Duration::secs_spec(1),
                max_tick_age: Duration::millis_spec(10_000),
            }),
    {
        ClientConfig {
            read_timeout: Duration::from_secs(30),
            max_retries: 5,
            retry_base_delay: Duration::from_millis(100),
            retry_max_delay: Duration::from_secs(2),
            telemetry: TelemetryConfig::default(),
        }
    }
}

impl ClientConfig {
    pub open spec fn overridden(self, o: ClientOverrides) -> ClientConfig {
        ClientConfig {
            read_timeout: secs_or(o.read_timeout, self.read_timeout),
            max_retries: overridden(o.connect_retries, self.max_retries),
            retry_base_delay: millis_or(o.retry_base_delay_ms, self.retry_base_delay),
            retry_max_delay: millis_or(o.retry_max_delay_ms, self.retry_max_delay),
            telemetry: self.telemetry.overridden(o.telemetry),
        }
    }

    /// Applies what the command line says.
    pub fn with_cli_overrides(&mut self, o: &ClientOverrides)
        ensures
            *final(self) == old(self).overridden(*o),
    {
        if let Some(secs) = o.read_timeout {
            self.read_timeout = Duration::from_secs(secs);
        }
        if let Some(n) = o.connect_retries {
            self.max_retries = n;
        }
        if let Some(ms) = o.retry_base_delay_ms {
            self.retry_base_delay = Duration::from_millis(ms);
        }
        if let Some(ms) = o.retry_max_delay_ms {
            self.retry_max_delay = Duration::from_millis(ms);
        }
        self.telemetry.with_cli_overrides(&o.telemetry);
    }
}

/// What the command line says about rate limiting.
#[derive(Debug, Clone, Copy)]
pub struct RateLimiterOverrides<T> {
    pub burst: Option<T>,
    pub refill: Option<T>,
    pub max_buckets: Option<usize>,
    pub eviction_ttl_secs: Option<u64>,
}

/// Token-bucket parameters. Tokens are counted in numbers of type `T`.
#[derive(Debug, Clone, Copy)]
pub struct RateLimiterConfig<T> {
    /// What a full bucket holds.
    pub burst: T,
    /// Tokens refilled per second.
    pub refill: T,
    /// The most peers with a bucket.
    pub max_buckets: usize,
    /// Idle time after which a bucket can be reclaimed.
    pub eviction_ttl: Duration,
}

impl<T: Copy> RateLimiterConfig<T> {
    pub open spec fn standard(burst: T, refill: T) -> RateLimiterConfig<T> {
        RateLimiterConfig {
            burst,
            refill,
            max_buckets: 2048,
            eviction_ttl: Duration::secs_spec(90),
        }
    }

    /// The default bounds on the buckets, at this rate.
    pub fn at_rate(burst: T, refill: T) -> (c: RateLimiterConfig<T>)
        ensures
            c == RateLimiterConfig::standard(burst, refill),
    {
        RateLimiterConfig {
            burst,
            refill,
            max_buckets: 2048,
            eviction_ttl: Duration::from_secs(90),
        }
    }

    pub open spec fn overridden(self, o: RateLimiterOverrides<T>) -> RateLimiterConfig<T> {
        RateLimiterConfig {
            burst: overridden(o.burst, self.burst),
            refill: overridden(o.refill, self.refill),
            max_buckets: overridden(o.max_buckets, self.max_buckets),
            eviction_ttl: secs_or(o.eviction_ttl_secs, self.eviction_ttl),
        }
    }

    /// Applies what the command line says.
    pub fn with_cli_overrides(&mut self, o: &RateLimiterOverrides<T>)
        ensures
            *final(self) == old(self).overridden(*o),
    {
        if let Some(n) = o.burst {
            self.burst = n;
        }
        if let Some(n) = o.refill {
            self.refill = n;
        }
        if let Some(n) = o.max_buckets {
            self.max_buckets = n;
        }
        if let Some(secs) = o.eviction_ttl_secs {
            self.eviction_ttl = Duration::from_secs(secs);
        }
    }
}

/// What the command line says about a supervisor.
#[derive(Debug, Clone, Copy)]
pub struct SupervisorOverrides<T> {
    pub request_timeout: Option<u64>,
    pub stop_deadline_secs: Option<u64>,
    pub rate_limiter: RateLimiterOverrides<T>,
    pub telemetry: TelemetryOverrides,
}

/// Supervisor-side request handling and process shutdown.
#[derive(Debug, Clone, Copy)]
pub struct SupervisorConfig<T> {
    /// How long the supervisor waits for a client's request once a stream is open.
    pub request_timeout: Duration,
    /// Grace period between asking a child to end and killing it.
    pub stop_deadline: Duration,
    /// Per-peer request rate limiting.
    pub rate_limiter: RateLimiterConfig<T>,
    /// Telemetry publishing and freshness settings.
    pub telemetry: TelemetryConfig,
}

impl<T: Copy> SupervisorConfig<T> {
    /// The defaults, with requests limited to this rate.
    pub fn at_rate(burst: T, refill: T) -> (c: SupervisorConfig<T>)
        ensures
            c.request_timeout == Duration::secs_spec(30),
            c.stop_deadline == Duration::secs_spec(5),
            c.rate_limiter == RateLimiterConfig::standard(burst, refill),
            c.telemetry == (TelemetryConfig {
                sample_interval: Duration::secs_spec(1),
                max_tick_age: Duration::millis_spec(10_000),
            }),
    {
        SupervisorConfig {
            request_timeout: Duration::from_secs(30),
            stop_deadline: Duration::from_secs(5),
            rate_limiter: RateLimiterConfig::at_rate(burst, refill),
            telemetry: TelemetryConfig::default(),
        }
    }

    pub open spec fn overridden(self, o: SupervisorOverrides<T>) -> SupervisorConfig<T> {
        SupervisorConfig {
            request_timeout: secs_or(o.request_timeout, self.request_timeout),
            stop_deadline: secs_or(o.stop_deadline_secs, self.stop_deadline),
            rate_limiter: self.rate_limiter.overridden(o.rate_limiter),
            telemetry: self.telemetry.overridden(o.telemetry),
        }
    }

    /// Applies what the command line says.
    pub fn with_cli_overrides(&mut self, o: &SupervisorOverrides<T>)
        ensures
            *final(self) == old(self).overridden(*o),
    {
        if let Some(secs) = o.request_timeout {
            self.request_timeout = Duration::from_secs(secs);
        }
        if let Some(secs) = o.stop_deadline_secs {
            self.stop_deadline = Duration::from_secs(secs);
        }
        self.rate_limiter.with_cli_overrides(&o.rate_limiter);
        self.telemetry.with_cli_overrides(&o.telemetry);
    }
}

} // verus!
