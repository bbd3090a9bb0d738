//! What the command line gives: sizes, overrides, requests and rights.

use mesh_supervisor::cli::{
    authz_from_flags, judge, mem_str, open_scope, parse_size, restart_policy, spec_from_args,
    Verdict,
};
use mesh_supervisor::config::{
    ClientConfig, ClientOverrides, RateLimiterConfig, RateLimiterOverrides, SupervisorConfig,
    SupervisorOverrides, TelemetryConfig, TelemetryOverrides,
};
use mesh_supervisor::id::EndpointId;
use mesh_supervisor::proto::{
    ControlError, Limits, ProcInfo, ProcState, Request, Response, RestartPolicy, Spec, Usage,
};
use mesh_supervisor::time::Duration;

const NO_TELEMETRY: TelemetryOverrides = TelemetryOverrides {
    sample_interval_ms: None,
    max_tick_age_ms: None,
};

const NO_RATE: RateLimiterOverrides<f64> = RateLimiterOverrides {
    burst: None,
    refill: None,
    max_buckets: None,
    eviction_ttl_secs: None,
};

#[test]
fn cli_flags_override_config_defaults() {
    let mut cfg = ClientConfig::default();
    cfg.with_cli_overrides(&ClientOverrides {
        read_timeout: Some(7),
        connect_retries: Some(9),
        retry_base_delay_ms: None,
        retry_max_delay_ms: None,
        telemetry: NO_TELEMETRY,
    });
    assert_eq!(cfg.read_timeout, Duration::from_secs(7));
    assert_eq!(cfg.max_retries, 9);
    assert_eq!(
        cfg.retry_base_delay,
        ClientConfig::default().retry_base_delay,
        "untouched knob must keep its default"
    );

    let mut cfg = SupervisorConfig::at_rate(20.0, 10.0);
    cfg.with_cli_overrides(&SupervisorOverrides {
        request_timeout: None,
        stop_deadline_secs: None,
        rate_limiter: NO_RATE,
        telemetry: TelemetryOverrides {
            sample_interval_ms: Some(250),
            max_tick_age_ms: None,
        },
    });
    assert_eq!(cfg.telemetry.sample_interval, Duration::from_millis(250));
}

#[test]
fn defaults_are_as_documented() {
    let c = ClientConfig::default();
    assert_eq!(c.read_timeout, Duration::from_secs(30));
    assert_eq!(c.max_retries, 5);
    assert_eq!(c.retry_base_delay, Duration::from_millis(100));
    assert_eq!(c.retry_max_delay, Duration::from_secs(2));
    assert_eq!(c.telemetry, TelemetryConfig::default());
    assert_eq!(c.telemetry.sample_interval, Duration::from_secs(1));
    assert_eq!(c.telemetry.max_tick_age, Duration::from_millis(10_000));

    let s = SupervisorConfig::at_rate(20.0, 10.0);
    assert_eq!(s.request_timeout, Duration::from_secs(30));
    assert_eq!(s.stop_deadline, Duration::from_secs(5));
    assert_eq!(s.rate_limiter.burst, 20.0);
    assert_eq!(s.rate_limiter.refill, 10.0);
    assert_eq!(s.rate_limiter.max_buckets, 2048);
    assert_eq!(s.rate_limiter.eviction_ttl, Duration::from_secs(90));
}

#[test]
fn every_knob_can_be_overridden() {
    let mut c = ClientConfig::default();
    c.with_cli_overrides(&ClientOverrides {
        read_timeout: None,
        connect_retries: None,
        retry_base_delay_ms: Some(3),
        retry_max_delay_ms: Some(4),
        telemetry: TelemetryOverrides {
            sample_interval_ms: None,
            max_tick_age_ms: Some(5),
        },
    });
    assert_eq!(c.retry_base_delay, Duration::from_millis(3));
    assert_eq!(c.retry_max_delay, Duration::from_millis(4));
    assert_eq!(c.telemetry.max_tick_age, Duration::from_millis(5));
    assert_eq!(c.read_timeout, Duration::from_secs(30));

    let mut s = SupervisorConfig::at_rate(20.0, 10.0);
    s.with_cli_overrides(&SupervisorOverrides {
        request_timeout: Some(1),
        stop_deadline_secs: Some(2),
        rate_limiter: RateLimiterOverrides {
            burst: Some(3.0),
            refill: Some(4.0),
            max_buckets: Some(5),
            eviction_ttl_secs: Some(6),
        },
        telemetry: NO_TELEMETRY,
    });
    assert_eq!(s.request_timeout, Duration::from_secs(1));
    assert_eq!(s.stop_deadline, Duration::from_secs(2));
    assert_eq!(s.rate_limiter.burst, 3.0);
    assert_eq!(s.rate_limiter.refill, 4.0);
    assert_eq!(s.rate_limiter.max_buckets, 5);
    assert_eq!(s.rate_limiter.eviction_ttl, Duration::from_secs(6));

    let mut r = RateLimiterConfig::at_rate(1u32, 2);
    r.with_cli_overrides(&RateLimiterOverrides {
        burst: None,
        refill: Some(9),
        max_buckets: None,
        eviction_ttl_secs: None,
    });
    assert_eq!((r.burst, r.refill, r.max_buckets), (1, 9, 2048));
}

#[test]
fn sizes_are_read_with_their_units() {
    assert_eq!(parse_size("512"), Ok(512));
    assert_eq!(parse_size("4K"), Ok(4096));
    assert_eq!(parse_size("256M"), Ok(268_435_456));
    assert_eq!(parse_size(" 2g "), Ok(2_147_483_648));
    assert_eq!(parse_size("3 k"), Ok(3072));
    assert_eq!(parse_size("+5m"), Ok(5_242_880));
    assert_eq!(parse_size("0G"), Ok(0));
    assert_eq!(parse_size("18446744073709551615"), Ok(u64::MAX));
}

#[test]
fn sizes_that_cannot_be_read_are_explained() {
    assert_eq!(
        parse_size("abc"),
        Err("invalid size \"abc\": invalid digit found in string".into())
    );
    assert_eq!(
        parse_size("M"),
        Err("invalid size \"M\": cannot parse integer from empty string".into())
    );
    assert_eq!(
        parse_size(""),
        Err("invalid size \"\": cannot parse integer from empty string".into())
    );
    assert_eq!(
        parse_size("-1"),
        Err("invalid size \"-1\": invalid digit found in string".into())
    );
    assert_eq!(
        parse_size("18446744073709551616"),
        Err(
            "invalid size \"18446744073709551616\": number too large to fit in target type".into()
        )
    );
    assert_eq!(
        parse_size("99999999999999G"),
        Err("size \"99999999999999G\" overflows u64".into())
    );
}

#[test]
fn memory_is_shown_in_mebibytes() {
    assert_eq!(mem_str(None), "-");
    let usage = |mem_bytes| {
        Some(Usage {
            mem_bytes,
            cpu_usec: 0,
        })
    };
    assert_eq!(mem_str(usage(0)), "0MiB");
    assert_eq!(mem_str(usage(1_048_575)), "0MiB");
    assert_eq!(mem_str(usage(268_435_456)), "256MiB");
}

#[test]
fn a_posture_has_to_be_chosen() {
    let a = EndpointId { bytes: [1; 32] };
    let b = EndpointId { bytes: [2; 32] };
    assert_eq!(
        authz_from_flags(false, &vec![], &vec![]).map(|_| ()),
        Err("no authorization configured: pass --allow <id>... / --allow-read <id>..., or --open to accept all clients".into())
    );
    let open = authz_from_flags(true, &vec![], &vec![]).unwrap();
    assert!(open.open && open.control.is_empty() && open.read.is_empty());
    let some = authz_from_flags(false, &vec![a, b, a], &vec![b, b]).unwrap();
    assert!(!some.open);
    assert_eq!(some.control.len(), 2);
    assert!(some.control.contains(&a) && some.control.contains(&b));
    assert_eq!(some.read, vec![b]);
    assert_eq!(
        open_scope(false),
        "anyone who can reach this supervisor"
    );
    assert_eq!(
        open_scope(true),
        "anyone on the internet who knows this id"
    );
}

#[test]
fn policies_are_named() {
    assert_eq!(
        restart_policy(Some("on-failure")),
        RestartPolicy::OnFailure
    );
    assert_eq!(restart_policy(Some("always")), RestartPolicy::Always);
    assert_eq!(restart_policy(Some("never")), RestartPolicy::Never);
    assert_eq!(restart_policy(Some("Always")), RestartPolicy::Never);
    assert_eq!(restart_policy(None), RestartPolicy::Never);
}

#[test]
fn a_spawn_request_is_built_from_its_words() {
    let limits = Limits {
        memory: Some(1),
        pids: None,
        cpu: Some(2),
    };
    let words: Vec<String> = vec!["sh".into(), "-c".into(), "true".into()];
    let spec = spec_from_args(&words, limits, Some("always"), 3, true);
    assert_eq!(
        spec,
        Spec {
            cmd: "sh".into(),
            args: vec!["-c".into(), "true".into()],
            env: vec![],
            limits,
            policy: RestartPolicy::Always,
            max_retries: 3,
            isolate: true,
        }
    );
    let bare = spec_from_args(&vec!["true".into()], Limits::default(), None, 0, false);
    assert_eq!(
        bare,
        Spec {
            cmd: "true".into(),
            ..Default::default()
        }
    );
}

#[test]
fn replies_are_judged_by_the_request() {
    let info = ProcInfo {
        handle: 1,
        pid: 2,
        state: ProcState::Running,
        usage: None,
        restarts: 0,
    };
    let fitting = [
        (
            Request::Spawn(Spec::default()),
            Response::Spawned { id: 1, pid: 2 },
        ),
        (Request::List, Response::List(vec![info])),
        (Request::Query { id: 1 }, Response::Status(info)),
        (Request::Signal { id: 1, sig: 9 }, Response::Ack),
        (Request::Stop { id: 1 }, Response::Ack),
        (Request::Forget { id: 1 }, Response::Ack),
    ];
    for (req, resp) in fitting {
        match judge(&req, resp.clone()) {
            Verdict::Done(r) => assert_eq!(r, resp),
            other => panic!("expected Done, got {other:?}"),
        }
        match judge(&req, Response::Error(ControlError::Denied)) {
            Verdict::Failed(e) => assert_eq!(e, ControlError::Denied),
            other => panic!("expected Failed, got {other:?}"),
        }
    }
    assert!(matches!(
        judge(&Request::List, Response::Ack),
        Verdict::Unexpected(Response::Ack)
    ));
    assert!(matches!(
        judge(&Request::Stop { id: 1 }, Response::List(vec![])),
        Verdict::Unexpected(Response::List(_))
    ));
}
