//! Retries, and what a client makes of a reply.

use mesh_supervisor::client::{acknowledged, timed_out, Refusal, Retry};
use mesh_supervisor::config::ClientConfig;
use mesh_supervisor::proto::{ControlError, Response};
use mesh_supervisor::time::{Duration, MAX_NANOS};

fn test_client_config() -> ClientConfig {
    ClientConfig {
        read_timeout: Duration::from_secs(30),
        max_retries: 5,
        retry_base_delay: Duration::from_millis(1),
        retry_max_delay: Duration::from_millis(10),
        telemetry: Default::default(),
    }
}

/// Runs `f` until it succeeds or the attempts are used up; hands back its last
/// answer, the number of attempts and the delays in milliseconds.
fn run<T, E>(
    cfg: &ClientConfig,
    mut f: impl FnMut(usize) -> Result<T, E>,
) -> (Result<T, E>, usize, Vec<u128>) {
    let mut retry = Retry::with_retry(cfg);
    let mut attempts = 0;
    let mut delays = vec![];
    loop {
        attempts += 1;
        match f(attempts) {
            Ok(v) => return (Ok(v), attempts, delays),
            Err(e) => match retry.failed() {
                Some(d) => delays.push(d.nanos / 1_000_000),
                None => return (Err(e), attempts, delays),
            },
        }
    }
}

#[test]
fn retry_succeeds_after_failures() {
    let cfg = test_client_config();
    let (result, attempts, _) = run(&cfg, |n| if n < 3 { Err("transient") } else { Ok(42) });
    assert_eq!(result, Ok(42));
    assert_eq!(attempts, 3);
}

#[test]
fn retry_gives_up_after_max_attempts() {
    let cfg = test_client_config();
    let (result, attempts, delays) = run(&cfg, |_| Err::<(), _>("always fails"));
    assert!(result.is_err());
    assert_eq!(attempts, cfg.max_retries as usize);
    assert_eq!(delays, vec![1, 2, 4, 8]);
}

#[test]
fn retry_with_zero_max_retries_makes_one_attempt() {
    let mut cfg = test_client_config();
    cfg.max_retries = 0;
    let (result, attempts, delays) = run(&cfg, |_| Err::<(), _>("always fails"));
    assert!(result.is_err());
    assert_eq!(
        attempts, 1,
        "max_retries=0 must make exactly one attempt, not panic"
    );
    assert!(delays.is_empty());
}

#[test]
fn delays_are_capped() {
    let mut cfg = test_client_config();
    cfg.max_retries = 7;
    let (_, _, delays) = run(&cfg, |_| Err::<(), _>(()));
    assert_eq!(delays, vec![1, 2, 4, 8, 10, 10]);

    // The first delay is capped too.
    cfg.max_retries = 2;
    cfg.retry_base_delay = Duration::from_secs(5);
    cfg.retry_max_delay = Duration::from_secs(2);
    let (_, attempts, delays) = run(&cfg, |_| Err::<(), _>(()));
    assert_eq!(attempts, 2);
    assert_eq!(delays, vec![2_000]);
}

#[test]
fn the_cap_may_be_the_longest_span() {
    let mut cfg = test_client_config();
    cfg.max_retries = 3;
    cfg.retry_base_delay = Duration::from_millis(100);
    cfg.retry_max_delay = Duration { nanos: MAX_NANOS };
    let (_, _, delays) = run(&cfg, |_| Err::<(), _>(()));
    assert_eq!(delays, vec![100, 200]);

    cfg.retry_base_delay = Duration { nanos: u128::MAX };
    cfg.retry_max_delay = Duration { nanos: u128::MAX };
    let (_, attempts, _) = run(&cfg, |_| Err::<(), _>(()));
    assert_eq!(attempts, 3);
}

#[test]
fn only_an_acknowledgement_is_in_order() {
    assert!(acknowledged(Response::Ack).is_ok());
    match acknowledged(Response::Error(ControlError::Denied)) {
        Err(Refusal::Rejected(e)) => assert_eq!(e, ControlError::Denied),
        other => panic!("expected a rejection, got {other:?}"),
    }
    match acknowledged(Response::List(vec![])) {
        Err(Refusal::Unexpected(r)) => assert_eq!(r, Response::List(vec![])),
        other => panic!("expected a surprise, got {other:?}"),
    }
    assert_eq!(timed_out("response"), "timed out waiting for response");
}
