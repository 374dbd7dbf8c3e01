use acowork_runtime::agent::session_state::SessionStatus;
use acowork_runtime::providers::failures::{
    is_balance_exhausted, is_minimax_balance_code, is_retryable, reads_as_exhausted, FailureKind,
};
use acowork_runtime::providers::plan::{plan_providers, ManifestProvider};
use acowork_runtime::providers::reliable::{
    all_failed_message, jittered, resumed_status, retry_pause_status, retry_wait_state, shows_wait,
    spread_wait, BackoffStrategy, CallOutcome, CallPosition, ReliableProvider, RetryConfig,
    RetryStep,
};
use std::time::Duration;

#[test]
fn test_backoff_fixed() {
    let backoff = BackoffStrategy::Fixed { delay_ms: 1000 };
    assert_eq!(backoff.wait_duration(0), Duration::from_millis(1000));
    assert_eq!(backoff.wait_duration(2), Duration::from_millis(1000));
}

#[test]
fn test_backoff_exponential() {
    let backoff = BackoffStrategy::Exponential { base_ms: 1000 };
    assert_eq!(backoff.wait_duration(0), Duration::from_millis(1000));
    assert_eq!(backoff.wait_duration(1), Duration::from_millis(2000));
    assert_eq!(backoff.wait_duration(2), Duration::from_millis(4000));
}

fn config() -> RetryConfig {
    RetryConfig {
        max_attempts: 3,
        backoff: BackoffStrategy::Exponential { base_ms: 1000 },
        max_wait_ms: 3000,
    }
}

#[test]
fn waits_prefer_the_server_and_are_capped() {
    assert_eq!(config().base_wait(0, Some(500)), 500);
    assert_eq!(config().base_wait(0, Some(50_000)), 3000);
    assert_eq!(config().base_wait(1, None), 2000);
    assert_eq!(config().base_wait(2, None), 3000);
}

#[test]
fn waits_are_spread_by_a_quarter_at_most() {
    assert_eq!(spread_wait(1000, 750_000), 750);
    assert_eq!(spread_wait(1000, 1_250_000), 1250);
    assert_eq!(spread_wait(u64::MAX, 1_250_000), u64::MAX);
    for _ in 0..200 {
        let w = jittered(10_000);
        assert!(w >= 7_500 && w <= 12_500);
    }
    let p = ReliableProvider::new("p".to_string(), config());
    for _ in 0..50 {
        let w = p.compute_wait(5, Some(1000));
        assert!(w >= 750 && w <= 1250);
    }
    let mut seen = Vec::new();
    for _ in 0..200 {
        let w = jittered(1_000_000);
        if !seen.contains(&w) {
            seen.push(w);
        }
    }
    assert!(seen.len() > 1, "waits are not all the same");
}

#[test]
fn calls_go_from_provider_to_provider() {
    let p = ReliableProvider::new("first".to_string(), config())
        .with_fallback("second".to_string());
    assert_eq!(p.name(), "first");
    let start = CallPosition { provider: 0, attempt: 0 };
    assert!(matches!(p.start(), RetryStep::Call { next } if next == start));
    assert!(matches!(p.next(start, CallOutcome::Success), RetryStep::Return));
    let retry = CallOutcome::Failure {
        retryable: true,
        balance_exhausted: false,
        retry_after_ms: Some(10),
    };
    assert!(matches!(
        p.next(start, retry),
        RetryStep::WaitAndCall { wait_ms: 10, next } if next == (CallPosition { provider: 0, attempt: 1 })
    ));
    let broke = CallOutcome::Failure {
        retryable: true,
        balance_exhausted: true,
        retry_after_ms: None,
    };
    let second = CallPosition { provider: 1, attempt: 0 };
    assert!(matches!(p.next(start, broke), RetryStep::Call { next } if next == second));
    let fatal = CallOutcome::Failure {
        retryable: false,
        balance_exhausted: false,
        retry_after_ms: None,
    };
    assert!(matches!(p.next(second, fatal), RetryStep::GiveUp));
    assert_eq!(all_failed_message(true), "All providers failed for streaming");
}

#[test]
fn long_waits_are_shown() {
    assert!(shows_wait(10_000, true, true, true));
    assert!(!shows_wait(9_999, true, true, true));
    assert!(!shows_wait(10_000, false, true, true));
    let status = retry_pause_status(&config(), 12_000, 1, "slow");
    match status {
        SessionStatus::Paused { iteration, max_iterations, retry_info } => {
            assert_eq!(iteration, None);
            assert_eq!(max_iterations, None);
            let info = retry_info.unwrap();
            assert_eq!(info.wait_ms, 12_000);
            assert_eq!(info.attempt, 1);
            assert_eq!(info.max_attempts, 3);
            assert_eq!(info.provider, "slow");
        }
        other => panic!("unexpected status {:?}", other),
    }
    let state = retry_wait_state(&config(), 12_000, 1, "slow");
    assert_eq!(state.wait_ms, 12_000);
    assert_eq!(state.provider_name, "slow");
    assert_eq!(resumed_status(), SessionStatus::Streaming { message_id: None });
}

#[test]
fn manifest_providers_keep_their_own_keys() {
    let manifest = vec![
        ManifestProvider {
            name: "a".to_string(),
            model: "m1".to_string(),
            api_key_ref: Some("own".to_string()),
            base_url: None,
        },
        ManifestProvider {
            name: "b".to_string(),
            model: "m2".to_string(),
            api_key_ref: None,
            base_url: Some("http://b".to_string()),
        },
    ];
    let planned = plan_providers(&manifest, &Some("key".to_string()), &None);
    assert_eq!(planned.len(), 2);
    assert_eq!(planned[0].api_key.as_deref(), Some("own"));
    assert_eq!(planned[0].base_url, None);
    assert_eq!(planned[1].api_key.as_deref(), Some("key"));
    assert_eq!(planned[1].base_url.as_deref(), Some("http://b"));
    assert_eq!(planned[1].model, "m2");
}

#[test]
fn test_is_retryable() {
    assert!(is_retryable(FailureKind::Network));
    assert!(!is_retryable(FailureKind::of_status(401)));
    assert!(is_retryable(FailureKind::RateLimited));
    assert!(is_retryable(FailureKind::of_status(429)));
    assert!(is_retryable(FailureKind::of_status(503)));
    assert!(!is_retryable(FailureKind::Unknown));
}

#[test]
fn test_is_balance_exhausted_generic() {
    assert!(is_balance_exhausted("insufficient_quota"));
    assert!(is_balance_exhausted("out of credits"));
    assert!(is_balance_exhausted("Out Of Credits"));
    assert!(!reads_as_exhausted("Out Of Credits"));
}

#[test]
fn test_is_balance_exhausted_minimax_codes() {
    assert!(is_balance_exhausted("Error code 1113: balance exhausted"));
    assert!(is_balance_exhausted("Code 1311: insufficient balance"));
}

#[test]
fn test_is_balance_exhausted_non_matching() {
    assert!(!is_balance_exhausted("500 internal error"));
}

#[test]
fn test_is_minimax_balance_code() {
    assert!(is_minimax_balance_code("error code 1113"));
    assert!(is_minimax_balance_code("code 1311"));
    assert!(!is_minimax_balance_code("generic error"));
}

#[test]
fn only_a_backoff_has_to_fit() {
    let config = RetryConfig {
        max_attempts: 3,
        backoff: BackoffStrategy::Exponential { base_ms: u64::MAX },
        max_wait_ms: 10,
    };
    let p = ReliableProvider::new("a".to_string(), config).with_fallback("b".to_string());
    let at = CallPosition { provider: 0, attempt: 1 };
    assert!(matches!(p.next(at, CallOutcome::Success), RetryStep::Return));
    let failure = |retryable: bool, retry_after_ms: Option<u64>| CallOutcome::Failure {
        retryable,
        balance_exhausted: false,
        retry_after_ms,
    };
    let second = CallPosition { provider: 1, attempt: 0 };
    assert!(matches!(p.next(at, failure(false, None)), RetryStep::Call { next } if next == second));
    assert!(matches!(
        p.next(at, failure(true, Some(4))),
        RetryStep::WaitAndCall { wait_ms: 4, next } if next.attempt == 2
    ));
    let last = CallPosition { provider: 0, attempt: 2 };
    assert!(matches!(p.next(last, failure(true, None)), RetryStep::Call { next } if next == second));
}

#[test]
fn a_request_ends_with_the_first_answer() {
    let config = RetryConfig {
        max_attempts: 2,
        backoff: BackoffStrategy::Fixed { delay_ms: 1 },
        max_wait_ms: 10,
    };
    let p = ReliableProvider::new("a".to_string(), config).with_fallback("b".to_string());
    let run = |outcomes: Vec<CallOutcome>| {
        let mut step = p.start();
        let mut calls = Vec::new();
        for outcome in outcomes {
            let next = match step {
                RetryStep::Call { next } | RetryStep::WaitAndCall { next, .. } => next,
                _ => break,
            };
            calls.push((next.provider, next.attempt));
            step = p.next(next, outcome);
        }
        (calls, step)
    };
    let failure = |retryable: bool| CallOutcome::Failure {
        retryable,
        balance_exhausted: false,
        retry_after_ms: None,
    };
    let (calls, end) = run(vec![failure(true), failure(true), CallOutcome::Success, failure(true)]);
    assert_eq!(calls, vec![(0, 0), (0, 1), (1, 0)]);
    assert!(matches!(end, RetryStep::Return));
    let (calls, end) = run(vec![failure(false), failure(true), failure(true), failure(true)]);
    assert_eq!(calls, vec![(0, 0), (1, 0), (1, 1)]);
    assert!(matches!(end, RetryStep::GiveUp));
}
