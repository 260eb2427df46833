use karvon::models::{RestartPolicy, RestartPolicyKind};
use karvon::restart::{compute_restart_delay_ms, retry_eligible, RESTART_BACKOFF_CAP_MS};

fn policy(kind: RestartPolicyKind, max_retries: Option<u32>) -> RestartPolicy {
    RestartPolicy { kind, max_retries, retry_delay_ms: None }
}

#[test]
fn retry_eligible_never_policy_returns_false() {
    assert!(!retry_eligible(&policy(RestartPolicyKind::Never, None), 0));
    assert!(!retry_eligible(&policy(RestartPolicyKind::Never, Some(5)), 0));
}

#[test]
fn retry_eligible_on_failure_always_retries() {
    assert!(retry_eligible(&policy(RestartPolicyKind::OnFailure, None), 0));
    assert!(retry_eligible(&policy(RestartPolicyKind::OnFailure, None), 999));
}

#[test]
fn retry_eligible_always_policy_always_retries() {
    assert!(retry_eligible(&policy(RestartPolicyKind::Always, None), 0));
    assert!(retry_eligible(&policy(RestartPolicyKind::Always, None), 999));
}

#[test]
fn retry_eligible_limited_retries_respects_max() {
    assert!(retry_eligible(&policy(RestartPolicyKind::LimitedRetries, Some(3)), 0));
    assert!(retry_eligible(&policy(RestartPolicyKind::LimitedRetries, Some(3)), 2));
    assert!(!retry_eligible(&policy(RestartPolicyKind::LimitedRetries, Some(3)), 3));
    assert!(!retry_eligible(&policy(RestartPolicyKind::LimitedRetries, Some(3)), 10));
}

#[test]
fn retry_eligible_limited_retries_with_no_max_does_not_retry() {
    assert!(!retry_eligible(&policy(RestartPolicyKind::LimitedRetries, None), 0));
    assert!(!retry_eligible(&policy(RestartPolicyKind::LimitedRetries, None), 10_000));
}

#[test]
fn compute_restart_delay_grows_exponentially_then_caps() {
    assert_eq!(compute_restart_delay_ms(3000, 0), 3000);
    assert_eq!(compute_restart_delay_ms(3000, 1), 6000);
    assert_eq!(compute_restart_delay_ms(3000, 2), 12000);
    assert_eq!(compute_restart_delay_ms(3000, 6), RESTART_BACKOFF_CAP_MS);
    assert_eq!(compute_restart_delay_ms(3000, 20), RESTART_BACKOFF_CAP_MS);
}

#[test]
fn compute_restart_delay_enforces_minimum_base() {
    assert_eq!(compute_restart_delay_ms(100, 0), 500);
    assert_eq!(compute_restart_delay_ms(0, 0), 500);
}

#[test]
fn restart_delay_never_overflows() {
    assert_eq!(compute_restart_delay_ms(u64::MAX, 6), RESTART_BACKOFF_CAP_MS);
    assert_eq!(compute_restart_delay_ms(u64::MAX, u32::MAX), RESTART_BACKOFF_CAP_MS);
    assert_eq!(compute_restart_delay_ms(0, 6), 32_000);
}

#[test]
fn later_attempts_wait_no_less() {
    for base in [0, 500, 2999, 3000, 100_000, 500_000] {
        let mut last = 500;
        for attempt in 0..10 {
            let delay = compute_restart_delay_ms(base, attempt);
            assert!(last <= delay && delay <= RESTART_BACKOFF_CAP_MS);
            assert!(delay <= compute_restart_delay_ms(base + 1000, attempt));
            last = delay;
        }
    }
}
