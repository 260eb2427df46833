//! Whether and when a process that failed is started again.
use vstd::arithmetic::power2::{lemma_pow2_strictly_increases, pow2};
use vstd::prelude::*;

use crate::models::{RestartPolicy, RestartPolicyKind};

verus! {

/// No restart waits longer.
pub const RESTART_BACKOFF_CAP_MS: u64 = 192_000;

/// The wait doubles with each attempt up to this many times.
pub const RESTART_BACKOFF_MAX_EXPONENT: u32 = 6;

/// A process that ran this long before it failed starts again with a fresh count of attempts.
pub const RESTART_STABLE_RESET_MS: u64 = 192_000;

/// The shortest wait that a policy can ask for.
pub const RESTART_MIN_DELAY_MS: u64 = 500;

/// The wait where the policy names none.
pub const RESTART_DEFAULT_DELAY_MS: u64 = 3000;

/// A policy allows another attempt after `count` of them.
pub open spec fn may_retry(policy: RestartPolicy, count: u32) -> bool {
    match policy.kind {
        RestartPolicyKind::Never => false,
        RestartPolicyKind::Always => true,
        RestartPolicyKind::OnFailure => true,
        RestartPolicyKind::LimitedRetries => match policy.max_retries {
            Some(max) => count < max,
            None => false,
        },
    }
}

/// Whether a policy allows another attempt after `current_count` of them.
pub fn retry_eligible(policy: &RestartPolicy, current_count: u32) -> (r: bool)
    ensures
        r == may_retry(*policy, current_count),
{
    match policy.kind {
        RestartPolicyKind::Never => false,
        RestartPolicyKind::Always | RestartPolicyKind::OnFailure => true,
        RestartPolicyKind::LimitedRetries => match policy.max_retries {
            Some(max) => current_count < max,
            None => false,
        },
    }
}

pub open spec fn at_least(a: int, b: int) -> int {
    if a >= b {
        a
    } else {
        b
    }
}

pub open spec fn at_most(a: int, b: int) -> int {
    if a <= b {
        a
    } else {
        b
    }
}

/// The wait before an attempt: the base, doubled with each attempt, up to the cap.
pub open spec fn restart_delay(base_ms: int, attempt: int) -> int {
    at_most(
        at_least(base_ms, RESTART_MIN_DELAY_MS as int) * pow2(
            at_most(attempt, RESTART_BACKOFF_MAX_EXPONENT as int) as nat,
        ),
        RESTART_BACKOFF_CAP_MS as int,
    )
}

/// The wait before an attempt, in milliseconds.
pub fn compute_restart_delay_ms(base_ms: u64, attempt: u32) -> (r: u64)
    ensures
        r == restart_delay(base_ms as int, attempt as int),
{
    let base: u64 = if base_ms < RESTART_MIN_DELAY_MS {
        RESTART_MIN_DELAY_MS
    } else {
        base_ms
    };
    let exponent: u32 = if attempt < RESTART_BACKOFF_MAX_EXPONENT {
        attempt
    } else {
        RESTART_BACKOFF_MAX_EXPONENT
    };
    let mut factor: u64 = 1;
    let mut i: u32 = 0;
    proof {
        vstd::arithmetic::power2::lemma2_to64();
    }
    while i < exponent
        invariant
            i <= exponent <= 6,
            factor == pow2(i as nat),
            factor <= 64,
            i < 6 ==> factor <= 32,
            i < 5 ==> factor <= 16,
            i < 4 ==> factor <= 8,
            i < 3 ==> factor <= 4,
            i < 2 ==> factor <= 2,
            i < 1 ==> factor <= 1,
        decreases exponent - i,
    {
        proof {
            vstd::arithmetic::power2::lemma_pow2_unfold((i + 1) as nat);
        }
        factor = factor * 2;
        i += 1;
    }
    assert(exponent as nat == at_most(attempt as int, RESTART_BACKOFF_MAX_EXPONENT as int) as nat);
    let delay: u64 = match base.checked_mul(factor) {
        Some(product) => product,
        None => u64::MAX,
    };
    if delay < RESTART_BACKOFF_CAP_MS {
        delay
    } else {
        RESTART_BACKOFF_CAP_MS
    }
}

/// Every wait lies between the shortest and the cap, and neither a later attempt nor a policy
/// that asks for more waits less.
pub proof fn law_restart_delay_bounded_and_growing(
    base_ms: u64,
    attempt: u32,
    longer_ms: u64,
    later: u32,
)
    requires
        base_ms <= longer_ms,
        attempt <= later,
    ensures
        RESTART_MIN_DELAY_MS <= restart_delay(base_ms as int, attempt as int)
            <= RESTART_BACKOFF_CAP_MS,
        restart_delay(base_ms as int, attempt as int) <= restart_delay(
            longer_ms as int,
            later as int,
        ),
{
    let base = at_least(base_ms as int, RESTART_MIN_DELAY_MS as int);
    let longer = at_least(longer_ms as int, RESTART_MIN_DELAY_MS as int);
    let e1 = at_most(attempt as int, RESTART_BACKOFF_MAX_EXPONENT as int) as nat;
    let e2 = at_most(later as int, RESTART_BACKOFF_MAX_EXPONENT as int) as nat;
    vstd::arithmetic::power2::lemma2_to64();
    assert(pow2(0) == 1);
    if 0 < e1 {
        lemma_pow2_strictly_increases(0, e1);
    }
    if e1 < e2 {
        lemma_pow2_strictly_increases(e1, e2);
    }
    assert(base * 1 <= base * pow2(e1)) by (nonlinear_arith)
        requires
            1 <= pow2(e1),
            0 <= base,
    ;
    assert(base * pow2(e1) <= longer * pow2(e2)) by (nonlinear_arith)
        requires
            0 <= pow2(e1) <= pow2(e2),
            0 <= base <= longer,
    ;
}

/// Once a limited policy refuses, it refuses every higher count too; the other policies do not
/// look at the count.
pub proof fn law_retries_run_out(policy: RestartPolicy, count: u32, more: u32)
    requires
        count <= more,
        may_retry(policy, more),
    ensures
        may_retry(policy, count),
{
}

} // verus!
