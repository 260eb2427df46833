//! When a process that failed is started again.
use vstd::arithmetic::power2::{lemma2_to64, lemma_pow2_adds, pow2};
use vstd::prelude::*;

use crate::clock::{nanos_of, whole_millis, Timestamp};
use crate::models::{
    ConfigView, LogLevel, ProcessDefinitionView, ProcessRuntimeStateView, ProcessStatus,
    RestartPolicy, RestartPolicyKind, StreamType,
};
use crate::restart::{may_retry, restart_delay};
use crate::runtime::{EffectView, RuntimeEvent, RuntimeView, StampView};
use crate::text::decimal;

verus! {

/// How often a process was started again, as far as it counts: what its state says, or nothing
/// where it had been running for 192 seconds.
pub open spec fn tries(rt: RuntimeView, process_id: Seq<char>, now: Timestamp) -> nat {
    if !rt.states.contains_key(process_id) {
        0
    } else {
        match rt.states[process_id].started_at {
            Some(started) if now.total_nanos() - started.total_nanos() >= 192_000_000_000 => 0,
            _ => rt.states[process_id].restart_count as nat,
        }
    }
}

/// A restart is asked for by the last of what is to be done.
pub open spec fn asks_for_restart(rt: RuntimeView, process_id: Seq<char>) -> bool {
    rt.effects.len() > 0 && (rt.effects.last() matches EffectView::RestartLater {
        process_id: id,
        ..
    } && id == process_id)
}

pub open spec fn asked_wait(rt: RuntimeView) -> u64 {
    match rt.effects.last() {
        EffectView::RestartLater { delay_ms, .. } => delay_ms,
        _ => 0,
    }
}

proof fn lemma_tries(rt: RuntimeView, process_id: Seq<char>, now: Timestamp)
    ensures
        rt.attempts(process_id, now) as nat == tries(rt, process_id, now),
{
}

/// A restart is asked for at once or not at all: under a policy that always or on failure
/// restarts it is, under one that never does it is not, and under a limited one it is while the
/// count is below the limit.
pub proof fn law_policy_decides_restarts(
    rt: RuntimeView,
    config: ConfigView,
    process: ProcessDefinitionView,
    now: Timestamp,
    stamp: StampView,
)
    ensures
        ({
            let after = rt.with_restart_scheduled(config, process, now, stamp);
            let asked = asks_for_restart(after, process.id) && after.effects.len()
                == rt.effects.len() + 2;
            &&& rt.effects.is_prefix_of(after.effects)
            &&& process.restart_policy.kind == RestartPolicyKind::Always ==> asked
            &&& process.restart_policy.kind == RestartPolicyKind::OnFailure ==> asked
            &&& process.restart_policy.kind == RestartPolicyKind::Never ==> after.effects
                == rt.effects
            &&& process.restart_policy.kind == RestartPolicyKind::LimitedRetries ==> (
            match process.restart_policy.max_retries {
                Some(max) => if tries(rt, process.id, now) < max {
                    asked
                } else {
                    after.effects.len() == rt.effects.len() + 1 && after.effects.last() is Log
                        && after.logs == rt.with_log(
                        config,
                        process,
                        StreamType::System,
                        LogLevel::Warn,
                        "Auto-restart limit reached ("@ + decimal(max as nat)
                            + "); not retrying"@,
                        stamp,
                    ).logs
                },
                None => after.effects == rt.effects,
            })
        }),
{
    lemma_tries(rt, process.id, now);
    let after = rt.with_restart_scheduled(config, process, now, stamp);
    assert(rt.effects =~= after.effects.subrange(0, rt.effects.len() as int));
}

/// The wait is the policy's, three seconds where it names none and half a second at least,
/// doubled with each try up to six times, and 192 seconds at most. The log says the wait and the
/// number of the try.
pub proof fn law_wait_doubles_with_each_try(
    rt: RuntimeView,
    config: ConfigView,
    process: ProcessDefinitionView,
    now: Timestamp,
    stamp: StampView,
)
    requires
        asks_for_restart(rt.with_restart_scheduled(config, process, now, stamp), process.id),
        rt.with_restart_scheduled(config, process, now, stamp).effects.len() > rt.effects.len(),
    ensures
        ({
            let after = rt.with_restart_scheduled(config, process, now, stamp);
            let asked: int = match process.restart_policy.retry_delay_ms {
                Some(ms) => ms as int,
                None => 3000,
            };
            let base: int = if asked < 500 {
                500
            } else {
                asked
            };
            let n = tries(rt, process.id, now);
            let doubled = base * pow2(
                if n < 6 {
                    n
                } else {
                    6
                },
            );
            &&& asked_wait(after) == (if doubled < 192_000 {
                doubled
            } else {
                192_000
            })
            &&& after.effects[rt.effects.len() as int] matches EffectView::Log { entry }
                && entry.message == "Auto-restart scheduled in "@ + decimal(
                asked_wait(after) as nat,
            ) + "ms (attempt "@ + decimal(n + 1) + ")"@
        }),
{
    lemma_tries(rt, process.id, now);
}

/// Below the cap, a process that was started again m - n times more often waits 2 to the m - n
/// times as long.
pub proof fn law_waits_grow_by_powers_of_two(
    rt: RuntimeView,
    later: RuntimeView,
    config: ConfigView,
    process: ProcessDefinitionView,
    now: Timestamp,
    stamp: StampView,
    later_stamp: StampView,
    n: nat,
    m: nat,
)
    requires
        n == tries(rt, process.id, now),
        m == tries(later, process.id, now),
        n <= m <= 6,
        asks_for_restart(rt.with_restart_scheduled(config, process, now, stamp), process.id),
        rt.with_restart_scheduled(config, process, now, stamp).effects.len() > rt.effects.len(),
        asks_for_restart(
            later.with_restart_scheduled(config, process, now, later_stamp),
            process.id,
        ),
        later.with_restart_scheduled(config, process, now, later_stamp).effects.len()
            > later.effects.len(),
        asked_wait(later.with_restart_scheduled(config, process, now, later_stamp)) < 192_000,
    ensures
        asked_wait(later.with_restart_scheduled(config, process, now, later_stamp)) == asked_wait(
            rt.with_restart_scheduled(config, process, now, stamp),
        ) * pow2((m - n) as nat),
{
    law_wait_doubles_with_each_try(rt, config, process, now, stamp);
    law_wait_doubles_with_each_try(later, config, process, now, later_stamp);
    let asked: int = match process.restart_policy.retry_delay_ms {
        Some(ms) => ms as int,
        None => 3000,
    };
    let base: int = if asked < 500 {
        500
    } else {
        asked
    };
    let d = (m - n) as nat;
    lemma_pow2_adds(n, d);
    assert(pow2(m) == pow2(n) * pow2(d));
    lemma2_to64();
    assert(1 <= pow2(d)) by {
        vstd::arithmetic::power2::lemma_pow2_pos(d);
    }
    assert(0 < pow2(n)) by {
        vstd::arithmetic::power2::lemma_pow2_pos(n);
    }
    assert(base * pow2(m) == (base * pow2(n)) * pow2(d)) by (nonlinear_arith)
        requires
            pow2(m) == pow2(n) * pow2(d),
    ;
    assert(base * pow2(n) <= (base * pow2(n)) * pow2(d)) by (nonlinear_arith)
        requires
            1 <= pow2(d),
            0 <= base * pow2(n),
    ;
    assert(0 <= base * pow2(n)) by (nonlinear_arith)
        requires
            0 <= base,
            0 < pow2(n),
    ;
}

/// The wait for a base and a number of tries: the base, half a second at least, doubled with each
/// try up to six times, and 192 seconds at most.
pub proof fn law_waits(base: u64, attempt: u32)
    ensures
        attempt < 6 && base >= 500 && base * pow2(attempt as nat) <= 192_000 ==> restart_delay(
            base as int,
            attempt as int,
        ) == base * pow2(attempt as nat),
        base < 500 ==> restart_delay(base as int, attempt as int) == restart_delay(
            500,
            attempt as int,
        ),
        attempt >= 6 ==> restart_delay(base as int, attempt as int) == restart_delay(
            base as int,
            6,
        ),
        restart_delay(base as int, 0) == (if base < 500 {
            500
        } else if base < 192_000 {
            base as int
        } else {
            192_000
        }),
        attempt < 6 ==> restart_delay(base as int, attempt as int + 1) == (if restart_delay(
            base as int,
            attempt as int,
        ) * 2 < 192_000 {
            restart_delay(base as int, attempt as int) * 2
        } else {
            192_000
        }),
{
    lemma2_to64();
    let least: int = if base < 500 {
        500
    } else {
        base as int
    };
    assert(least * pow2(0) == least) by (nonlinear_arith)
        requires
            pow2(0) == 1,
    ;
    if attempt < 6 {
        lemma_pow2_adds(attempt as nat, 1);
        assert(pow2(attempt as nat + 1) == pow2(attempt as nat) * 2);
        assert(least * pow2(attempt as nat + 1) == least * pow2(attempt as nat) * 2)
            by (nonlinear_arith)
            requires
                pow2(attempt as nat + 1) == pow2(attempt as nat) * 2,
        ;
    }
}

/// How long is waited between looks at what runs, and before what is asked for shows.
pub proof fn law_pauses()
    ensures
        crate::stop::STOP_POLL_INTERVAL_MS == 100,
        crate::stop::FORCE_KILL_PAUSE_MS == 200,
        crate::requests::STOP_WAIT_INTERVAL_MS == 100,
        crate::requests::STOP_WAIT_MARGIN_MS == 1_000,
        crate::memory::MEMORY_WATCH_INTERVAL_SECS == 2,
        crate::launchd::LAUNCHD_MONITOR_INTERVAL_SECS == 15,
        crate::launchd::LAUNCHD_MONITOR_DELAY_SECS == 5,
        crate::launchd::LAUNCHD_SETTLE_MS == 600,
        crate::launchd::LAUNCHD_RESTART_SETTLE_MS == 800,
        crate::clock::LOG_HISTORY_WINDOW_MINUTES == 5,
{
}

/// A span of time in whole milliseconds is the span without what is left of one, on either side of
/// nought.
pub proof fn law_whole_milliseconds(nanos: int)
    ensures
        nanos >= 0 ==> whole_millis(nanos) * 1_000_000 <= nanos < (whole_millis(nanos) + 1)
            * 1_000_000,
        whole_millis(-nanos) == -whole_millis(nanos),
        nanos_of(nanos) == nanos * 1_000_000_000,
{
}

/// A restart is allowed always, never, on failure, or while the count is below the limit that is
/// set.
pub proof fn law_who_may_retry(policy: RestartPolicy, count: u32)
    ensures
        policy.kind == RestartPolicyKind::Always || policy.kind == RestartPolicyKind::OnFailure
            ==> may_retry(policy, count),
        policy.kind == RestartPolicyKind::Never ==> !may_retry(policy, count),
        policy.kind == RestartPolicyKind::LimitedRetries ==> (may_retry(policy, count)
            <==> policy.max_retries is Some && count < policy.max_retries->0),
{
}

/// Asking for a restart touches no state but that the tries of a process that had been running
/// for 192 seconds are counted anew, and neither tracking nor requests to stop.
pub proof fn law_asking_for_a_restart_changes_little(
    rt: RuntimeView,
    config: ConfigView,
    process: ProcessDefinitionView,
    now: Timestamp,
    stamp: StampView,
    id: Seq<char>,
)
    ensures
        ({
            let after = rt.with_restart_scheduled(config, process, now, stamp);
            &&& after.pids == rt.pids
            &&& after.process_records == rt.process_records
            &&& after.remote_pids == rt.remote_pids
            &&& after.stopping_processes == rt.stopping_processes
            &&& after.states.contains_key(id) <==> rt.states.contains_key(id)
            &&& id != process.id && rt.states.contains_key(id) ==> after.states[id]
                == rt.states[id]
            &&& rt.states.contains_key(process.id) ==> after.states[process.id] == (
            ProcessRuntimeStateView {
                restart_count: tries(rt, process.id, now) as u32,
                ..rt.states[process.id]
            })
        }),
{
    lemma_tries(rt, process.id, now);
    let after = rt.with_restart_scheduled(config, process, now, stamp);
    if rt.states.contains_key(process.id) {
        assert(after.states[process.id] =~= (ProcessRuntimeStateView {
            restart_count: tries(rt, process.id, now) as u32,
            ..rt.states[process.id]
        }));
    }
}

/// A restart that is due is counted in the state of the process, and whoever listens is told of the
/// failure with that state; one that is not changes nothing.
pub proof fn law_due_restarts_are_counted(
    rt: RuntimeView,
    config: ConfigView,
    process_id: Seq<char>,
)
    requires
        rt.state_of(process_id).process_id == process_id,
        rt.state_of(process_id).restart_count < u32::MAX,
    ensures
        ({
            let after = rt.with_due_restart(config, process_id);
            let down = rt.states.contains_key(process_id) && (rt.states[process_id].current_status
                == ProcessStatus::Crashed || rt.states[process_id].current_status
                == ProcessStatus::Failed);
            let state = after.states[process_id];
            &&& !down ==> after == rt
            &&& down ==> {
                &&& after.states == rt.states.insert(process_id, state)
                &&& state.restart_count == rt.states[process_id].restart_count + 1
                &&& state == (ProcessRuntimeStateView {
                    restart_count: state.restart_count,
                    ..rt.states[process_id]
                })
                &&& after.effects[rt.effects.len() as int] == (EffectView::Emit {
                    event: RuntimeEvent::Failed,
                    runtime: state,
                })
                &&& after.pids == rt.pids && after.process_records == rt.process_records
                &&& after.logs == rt.logs
            }
        }),
{
}

/// When the wait is over, the process is started again exactly if it is still crashed or failed,
/// and then one more try is counted and told of as a failure.
pub proof fn law_due_restarts_are_of_processes_still_down(rt: RuntimeView, process_id: Seq<char>)
    ensures
        rt.restart_due(process_id) <==> rt.states.contains_key(process_id) && (
        rt.states[process_id].current_status == ProcessStatus::Crashed
            || rt.states[process_id].current_status == ProcessStatus::Failed),
        rt.state_of(process_id).restart_count < u32::MAX ==> {
            let counted = rt.with_attempt_counted(process_id);
            &&& counted.state_of(process_id).restart_count == rt.state_of(process_id).restart_count
                + 1
            &&& counted.states == rt.states.insert(process_id, counted.state_of(process_id))
            &&& counted.state_of(process_id) == (ProcessRuntimeStateView {
                restart_count: counted.state_of(process_id).restart_count,
                ..rt.state_of(process_id)
            })
            &&& counted.effects == rt.effects
            &&& counted.process_records == rt.process_records
        },
{
}

} // verus!
