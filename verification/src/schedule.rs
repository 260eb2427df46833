//! Starting processes again by themselves.
use vstd::prelude::*;

use crate::clock::{millis_between, whole_millis, Timestamp};
use crate::models::{
    Config, ConfigView, LogLevel, ProcessDefinition, ProcessDefinitionView, ProcessRuntimeStateView,
    ProcessStatus, RestartPolicyKind,
};
use crate::restart::{
    compute_restart_delay_ms, may_retry, restart_delay, retry_eligible, RESTART_DEFAULT_DELAY_MS,
    RESTART_STABLE_RESET_MS,
};
use crate::runtime::{Effect, EffectView, Runtime, RuntimeEvent, RuntimeView, Stamp, StampView};
use crate::text::{around_number, decimal};

verus! {

/// A process had been running long enough before it failed.
pub open spec fn ran_stably(runtime: ProcessRuntimeStateView, now: Timestamp) -> bool {
    runtime.started_at matches Some(started_at) && whole_millis(
        now.total_nanos() - started_at.total_nanos(),
    ) >= RESTART_STABLE_RESET_MS
}

impl RuntimeView {
    /// The attempts that count: none where the process had been running long enough.
    pub open spec fn attempts(self, process_id: Seq<char>, now: Timestamp) -> u32 {
        if ran_stably(self.state_of(process_id), now) {
            0
        } else {
            self.state_of(process_id).restart_count
        }
    }

    /// The attempts of a process are counted anew where it had been running long enough.
    pub open spec fn with_attempts_reset(
        self,
        process_id: Seq<char>,
        now: Timestamp,
    ) -> RuntimeView {
        let runtime = self.state_of(process_id);
        if ran_stably(runtime, now) && runtime.restart_count > 0 {
            RuntimeView {
                states: self.states.insert(
                    process_id,
                    ProcessRuntimeStateView { restart_count: 0, ..runtime },
                ),
                ..self
            }
        } else {
            self
        }
    }

    /// A process that failed is to be started again, if its policy allows it.
    pub open spec fn with_restart_scheduled(
        self,
        config: ConfigView,
        process: ProcessDefinitionView,
        now: Timestamp,
        stamp: StampView,
    ) -> RuntimeView {
        let policy = process.restart_policy;
        let count = self.attempts(process.id, now);
        let counted = self.with_attempts_reset(process.id, now);
        if may_retry(policy, count) {
            let base_ms = match policy.retry_delay_ms {
                Some(delay) => delay,
                None => RESTART_DEFAULT_DELAY_MS,
            };
            let delay_ms = restart_delay(base_ms as int, count as int);
            counted.with_note(
                config,
                process,
                LogLevel::Info,
                "Auto-restart scheduled in "@ + decimal(delay_ms as nat) + "ms (attempt "@
                    + decimal((count + 1) as nat) + ")"@,
                stamp,
            ).with_effect(
                EffectView::RestartLater { process_id: process.id, delay_ms: delay_ms as u64 },
            )
        } else {
            match policy.max_retries {
                Some(max) if policy.kind is LimitedRetries => counted.with_note(
                    config,
                    process,
                    LogLevel::Warn,
                    "Auto-restart limit reached ("@ + decimal(max as nat) + "); not retrying"@,
                    stamp,
                ),
                _ => counted,
            }
        }
    }

    /// The wait before an automatic restart is over and the process is still down.
    pub open spec fn restart_due(self, process_id: Seq<char>) -> bool {
        self.states.contains_key(process_id) && (self.states[process_id].current_status is Crashed
            || self.states[process_id].current_status is Failed)
    }

    /// One more attempt is counted.
    pub open spec fn with_attempt_counted(self, process_id: Seq<char>) -> RuntimeView {
        let runtime = self.state_of(process_id);
        RuntimeView {
            states: self.states.insert(
                process_id,
                ProcessRuntimeStateView {
                    restart_count: (runtime.restart_count + 1) as u32,
                    ..runtime
                },
            ),
            ..self
        }
    }

    /// With the restart of a process counted and told, where it is due.
    pub open spec fn with_due_restart(
        self,
        config: ConfigView,
        process_id: Seq<char>,
    ) -> RuntimeView {
        if self.restart_due(process_id) {
            let counted = self.with_attempt_counted(process_id);
            counted.with_state(config, counted.state_of(process_id), RuntimeEvent::Failed)
        } else {
            self
        }
    }
}

impl Runtime {
    /// Has a process that failed started again after a wait, if its policy allows it.
    pub fn schedule_auto_restart_if_eligible(
        &mut self,
        config: &Config,
        process: &ProcessDefinition,
        now: Timestamp,
        stamp: Stamp,
    )
        ensures
            final(self).deep_view() == old(self).deep_view().with_restart_scheduled(
                config.deep_view(),
                process.deep_view(),
                now,
                stamp.deep_view(),
            ),
    {
        let policy = process.restart_policy;
        let ghost before = self.deep_view();
        let mut runtime = self.state_of(process.id.as_str());
        let stable = match runtime.started_at {
            Some(started_at) => millis_between(now, started_at) >= RESTART_STABLE_RESET_MS as i64,
            None => false,
        };
        let count: u32 = if stable {
            0
        } else {
            runtime.restart_count
        };
        if stable && runtime.restart_count > 0 {
            runtime.restart_count = 0;
            self.states.insert(process.id.clone(), runtime);
        }
        assert(self.deep_view() == before.with_attempts_reset(process.id@, now));
        assert(count == before.attempts(process.id@, now));
        if !retry_eligible(&policy, count) {
            if matches!(policy.kind, RestartPolicyKind::LimitedRetries) {
                if let Some(max) = policy.max_retries {
                    let message = around_number(
                        "Auto-restart limit reached (",
                        max as u64,
                        "); not retrying",
                    );
                    self.note(config, process, LogLevel::Warn, message, stamp);
                }
            }
            return;
        }
        let base_ms: u64 = match policy.retry_delay_ms {
            Some(delay) => delay,
            None => RESTART_DEFAULT_DELAY_MS,
        };
        let delay_ms = compute_restart_delay_ms(base_ms, count);
        let head = around_number("Auto-restart scheduled in ", delay_ms, "ms (attempt ");
        let message = around_number(head.as_str(), count as u64 + 1, ")");
        self.note(config, process, LogLevel::Info, message, stamp);
        self.queue(Effect::RestartLater { process_id: process.id.clone(), delay_ms });
    }

    /// The wait before an automatic restart is over: says whether the process is to be started,
    /// and counts the attempt if so.
    pub fn auto_restart_due(&mut self, config: &Config, process_id: &str) -> (r: bool)
        requires
            old(self).deep_view().restart_due(process_id@) ==> old(self).deep_view().state_of(
                process_id@,
            ).restart_count < u32::MAX,
        ensures
            r == old(self).deep_view().restart_due(process_id@),
            final(self).deep_view() == old(self).deep_view().with_due_restart(
                config.deep_view(),
                process_id@,
            ),
    {
        let due = match self.states.get(process_id) {
            Some(runtime) => matches!(
                runtime.current_status,
                ProcessStatus::Crashed | ProcessStatus::Failed
            ),
            None => false,
        };
        if due {
            self.count_restart(process_id);
            let runtime = self.state_of(process_id);
            self.set_runtime(config, &runtime, RuntimeEvent::Failed);
        }
        due
    }

    /// Counts one more attempt.
    pub fn count_restart(&mut self, process_id: &str)
        requires
            old(self).deep_view().state_of(process_id@).restart_count < u32::MAX,
        ensures
            final(self).deep_view() == old(self).deep_view().with_attempt_counted(process_id@),
    {
        let mut runtime = self.state_of(process_id);
        runtime.restart_count = runtime.restart_count + 1;
        self.states.insert(process_id.to_string(), runtime);
    }
}

/// For a process that ran for the stable span before it failed the attempts are counted anew.
pub proof fn law_stable_run_starts_over(
    rt: RuntimeView,
    config: ConfigView,
    process: ProcessDefinitionView,
    now: Timestamp,
    stamp: StampView,
)
    requires
        ran_stably(rt.state_of(process.id), now),
    ensures
        rt.attempts(process.id, now) == 0,
        rt.with_restart_scheduled(config, process, now, stamp).state_of(process.id).restart_count
            == 0,
{
}

/// A restart is scheduled exactly if the policy allows another attempt.
pub proof fn law_restart_scheduled_iff_allowed(
    rt: RuntimeView,
    config: ConfigView,
    process: ProcessDefinitionView,
    now: Timestamp,
    stamp: StampView,
)
    ensures
        ({
            let after = rt.with_restart_scheduled(config, process, now, stamp);
            let added = after.effects.skip(rt.effects.len() as int);
            (exists|i: int|
                0 <= i < added.len() && (#[trigger] added[i]) is RestartLater) <==> may_retry(
                process.restart_policy,
                rt.attempts(process.id, now),
            )
        }),
{
    let after = rt.with_restart_scheduled(config, process, now, stamp);
    let added = after.effects.skip(rt.effects.len() as int);
    if may_retry(process.restart_policy, rt.attempts(process.id, now)) {
        assert(added[1] is RestartLater);
    } else {
        assert forall|i: int| 0 <= i < added.len() implies !((
        #[trigger] added[i]) is RestartLater) by {
            assert(after.effects[i + rt.effects.len()] == added[i]);
        }
    }
}

} // verus!
