//! Stopping a process: the request, the signal, the wait, and what follows.
use vstd::prelude::*;

use crate::clock::Timestamp;
use crate::lookup::{process_not_found, process_not_found_error};
use crate::models::{
    ApiError, ApiErrorView, Config, ConfigView, Duplicate, HealthStatus, LaunchdSupervision,
    LaunchdSupervisionView, LogLevel, Machine, MachineView, ProcessDefinition,
    ProcessDefinitionView, ProcessRuntimeState, ProcessRuntimeStateView, ProcessStatus,
};
use crate::platform::{error_of, group_error_text, GroupError, GroupErrorView};
use crate::runtime::{Effect, EffectView, Runtime, RuntimeEvent, RuntimeView, Stamp, StampView};
use crate::text::{around_number, concat, decimal, with_number};

verus! {

/// The pause between two looks at a process group that was asked to stop.
pub const STOP_POLL_INTERVAL_MS: u64 = 100;

/// The pause after a process group was killed.
pub const FORCE_KILL_PAUSE_MS: u64 = 200;

// ---------------------------------------------------------------------------
// The request
// ---------------------------------------------------------------------------

/// A process group that was asked to stop.
pub struct StopPlan {
    pub process: ProcessDefinition,
    pub process_group_id: u32,
    /// The other machine that the process runs on.
    pub machine: Option<Machine>,
    /// The process on the other machine.
    pub remote_pid: Option<u32>,
    pub stop_timeout_ms: u64,
    /// The state of the process.
    pub runtime: ProcessRuntimeState,
}

/// The model of [`StopPlan`].
#[verifier::ext_equal]
pub struct StopPlanView {
    pub process: ProcessDefinitionView,
    pub process_group_id: u32,
    pub machine: Option<MachineView>,
    pub remote_pid: Option<u32>,
    pub stop_timeout_ms: u64,
    pub runtime: ProcessRuntimeStateView,
}

impl DeepView for StopPlan {
    type V = StopPlanView;

    open spec fn deep_view(&self) -> StopPlanView {
        StopPlanView {
            process: self.process.deep_view(),
            process_group_id: self.process_group_id,
            machine: self.machine.deep_view(),
            remote_pid: self.remote_pid,
            stop_timeout_ms: self.stop_timeout_ms,
            runtime: self.runtime.deep_view(),
        }
    }
}

impl Duplicate for StopPlan {
    fn duplicate(&self) -> (r: Self) {
        StopPlan {
            process: self.process.duplicate(),
            process_group_id: self.process_group_id,
            machine: self.machine.duplicate(),
            remote_pid: self.remote_pid,
            stop_timeout_ms: self.stop_timeout_ms,
            runtime: self.runtime.duplicate(),
        }
    }
}

/// What becomes of a request to stop a process.
pub enum StopRequest {
    /// It is refused.
    Refused { error: ApiError },
    /// launchd stops the process.
    Delegated { process: ProcessDefinition, launchd: LaunchdSupervision },
    /// There is nothing to stop.
    Stopped { runtime: ProcessRuntimeState },
    /// The process group is to be asked to end.
    Signal { plan: StopPlan },
}

/// The model of [`StopRequest`].
pub enum StopRequestView {
    Refused { error: ApiErrorView },
    Delegated { process: ProcessDefinitionView, launchd: LaunchdSupervisionView },
    Stopped { runtime: ProcessRuntimeStateView },
    Signal { plan: StopPlanView },
}

impl DeepView for StopRequest {
    type V = StopRequestView;

    open spec fn deep_view(&self) -> StopRequestView {
        match self {
            StopRequest::Refused { error } => StopRequestView::Refused { error: error.deep_view() },
            StopRequest::Delegated { process, launchd } => StopRequestView::Delegated {
                process: process.deep_view(),
                launchd: launchd.deep_view(),
            },
            StopRequest::Stopped { runtime } => StopRequestView::Stopped {
                runtime: runtime.deep_view(),
            },
            StopRequest::Signal { plan } => StopRequestView::Signal { plan: plan.deep_view() },
        }
    }
}

impl RuntimeView {
    /// The process group behind a process: the tracked one, or else the process itself.
    pub open spec fn group_behind(self, process_id: Seq<char>) -> Option<u32> {
        if self.pids.contains_key(process_id) {
            Some(self.pids[process_id])
        } else {
            self.state_of(process_id).pid
        }
    }

    /// The state of a process that had nothing to stop.
    pub open spec fn idle_stopped_state(
        self,
        process_id: Seq<char>,
        now: Timestamp,
    ) -> ProcessRuntimeStateView {
        ProcessRuntimeStateView {
            current_status: ProcessStatus::Stopped,
            stopped_at: Some(now),
            memory_usage: None,
            ..self.state_of(process_id)
        }
    }

    /// The state of a process that was asked to stop.
    pub open spec fn stopping_state(self, process_id: Seq<char>) -> ProcessRuntimeStateView {
        ProcessRuntimeStateView {
            current_status: ProcessStatus::Stopping,
            ..self.state_of(process_id)
        }
    }

    /// The process behind a remote process, if it is known.
    pub open spec fn remote_pid_of(
        self,
        config: ConfigView,
        process: ProcessDefinitionView,
    ) -> Option<u32> {
        if config.remote_machine(process) is Some && self.remote_pids.contains_key(process.id) {
            Some(self.remote_pids[process.id])
        } else {
            None
        }
    }

    /// What becomes of a request to stop a process.
    pub open spec fn stop_request(
        self,
        config: ConfigView,
        process_id: Seq<char>,
        now: Timestamp,
    ) -> StopRequestView {
        match config.process(process_id) {
            None => StopRequestView::Refused { error: process_not_found() },
            Some(process) => match (process.launchd, self.group_behind(process_id)) {
                (Some(launchd), _) => StopRequestView::Delegated { process, launchd },
                (None, None) => StopRequestView::Stopped {
                    runtime: self.idle_stopped_state(process_id, now),
                },
                (None, Some(group)) => StopRequestView::Signal {
                    plan: StopPlanView {
                        process,
                        process_group_id: group,
                        machine: config.remote_machine(process),
                        remote_pid: self.remote_pid_of(config, process),
                        stop_timeout_ms: config.settings.stop_timeout_ms,
                        runtime: self.stopping_state(process_id),
                    },
                },
            },
        }
    }

    /// What a request to stop a process changes at first.
    pub open spec fn with_stop_request(
        self,
        config: ConfigView,
        process_id: Seq<char>,
        now: Timestamp,
        stamp: StampView,
    ) -> RuntimeView {
        match self.stop_request(config, process_id, now) {
            StopRequestView::Stopped { runtime } => self.with_state(
                config,
                runtime,
                RuntimeEvent::Stopped,
            ),
            StopRequestView::Signal { plan } => self.with_stop_requested(
                process_id,
                plan.process_group_id,
            ).with_state(config, plan.runtime, RuntimeEvent::Stopped).with_note(
                config,
                plan.process,
                LogLevel::Info,
                term_note(plan),
                stamp,
            ),
            _ => self,
        }
    }
}

/// What is noted of the signal.
pub open spec fn term_note(plan: StopPlanView) -> Seq<char> {
    match (plan.machine, plan.remote_pid) {
        (Some(_), Some(remote_pid)) => "Sending SIGTERM to ssh client (pid "@ + decimal(
            plan.process_group_id as nat,
        ) + "); remote pid "@ + decimal(remote_pid as nat),
        (Some(_), None) => "Sending SIGTERM to ssh client (pid "@ + decimal(
            plan.process_group_id as nat,
        ) + ")"@,
        (None, _) => "Sending SIGTERM to process group "@ + decimal(plan.process_group_id as nat),
    }
}

impl Runtime {
    /// Takes in a request to stop a process.
    pub fn request_stop(
        &mut self,
        config: &Config,
        process_id: &str,
        now: Timestamp,
        stamp: Stamp,
    ) -> (r: StopRequest)
        ensures
            r.deep_view() == old(self).deep_view().stop_request(
                config.deep_view(),
                process_id@,
                now,
            ),
            final(self).deep_view() == old(self).deep_view().with_stop_request(
                config.deep_view(),
                process_id@,
                now,
                stamp.deep_view(),
            ),
    {
        let process = match config.find_process(process_id) {
            Some(process) => process,
            None => {
                return StopRequest::Refused { error: process_not_found_error() };
            },
        };
        proof {
            crate::lookup::lemma_first_found(
                config.deep_view().processes,
                |process: ProcessDefinitionView| process.id == process_id@,
            );
        }
        if let Some(launchd) = &process.launchd {
            return StopRequest::Delegated {
                process: process.duplicate(),
                launchd: launchd.duplicate(),
            };
        }
        let ghost rt = self.deep_view();
        let mut runtime = self.state_of(process_id);
        let group = match self.pids.get(process_id) {
            Some(group) => Some(*group),
            None => runtime.pid,
        };
        match group {
            None => {
                runtime.current_status = ProcessStatus::Stopped;
                runtime.stopped_at = Some(now);
                runtime.memory_usage = None;
                assert(runtime.deep_view() =~= rt.idle_stopped_state(process_id@, now));
                self.set_runtime(config, &runtime, RuntimeEvent::Stopped);
                StopRequest::Stopped { runtime }
            },
            Some(process_group_id) => {
                let machine = config.resolve_remote_machine(process);
                let remote_pid = if machine.is_some() {
                    match self.remote_pids.get(process_id) {
                        Some(pid) => Some(*pid),
                        None => None,
                    }
                } else {
                    None
                };
                runtime.current_status = ProcessStatus::Stopping;
                assert(runtime.deep_view() =~= rt.stopping_state(process_id@));
                let plan = StopPlan {
                    process: process.duplicate(),
                    process_group_id,
                    machine,
                    remote_pid,
                    stop_timeout_ms: config.settings.stop_timeout_ms,
                    runtime,
                };
                assert(rt.stop_request(config.deep_view(), process_id@, now)
                    == StopRequestView::Signal { plan: plan.deep_view() });
                self.mark_stop_requested(process_id, process_group_id);
                self.set_runtime(config, &plan.runtime, RuntimeEvent::Stopped);
                let message = match &plan.machine {
                    Some(_) => {
                        let head = "Sending SIGTERM to ssh client (pid ";
                        match remote_pid {
                            Some(pid) => {
                                let first = around_number(
                                    head,
                                    process_group_id as u64,
                                    "); remote pid ",
                                );
                                with_number(first.as_str(), pid as u64)
                            },
                            None => around_number(head, process_group_id as u64, ")"),
                        }
                    },
                    None => with_number(
                        "Sending SIGTERM to process group ",
                        process_group_id as u64,
                    ),
                };
                assert(message@ == term_note(plan.deep_view()));
                self.note(config, process, LogLevel::Info, message, stamp);
                StopRequest::Signal { plan }
            },
        }
    }
}

// ---------------------------------------------------------------------------
// The signal
// ---------------------------------------------------------------------------

/// What follows from the answer to the signal.
pub enum StopAnswer {
    /// The process group is being stopped and is to be watched.
    Stopping { runtime: ProcessRuntimeState },
    /// The process group was gone already.
    Gone { runtime: ProcessRuntimeState },
    /// The process group could not be signalled.
    Refused { error: ApiError },
}

/// The model of [`StopAnswer`].
pub enum StopAnswerView {
    Stopping { runtime: ProcessRuntimeStateView },
    Gone { runtime: ProcessRuntimeStateView },
    Refused { error: ApiErrorView },
}

impl DeepView for StopAnswer {
    type V = StopAnswerView;

    open spec fn deep_view(&self) -> StopAnswerView {
        match self {
            StopAnswer::Stopping { runtime } => StopAnswerView::Stopping {
                runtime: runtime.deep_view(),
            },
            StopAnswer::Gone { runtime } => StopAnswerView::Gone { runtime: runtime.deep_view() },
            StopAnswer::Refused { error } => StopAnswerView::Refused { error: error.deep_view() },
        }
    }
}

/// The state of a process whose group was gone.
pub open spec fn gone_state(plan: StopPlanView, now: Timestamp) -> ProcessRuntimeStateView {
    ProcessRuntimeStateView {
        current_status: ProcessStatus::Stopped,
        stopped_at: Some(now),
        pid: None,
        memory_usage: None,
        ..plan.runtime
    }
}

/// What follows from the answer to the signal.
pub open spec fn stop_answer(
    plan: StopPlanView,
    error: Option<GroupErrorView>,
    now: Timestamp,
) -> StopAnswerView {
    match error {
        None => StopAnswerView::Stopping { runtime: plan.runtime },
        Some(GroupErrorView::NotFound) => StopAnswerView::Gone { runtime: gone_state(plan, now) },
        Some(other) => StopAnswerView::Refused {
            error: ApiErrorView::with_details(
                "COMMAND_EXECUTION_FAILED"@,
                "Unable to terminate process group"@,
                group_error_text(other),
                true,
            ),
        },
    }
}

impl RuntimeView {
    /// The process is tracked no longer, which is stored, if it was tracked under the group.
    pub open spec fn with_group_untracked(
        self,
        process_id: Seq<char>,
        process_group_id: u32,
    ) -> RuntimeView {
        if self.tracked_group(process_id) == Some(process_group_id) {
            self.without_tracked_group(process_id, process_group_id).with_records_stored()
        } else {
            self
        }
    }

    /// What the answer to the signal changes.
    pub open spec fn with_stop_signalled(
        self,
        config: ConfigView,
        plan: StopPlanView,
        error: Option<GroupErrorView>,
        now: Timestamp,
    ) -> RuntimeView {
        match stop_answer(plan, error, now) {
            StopAnswerView::Gone { runtime } => self.with_group_untracked(
                plan.process.id,
                plan.process_group_id,
            ).without_stop_requested(plan.process.id, plan.process_group_id).with_state(
                config,
                runtime,
                RuntimeEvent::Stopped,
            ),
            _ => self,
        }
    }
}

impl Runtime {
    fn untrack_group(&mut self, process_id: &str, process_group_id: u32)
        ensures
            final(self).deep_view() == old(self).deep_view().with_group_untracked(
                process_id@,
                process_group_id,
            ),
    {
        if self.untrack_runtime_process_if_group(process_id, process_group_id) {
            self.persist_runtime_processes();
        }
    }

    /// Takes in the answer to the signal.
    pub fn stop_signalled(
        &mut self,
        config: &Config,
        plan: &StopPlan,
        result: &Result<(), GroupError>,
        now: Timestamp,
    ) -> (r: StopAnswer)
        ensures
            r.deep_view() == stop_answer(plan.deep_view(), error_of(*result), now),
            final(self).deep_view() == old(self).deep_view().with_stop_signalled(
                config.deep_view(),
                plan.deep_view(),
                error_of(*result),
                now,
            ),
    {
        match result {
            Ok(_) => StopAnswer::Stopping { runtime: plan.runtime.duplicate() },
            Err(GroupError::NotFound) => {
                let mut runtime = plan.runtime.duplicate();
                runtime.current_status = ProcessStatus::Stopped;
                runtime.stopped_at = Some(now);
                runtime.pid = None;
                runtime.memory_usage = None;
                assert(runtime.deep_view() =~= gone_state(plan.deep_view(), now));
                let process_id = plan.process.id.as_str();
                self.untrack_group(process_id, plan.process_group_id);
                self.clear_stop_requested(process_id, plan.process_group_id);
                self.set_runtime(config, &runtime, RuntimeEvent::Stopped);
                StopAnswer::Gone { runtime }
            },
            Err(error) => StopAnswer::Refused {
                error: ApiError::with_details(
                    "COMMAND_EXECUTION_FAILED",
                    "Unable to terminate process group",
                    error.text(),
                    true,
                ),
            },
        }
    }
}

// ---------------------------------------------------------------------------
// The wait
// ---------------------------------------------------------------------------

/// What to do about a process group that was asked to stop.
#[derive(Clone, Copy, PartialEq, Eq, Structural, Debug)]
pub enum StopPoll {
    /// It is gone.
    Gone,
    /// Look again after a pause.
    Wait,
    /// Its time is up.
    ForceKill,
}

/// What to do about a process group that was asked to stop, by whether it is still there and
/// whether its time is up.
pub fn poll_stop(exists: bool, time_is_up: bool) -> (r: StopPoll)
    ensures
        r == (if !exists {
            StopPoll::Gone
        } else if time_is_up {
            StopPoll::ForceKill
        } else {
            StopPoll::Wait
        }),
{
    if !exists {
        StopPoll::Gone
    } else if time_is_up {
        StopPoll::ForceKill
    } else {
        StopPoll::Wait
    }
}

impl RuntimeView {
    /// A process group whose time is up is killed.
    pub open spec fn with_force_kill(
        self,
        config: ConfigView,
        plan: StopPlanView,
        stamp: StampView,
    ) -> RuntimeView {
        self.with_note(
            config,
            plan.process,
            LogLevel::Warn,
            "Force killing process group "@ + decimal(plan.process_group_id as nat),
            stamp,
        ).with_effect(EffectView::ForceKill { process_group_id: plan.process_group_id })
    }

    /// The process on the other machine was killed too, or could not be; either way it is
    /// forgotten.
    pub open spec fn with_remote_killed(
        self,
        config: ConfigView,
        plan: StopPlanView,
        error: Option<Seq<char>>,
        stamp: StampView,
    ) -> RuntimeView {
        match (plan.machine, plan.remote_pid) {
            (Some(_), Some(remote_pid)) => {
                let noted = match error {
                    None => self.with_note(
                        config,
                        plan.process,
                        LogLevel::Debug,
                        "Sent SIGKILL to remote pid "@ + decimal(remote_pid as nat),
                        stamp,
                    ),
                    Some(error) => self.with_note(
                        config,
                        plan.process,
                        LogLevel::Warn,
                        "Remote SIGKILL failed for pid "@ + decimal(remote_pid as nat) + ": "@
                            + error,
                        stamp,
                    ),
                };
                RuntimeView { remote_pids: noted.remote_pids.remove(plan.process.id), ..noted }
            },
            _ => self,
        }
    }

    /// The state of a process whose group survived being killed.
    pub open spec fn survived_state(
        self,
        process_id: Seq<char>,
        live_pid: u32,
    ) -> ProcessRuntimeStateView {
        ProcessRuntimeStateView {
            pid: Some(live_pid),
            current_status: ProcessStatus::Running,
            stopped_at: None,
            last_error: Some("Process group survived forced stop"@),
            ..self.state_of(process_id)
        }
    }

    /// The state of a process whose group has ended.
    pub open spec fn ended_state(
        self,
        process_id: Seq<char>,
        now: Timestamp,
    ) -> ProcessRuntimeStateView {
        ProcessRuntimeStateView {
            pid: None,
            current_status: ProcessStatus::Stopped,
            stopped_at: Some(now),
            memory_usage: None,
            last_error: None,
            ..self.state_of(process_id)
        }
    }

    /// The wait is over. A group that still has a live process runs on; one that has none has
    /// stopped. Where the process is tracked under another group by now, nothing changes but
    /// that the request is forgotten.
    pub open spec fn with_stop_finished(
        self,
        config: ConfigView,
        plan: StopPlanView,
        live_pid: Option<u32>,
        now: Timestamp,
    ) -> RuntimeView {
        let process_id = plan.process.id;
        let group = plan.process_group_id;
        let settled = if self.tracked_group(process_id) != Some(group) {
            self
        } else {
            match live_pid {
                Some(pid) => self.with_tracked_pid(
                    process_id,
                    pid,
                    group,
                ).with_records_stored().with_state(
                    config,
                    self.survived_state(process_id, pid),
                    RuntimeEvent::Failed,
                ),
                None => self.without_tracked_group(
                    process_id,
                    group,
                ).with_records_stored().with_state(
                    config,
                    self.ended_state(process_id, now),
                    RuntimeEvent::Stopped,
                ),
            }
        };
        settled.without_stop_requested(process_id, group)
    }
}

impl Runtime {
    /// Has a process group whose time is up killed.
    pub fn force_kill(&mut self, config: &Config, plan: &StopPlan, stamp: Stamp)
        ensures
            final(self).deep_view() == old(self).deep_view().with_force_kill(
                config.deep_view(),
                plan.deep_view(),
                stamp.deep_view(),
            ),
    {
        let message = with_number("Force killing process group ", plan.process_group_id as u64);
        self.note(config, &plan.process, LogLevel::Warn, message, stamp);
        self.queue(Effect::ForceKill { process_group_id: plan.process_group_id });
    }

    /// Takes in how the process on the other machine was killed; `error` tells how that failed,
    /// if it did.
    pub fn remote_killed(
        &mut self,
        config: &Config,
        plan: &StopPlan,
        error: &Option<String>,
        stamp: Stamp,
    )
        ensures
            final(self).deep_view() == old(self).deep_view().with_remote_killed(
                config.deep_view(),
                plan.deep_view(),
                error.deep_view(),
                stamp.deep_view(),
            ),
    {
        if plan.machine.is_none() {
            return;
        }
        if let Some(remote_pid) = plan.remote_pid {
            match error {
                None => {
                    let message = with_number("Sent SIGKILL to remote pid ", remote_pid as u64);
                    self.note(config, &plan.process, LogLevel::Debug, message, stamp);
                },
                Some(error) => {
                    let head = around_number(
                        "Remote SIGKILL failed for pid ",
                        remote_pid as u64,
                        ": ",
                    );
                    let message = concat(head.as_str(), error.as_str());
                    self.note(config, &plan.process, LogLevel::Warn, message, stamp);
                },
            }
            let _ = self.remote_pids.remove(plan.process.id.as_str());
        }
    }

    /// Takes in that the wait is over; `live_pid` is a live process of the group, if there is
    /// one.
    pub fn stop_finished(
        &mut self,
        config: &Config,
        plan: &StopPlan,
        live_pid: Option<u32>,
        now: Timestamp,
    )
        ensures
            final(self).deep_view() == old(self).deep_view().with_stop_finished(
                config.deep_view(),
                plan.deep_view(),
                live_pid,
                now,
            ),
    {
        let process_id = plan.process.id.as_str();
        let group = plan.process_group_id;
        let ghost rt = self.deep_view();
        match live_pid {
            Some(pid) => {
                if self.update_tracked_process_pid(process_id, pid, group) {
                    self.persist_runtime_processes();
                    let mut runtime = self.state_of(process_id);
                    runtime.pid = Some(pid);
                    runtime.current_status = ProcessStatus::Running;
                    runtime.stopped_at = None;
                    runtime.last_error = Some("Process group survived forced stop".to_string());
                    assert(runtime.deep_view() =~= rt.survived_state(process_id@, pid));
                    self.set_runtime(config, &runtime, RuntimeEvent::Failed);
                }
            },
            None => {
                if self.untrack_runtime_process_if_group(process_id, group) {
                    self.persist_runtime_processes();
                    let mut runtime = self.state_of(process_id);
                    runtime.pid = None;
                    runtime.current_status = ProcessStatus::Stopped;
                    runtime.stopped_at = Some(now);
                    runtime.memory_usage = None;
                    runtime.last_error = None;
                    assert(runtime.deep_view() =~= rt.ended_state(process_id@, now));
                    self.set_runtime(config, &runtime, RuntimeEvent::Stopped);
                }
            },
        }
        self.clear_stop_requested(process_id, group);
    }
}

// ---------------------------------------------------------------------------
// The end of a process
// ---------------------------------------------------------------------------

/// How a process ended.
pub enum Exit {
    /// With a status.
    Ended { success: bool, code: Option<i32>, status: String },
    /// It could not be told.
    Unknown { error: String },
}

/// The model of [`Exit`].
pub enum ExitView {
    Ended { success: bool, code: Option<i32>, status: Seq<char> },
    Unknown { error: Seq<char> },
}

impl DeepView for Exit {
    type V = ExitView;

    open spec fn deep_view(&self) -> ExitView {
        match self {
            Exit::Ended { success, code, status } => ExitView::Ended {
                success: *success,
                code: *code,
                status: status@,
            },
            Exit::Unknown { error } => ExitView::Unknown { error: error@ },
        }
    }
}

/// What the end of a process means for it.
pub struct Verdict {
    pub runtime: ProcessRuntimeStateView,
    pub event: RuntimeEvent,
    pub level: LogLevel,
    pub message: Seq<char>,
    pub restarts: bool,
}

/// What the end of a process means for it. One that had failed before stays failed. One that
/// succeeded, or was asked to stop, has stopped. Any other has crashed, and one whose end could
/// not be told has failed; these two may be started again.
pub open spec fn verdict(
    runtime: ProcessRuntimeStateView,
    exit: ExitView,
    stop_requested: bool,
) -> Verdict {
    match exit {
        ExitView::Ended { success, code, status } => if runtime.current_status is Failed {
            Verdict {
                runtime,
                event: RuntimeEvent::Failed,
                level: LogLevel::Warn,
                message: "Process stopped after failure"@,
                restarts: false,
            }
        } else if success || stop_requested || runtime.current_status is Stopping {
            Verdict {
                runtime: ProcessRuntimeStateView {
                    current_status: ProcessStatus::Stopped,
                    exit_code: None,
                    last_error: None,
                    memory_usage: None,
                    ..runtime
                },
                event: RuntimeEvent::Stopped,
                level: LogLevel::Info,
                message: "Process stopped"@,
                restarts: false,
            }
        } else {
            Verdict {
                runtime: ProcessRuntimeStateView {
                    current_status: ProcessStatus::Crashed,
                    last_error: if runtime.last_error is None {
                        Some("Exited with status "@ + status)
                    } else {
                        runtime.last_error
                    },
                    ..runtime
                },
                event: RuntimeEvent::Failed,
                level: LogLevel::Error,
                message: "Process crashed: "@ + status,
                restarts: true,
            }
        },
        ExitView::Unknown { error } => Verdict {
            runtime: ProcessRuntimeStateView {
                current_status: ProcessStatus::Failed,
                last_error: Some(error),
                ..runtime
            },
            event: RuntimeEvent::Failed,
            level: LogLevel::Error,
            message: "Process wait failed: "@ + error,
            restarts: true,
        },
    }
}

/// The exit code of a process.
pub open spec fn exit_code(exit: ExitView) -> Option<i32> {
    match exit {
        ExitView::Ended { code, .. } => code,
        ExitView::Unknown { .. } => None,
    }
}

impl RuntimeView {
    /// The state of a process that has ended, before it is said how.
    pub open spec fn exited_state(
        self,
        process_id: Seq<char>,
        exit: ExitView,
        now: Timestamp,
    ) -> ProcessRuntimeStateView {
        ProcessRuntimeStateView {
            pid: None,
            stopped_at: Some(now),
            exit_code: exit_code(exit),
            health_status: Some(HealthStatus::Unknown),
            ..self.state_of(process_id)
        }
    }

    /// The state of a process that has ended while others of its group live on.
    pub open spec fn recovered_state(
        self,
        process_id: Seq<char>,
        live_pid: u32,
    ) -> ProcessRuntimeStateView {
        ProcessRuntimeStateView {
            pid: Some(live_pid),
            current_status: ProcessStatus::Running,
            stopped_at: None,
            exit_code: None,
            last_error: Some("Parent process exited but child process group is still running"@),
            health_status: Some(HealthStatus::Unknown),
            ..self.state_of(process_id)
        }
    }

    /// The end of a process was taken care of elsewhere: the process is tracked under another
    /// group by now, or it is not tracked and was asked to stop.
    pub open spec fn exit_is_stale(self, process_id: Seq<char>, process_group_id: u32) -> bool {
        let status = self.state_of(process_id).current_status;
        match self.tracked_group(process_id) {
            Some(group) => group != process_group_id,
            None => self.stop_requested(process_id, process_group_id) || status is Stopping
                || status is Stopped,
        }
    }

    /// A process is told of as its end demands.
    pub open spec fn with_verdict(
        self,
        config: ConfigView,
        process: ProcessDefinitionView,
        verdict: Verdict,
        now: Timestamp,
        stamp: StampView,
        restart_stamp: StampView,
    ) -> RuntimeView {
        let told = self.with_note(
            config,
            process,
            verdict.level,
            verdict.message,
            stamp,
        ).with_state(config, verdict.runtime, verdict.event);
        if verdict.restarts {
            told.with_restart_scheduled(config, process, now, restart_stamp)
        } else {
            told
        }
    }

    /// A process has ended. Of a remote process the group is that of the connection, and nobody
    /// in it takes the process's place.
    pub open spec fn with_exit(
        self,
        config: ConfigView,
        process: ProcessDefinitionView,
        process_group_id: Option<u32>,
        is_remote: bool,
        exit: ExitView,
        live_pid: Option<u32>,
        now: Timestamp,
        stamp: StampView,
        restart_stamp: StampView,
    ) -> RuntimeView {
        let exited = self.exited_state(process.id, exit, now);
        let survivor = if is_remote {
            None
        } else {
            live_pid
        };
        match (process_group_id, survivor) {
            (None, _) => self.with_verdict(
                config,
                process,
                verdict(exited, exit, false),
                now,
                stamp,
                restart_stamp,
            ),
            (Some(group), Some(pid)) => {
                let settled = if self.tracked_group(process.id) == Some(group) {
                    self.with_tracked_pid(process.id, pid, group).with_records_stored().with_note(
                        config,
                        process,
                        LogLevel::Warn,
                        "Parent exited; recovered running process group "@ + decimal(group as nat),
                        stamp,
                    ).with_state(
                        config,
                        self.recovered_state(process.id, pid),
                        RuntimeEvent::Started,
                    )
                } else {
                    self
                };
                settled.without_stop_requested(process.id, group)
            },
            (Some(group), None) => if self.exit_is_stale(process.id, group) {
                self.without_stop_requested(process.id, group)
            } else {
                self.with_group_untracked(process.id, group).without_stop_requested(
                    process.id,
                    group,
                ).with_verdict(
                    config,
                    process,
                    verdict(exited, exit, self.stop_requested(process.id, group)),
                    now,
                    stamp,
                    restart_stamp,
                )
            },
        }
    }

    /// The process behind a remote process that has ended is forgotten, and killed if it is
    /// known.
    pub open spec fn with_remote_cleanup(
        self,
        machine: Option<MachineView>,
        process_id: Seq<char>,
    ) -> RuntimeView {
        let forgotten = RuntimeView { remote_pids: self.remote_pids.remove(process_id), ..self };
        match machine {
            Some(machine) if self.remote_pids.contains_key(process_id) => forgotten.with_effect(
                EffectView::KillRemote { machine, pid: self.remote_pids[process_id] },
            ),
            _ => forgotten,
        }
    }
}

impl Runtime {
    /// Forgets the process behind a remote process that has ended, and has it killed if it is
    /// known.
    pub fn cleanup_remote_process_after_exit(
        &mut self,
        machine: &Option<Machine>,
        process_id: &str,
    )
        ensures
            final(self).deep_view() == old(self).deep_view().with_remote_cleanup(
                machine.deep_view(),
                process_id@,
            ),
    {
        if let Some(pid) = self.remote_pids.remove(process_id) {
            if let Some(machine) = machine {
                self.queue(Effect::KillRemote { machine: machine.duplicate(), pid });
            }
        }
    }

    fn pronounce(
        &mut self,
        config: &Config,
        process: &ProcessDefinition,
        runtime: &ProcessRuntimeState,
        exit: &Exit,
        stop_requested: bool,
        now: Timestamp,
        stamp: Stamp,
        restart_stamp: Stamp,
    )
        ensures
            final(self).deep_view() == old(self).deep_view().with_verdict(
                config.deep_view(),
                process.deep_view(),
                verdict(runtime.deep_view(), exit.deep_view(), stop_requested),
                now,
                stamp.deep_view(),
                restart_stamp.deep_view(),
            ),
    {
        let mut after = runtime.duplicate();
        let ghost expected = verdict(runtime.deep_view(), exit.deep_view(), stop_requested);
        match exit {
            Exit::Ended { success, code: _, status } => {
                if matches!(after.current_status, ProcessStatus::Failed) {
                    let message = "Process stopped after failure".to_string();
                    self.note(config, process, LogLevel::Warn, message, stamp);
                    self.set_runtime(config, &after, RuntimeEvent::Failed);
                } else if *success || stop_requested || matches!(
                    after.current_status,
                    ProcessStatus::Stopping
                ) {
                    after.current_status = ProcessStatus::Stopped;
                    after.exit_code = None;
                    after.last_error = None;
                    after.memory_usage = None;
                    assert(after.deep_view() =~= expected.runtime);
                    let message = "Process stopped".to_string();
                    self.note(config, process, LogLevel::Info, message, stamp);
                    self.set_runtime(config, &after, RuntimeEvent::Stopped);
                } else {
                    after.current_status = ProcessStatus::Crashed;
                    if after.last_error.is_none() {
                        after.last_error = Some(concat("Exited with status ", status.as_str()));
                    }
                    assert(after.deep_view() =~= expected.runtime);
                    let message = concat("Process crashed: ", status.as_str());
                    self.note(config, process, LogLevel::Error, message, stamp);
                    self.set_runtime(config, &after, RuntimeEvent::Failed);
                    self.schedule_auto_restart_if_eligible(config, process, now, restart_stamp);
                }
            },
            Exit::Unknown { error } => {
                after.current_status = ProcessStatus::Failed;
                after.last_error = Some(error.clone());
                assert(after.deep_view() =~= expected.runtime);
                let message = concat("Process wait failed: ", error.as_str());
                self.note(config, process, LogLevel::Error, message, stamp);
                self.set_runtime(config, &after, RuntimeEvent::Failed);
                self.schedule_auto_restart_if_eligible(config, process, now, restart_stamp);
            },
        }
    }

    /// Takes in that a process has ended; `live_pid` is a live process of its group, if there is
    /// one.
    pub fn process_exited(
        &mut self,
        config: &Config,
        process: &ProcessDefinition,
        process_group_id: Option<u32>,
        is_remote: bool,
        exit: &Exit,
        live_pid: Option<u32>,
        now: Timestamp,
        stamp: Stamp,
        restart_stamp: Stamp,
    )
        ensures
            final(self).deep_view() == old(self).deep_view().with_exit(
                config.deep_view(),
                process.deep_view(),
                process_group_id,
                is_remote,
                exit.deep_view(),
                live_pid,
                now,
                stamp.deep_view(),
                restart_stamp.deep_view(),
            ),
    {
        let process_id = process.id.as_str();
        let ghost rt = self.deep_view();
        let mut runtime = self.state_of(process_id);
        runtime.pid = None;
        runtime.stopped_at = Some(now);
        runtime.exit_code = match exit {
            Exit::Ended { success: _, code, status: _ } => *code,
            Exit::Unknown { error: _ } => None,
        };
        runtime.health_status = Some(HealthStatus::Unknown);
        assert(runtime.deep_view() =~= rt.exited_state(process_id@, exit.deep_view(), now));
        let group = match process_group_id {
            None => {
                self.pronounce(config, process, &runtime, exit, false, now, stamp, restart_stamp);
                return;
            },
            Some(group) => group,
        };
        let survivor = if is_remote {
            None
        } else {
            live_pid
        };
        if let Some(pid) = survivor {
            if self.update_tracked_process_pid(process_id, pid, group) {
                runtime.pid = Some(pid);
                runtime.stopped_at = None;
                runtime.exit_code = None;
                runtime.current_status = ProcessStatus::Running;
                runtime.last_error = Some(
                    "Parent process exited but child process group is still running".to_string(),
                );
                assert(runtime.deep_view() =~= rt.recovered_state(process_id@, pid));
                self.persist_runtime_processes();
                let message = with_number(
                    "Parent exited; recovered running process group ",
                    group as u64,
                );
                self.note(config, process, LogLevel::Warn, message, stamp);
                self.set_runtime(config, &runtime, RuntimeEvent::Started);
            }
            self.clear_stop_requested(process_id, group);
            return;
        }
        let stop_requested = self.stop_was_requested(process_id, group);
        let stale = match self.current_tracked_process_group(process_id) {
            Some(current_group) => current_group != group,
            None => stop_requested || matches!(
                runtime.current_status,
                ProcessStatus::Stopping | ProcessStatus::Stopped
            ),
        };
        assert(stale == rt.exit_is_stale(process_id@, group));
        if stale {
            self.clear_stop_requested(process_id, group);
            return;
        }
        self.untrack_group(process_id, group);
        self.clear_stop_requested(process_id, group);
        self.pronounce(
            config,
            process,
            &runtime,
            exit,
            stop_requested,
            now,
            stamp,
            restart_stamp,
        );
    }
}

} // verus!
