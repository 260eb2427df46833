//! How processes are stopped and what is made of their end.
use vstd::prelude::*;

use crate::clock::Timestamp;
use crate::laws::frames::{only_touches, same_tracking, shows};
use crate::laws::lookups::law_process_found_by_id;
use crate::laws::restarting::asks_for_restart;
use crate::models::{
    ConfigView, HealthStatus, LogLevel, MachineView, ProcessDefinitionView, ProcessRuntimeStateView,
    ProcessStatus, RestartPolicyKind,
};
use crate::platform::GroupErrorView;
use crate::runtime::{EffectView, RuntimeEvent, RuntimeView, StampView};
use crate::stop::{stop_answer, ExitView, StopAnswerView, StopPlanView, StopRequestView};
use crate::text::decimal;

verus! {

/// A request to stop goes to launchd where launchd supervises the process; otherwise the group
/// that is tracked is signalled, or else the one that the state names; where there is neither,
/// the process has stopped already.
pub proof fn law_who_is_signalled(
    rt: RuntimeView,
    config: ConfigView,
    process_id: Seq<char>,
    now: Timestamp,
)
    ensures
        match (config.process(process_id), rt.stop_request(config, process_id, now)) {
            (None, answer) => answer matches StopRequestView::Refused { error } && error.code
                == "PROCESS_NOT_FOUND"@,
            (Some(process), answer) => if process.launchd is Some {
                answer matches StopRequestView::Delegated { process: left, launchd } && left
                    == process && Some(launchd) == process.launchd
            } else if rt.pids.contains_key(process_id) {
                answer matches StopRequestView::Signal { plan } && plan.process_group_id
                    == rt.pids[process_id]
            } else if rt.states.contains_key(process_id) && rt.states[process_id].pid is Some {
                answer matches StopRequestView::Signal { plan } && plan.process_group_id
                    == rt.states[process_id].pid->0
            } else {
                answer matches StopRequestView::Stopped { runtime } && runtime.current_status
                    == ProcessStatus::Stopped && runtime.stopped_at == Some(now)
                    && runtime.memory_usage is None && runtime == (ProcessRuntimeStateView {
                    current_status: runtime.current_status,
                    stopped_at: runtime.stopped_at,
                    memory_usage: runtime.memory_usage,
                    ..rt.state_of(process_id)
                })
            },
        },
        rt.stop_request(config, process_id, now) matches StopRequestView::Signal { plan } ==> {
            &&& config.process(process_id) == Some(plan.process)
            &&& plan.machine == config.remote_machine(plan.process)
            &&& plan.remote_pid == (if plan.machine is Some && rt.remote_pids.contains_key(
                process_id,
            ) {
                Some(rt.remote_pids[process_id])
            } else {
                None
            })
            &&& plan.stop_timeout_ms == config.settings.stop_timeout_ms
            &&& plan.runtime.current_status == ProcessStatus::Stopping
            &&& plan.runtime == (ProcessRuntimeStateView {
                current_status: ProcessStatus::Stopping,
                ..rt.state_of(process_id)
            })
        },
{
    law_process_found_by_id(config, process_id);
}

/// A process that is signalled is being stopped, and the request is remembered for exactly the
/// group that is signalled. One without a group has stopped. A refused request changes nothing.
pub proof fn law_stop_request_is_remembered(
    rt: RuntimeView,
    config: ConfigView,
    process_id: Seq<char>,
    now: Timestamp,
    stamp: StampView,
)
    requires
        rt.state_of(process_id).process_id == process_id,
    ensures
        ({
            let after = rt.with_stop_request(config, process_id, now, stamp);
            let n = rt.effects.len() as int;
            &&& only_touches(rt, after, process_id)
            &&& same_tracking(rt, after)
            &&& match rt.stop_request(config, process_id, now) {
                StopRequestView::Signal { plan } => {
                    &&& after.stopping_processes == rt.stopping_processes.insert(
                        process_id + ":"@ + decimal(plan.process_group_id as nat),
                    )
                    &&& after.states.contains_key(process_id)
                    &&& after.states[process_id] == plan.runtime
                    &&& after.effects.len() == n + 2
                    &&& after.effects[n] == (EffectView::Emit {
                        event: RuntimeEvent::Stopped,
                        runtime: plan.runtime,
                    })
                    &&& plan.machine is None ==> shows(
                        after,
                        n + 1,
                        plan.process,
                        LogLevel::Info,
                        "Sending SIGTERM to process group "@ + decimal(
                            plan.process_group_id as nat,
                        ),
                    )
                    &&& plan.machine is Some && plan.remote_pid is None ==> shows(
                        after,
                        n + 1,
                        plan.process,
                        LogLevel::Info,
                        "Sending SIGTERM to ssh client (pid "@ + decimal(
                            plan.process_group_id as nat,
                        ) + ")"@,
                    )
                    &&& plan.remote_pid is Some ==> shows(
                        after,
                        n + 1,
                        plan.process,
                        LogLevel::Info,
                        "Sending SIGTERM to ssh client (pid "@ + decimal(
                            plan.process_group_id as nat,
                        ) + "); remote pid "@ + decimal(plan.remote_pid->0 as nat),
                    )
                },
                StopRequestView::Stopped { runtime } => {
                    &&& after.stopping_processes == rt.stopping_processes
                    &&& after.states.contains_key(process_id)
                    &&& after.states[process_id] == runtime
                    &&& after.logs == rt.logs
                    &&& after.effects == rt.effects.push(
                        EffectView::Emit { event: RuntimeEvent::Stopped, runtime },
                    )
                },
                _ => after == rt,
            }
        }),
{
    law_process_found_by_id(config, process_id);
    let after = rt.with_stop_request(config, process_id, now, stamp);
    assert(rt.states.remove(process_id) =~= after.states.remove(process_id));
}

/// The answer to a signal: a group that was reached is being stopped; one that is not there has
/// stopped, is not tracked any more, and the request is forgotten; any other failure is told and
/// changes nothing.
pub proof fn law_signal_answered(
    rt: RuntimeView,
    config: ConfigView,
    plan: StopPlanView,
    error: Option<GroupErrorView>,
    now: Timestamp,
)
    requires
        plan.runtime.process_id == plan.process.id,
    ensures
        ({
            let id = plan.process.id;
            let after = rt.with_stop_signalled(config, plan, error, now);
            match error {
                None => after == rt && stop_answer(plan, error, now) == (StopAnswerView::Stopping {
                    runtime: plan.runtime,
                }),
                Some(GroupErrorView::Other(reason)) => {
                    &&& after == rt
                    &&& stop_answer(plan, error, now) matches StopAnswerView::Refused {
                        error: told,
                    } && told.code == "COMMAND_EXECUTION_FAILED"@ && told.message
                        == "Unable to terminate process group"@ && told.details == Some(reason)
                        && told.recoverable
                },
                Some(GroupErrorView::NotFound) => {
                    &&& stop_answer(plan, error, now) == (StopAnswerView::Gone {
                        runtime: after.states[id],
                    })
                    &&& after.states.contains_key(id)
                    &&& after.states[id].current_status == ProcessStatus::Stopped
                    &&& after.states[id].pid is None
                    &&& after.states[id].memory_usage is None
                    &&& after.states[id].stopped_at == Some(now)
                    &&& after.states[id] == (ProcessRuntimeStateView {
                        current_status: after.states[id].current_status,
                        pid: after.states[id].pid,
                        memory_usage: after.states[id].memory_usage,
                        stopped_at: after.states[id].stopped_at,
                        ..plan.runtime
                    })
                    &&& after.effects.last() == (EffectView::Emit {
                        event: RuntimeEvent::Stopped,
                        runtime: after.states[id],
                    })
                    &&& after.effects.len() == rt.effects.len() + (if follows_group(
                        rt,
                        id,
                        plan.process_group_id,
                    ) {
                        2int
                    } else {
                        1
                    })
                    &&& follows_group(rt, id, plan.process_group_id)
                        ==> after.effects[rt.effects.len() as int] == (EffectView::StoreRecords {
                        records: after.process_records,
                    })
                    &&& after.stopping_processes == rt.stopping_processes.remove(
                        id + ":"@ + decimal(plan.process_group_id as nat),
                    )
                    &&& follows_group(rt, id, plan.process_group_id)
                        ==> !after.process_records.contains_key(id)
                    &&& !follows_group(rt, id, plan.process_group_id) ==> same_tracking(rt, after)
                    &&& only_touches(rt, after, id)
                    &&& after.logs == rt.logs
                },
            }
        }),
{
    let id = plan.process.id;
    let after = rt.with_stop_signalled(config, plan, error, now);
    assert(rt.states.remove(id) =~= after.states.remove(id));
    assert(rt.pids.remove(id) =~= after.pids.remove(id));
    assert(rt.process_records.remove(id) =~= after.process_records.remove(id));
}

/// The record of a process is of a group; a record without a group is of its process's own.
pub open spec fn follows_group(rt: RuntimeView, process_id: Seq<char>, group: u32) -> bool {
    let record = rt.process_records[process_id];
    rt.process_records.contains_key(process_id) && (if record.process_group_id == 0 {
        record.pid == group
    } else {
        record.process_group_id == group
    })
}

/// A group that does not go is killed, which is told, and nothing else happens.
pub proof fn law_stubborn_groups_are_killed(
    rt: RuntimeView,
    config: ConfigView,
    plan: StopPlanView,
    stamp: StampView,
)
    ensures
        ({
            let after = rt.with_force_kill(config, plan, stamp);
            let n = rt.effects.len() as int;
            &&& after.effects.len() == n + 2
            &&& shows(
                after,
                n,
                plan.process,
                LogLevel::Warn,
                "Force killing process group "@ + decimal(plan.process_group_id as nat),
            )
            &&& after.effects.last() == (EffectView::ForceKill {
                process_group_id: plan.process_group_id,
            })
            &&& after.states == rt.states
            &&& same_tracking(rt, after)
            &&& after.stopping_processes == rt.stopping_processes
        }),
{
}

/// The process on the other machine is forgotten once it was to be killed, and how that went is
/// told; where there is none, nothing happens.
pub proof fn law_remote_process_is_forgotten(
    rt: RuntimeView,
    config: ConfigView,
    plan: StopPlanView,
    error: Option<Seq<char>>,
    stamp: StampView,
)
    ensures
        ({
            let after = rt.with_remote_killed(config, plan, error, stamp);
            let n = rt.effects.len() as int;
            if plan.machine is Some && plan.remote_pid is Some {
                &&& after.remote_pids == rt.remote_pids.remove(plan.process.id)
                &&& after.effects.len() == n + 1
                &&& error is None ==> shows(
                    after,
                    n,
                    plan.process,
                    LogLevel::Debug,
                    "Sent SIGKILL to remote pid "@ + decimal(plan.remote_pid->0 as nat),
                )
                &&& error is Some ==> shows(
                    after,
                    n,
                    plan.process,
                    LogLevel::Warn,
                    "Remote SIGKILL failed for pid "@ + decimal(plan.remote_pid->0 as nat) + ": "@
                        + error->0,
                )
                &&& after.states == rt.states
                &&& after.pids == rt.pids
                &&& after.process_records == rt.process_records
            } else {
                after == rt
            }
        }),
{
}

/// When a stop is over, the request for the group is forgotten. Where the process is still
/// tracked with that group, it has stopped and is not tracked any more, or it survived and runs
/// on, tracked under the number that is left of it. Otherwise it was started anew meanwhile, and
/// nothing else changes.
pub proof fn law_end_of_a_stop(
    rt: RuntimeView,
    config: ConfigView,
    plan: StopPlanView,
    live_pid: Option<u32>,
    now: Timestamp,
)
    requires
        rt.state_of(plan.process.id).process_id == plan.process.id,
    ensures
        ({
            let id = plan.process.id;
            let group = plan.process_group_id;
            let after = rt.with_stop_finished(config, plan, live_pid, now);
            let state = after.states[id];
            &&& after.stopping_processes == rt.stopping_processes.remove(
                id + ":"@ + decimal(group as nat),
            )
            &&& only_touches(rt, after, id)
            &&& after.logs == rt.logs
            &&& !follows_group(rt, id, group) ==> after.states == rt.states && same_tracking(
                rt,
                after,
            ) && after.effects == rt.effects
            &&& follows_group(rt, id, group) ==> {
                &&& after.states.contains_key(id)
                &&& state == (ProcessRuntimeStateView {
                    current_status: state.current_status,
                    pid: state.pid,
                    stopped_at: state.stopped_at,
                    memory_usage: state.memory_usage,
                    last_error: state.last_error,
                    ..rt.state_of(id)
                })
                &&& after.effects[rt.effects.len() as int] == (EffectView::StoreRecords {
                    records: after.process_records,
                })
                &&& match live_pid {
                    None => {
                        &&& state.current_status == ProcessStatus::Stopped
                        &&& state.pid is None
                        &&& state.stopped_at == Some(now)
                        &&& state.memory_usage is None
                        &&& state.last_error is None
                        &&& !after.process_records.contains_key(id)
                        &&& rt.pids.contains_key(id) && rt.pids[id] == group
                            ==> !after.pids.contains_key(id)
                        &&& rt.pids.contains_key(id) && rt.pids[id] != group ==> after.pids
                            == rt.pids
                        &&& after.effects[rt.effects.len() as int + 1] == (EffectView::Emit {
                            event: RuntimeEvent::Stopped,
                            runtime: state,
                        })
                    },
                    Some(pid) => {
                        &&& state.current_status == ProcessStatus::Running
                        &&& state.pid == Some(pid)
                        &&& state.stopped_at is None
                        &&& state.memory_usage == rt.state_of(id).memory_usage
                        &&& state.last_error == Some("Process group survived forced stop"@)
                        &&& after.pids.contains_key(id) && after.pids[id] == group
                        &&& after.process_records.contains_key(id)
                        &&& after.process_records[id].pid == pid
                        &&& after.process_records[id].process_group_id == group
                        &&& after.process_records[id].command == rt.process_records[id].command
                        &&& after.effects[rt.effects.len() as int + 1] == (EffectView::Emit {
                            event: RuntimeEvent::Failed,
                            runtime: state,
                        })
                    },
                }
            }
        }),
{
    let id = plan.process.id;
    let after = rt.with_stop_finished(config, plan, live_pid, now);
    assert(rt.states.remove(id) =~= after.states.remove(id));
    assert(rt.pids.remove(id) =~= after.pids.remove(id));
    assert(rt.process_records.remove(id) =~= after.process_records.remove(id));
}

/// The end of a process that was asked for or went well leaves it stopped; one that was not, and
/// went badly, crashed. One that had failed before stays failed, and where nobody knows how it
/// ended it has failed. Nothing of it is tracked any more, and the request to stop it is
/// forgotten.
pub proof fn law_end_of_a_process(
    rt: RuntimeView,
    config: ConfigView,
    process: ProcessDefinitionView,
    group: u32,
    is_remote: bool,
    exit: ExitView,
    now: Timestamp,
    stamp: StampView,
    restart_stamp: StampView,
    live_pid: Option<u32>,
)
    requires
        rt.state_of(process.id).process_id == process.id,
        follows_group(rt, process.id, group),
        is_remote || live_pid is None,
    ensures
        ({
            let id = process.id;
            let before = rt.state_of(id);
            let after = rt.with_exit(
                config,
                process,
                Some(group),
                is_remote,
                exit,
                live_pid,
                now,
                stamp,
                restart_stamp,
            );
            let state = after.states[id];
            let n = rt.effects.len() as int;
            let wanted = rt.stopping_processes.contains(id + ":"@ + decimal(group as nat))
                || before.current_status == ProcessStatus::Stopping;
            &&& only_touches(rt, after, id)
            &&& !after.process_records.contains_key(id)
            &&& rt.pids.contains_key(id) && rt.pids[id] == group ==> !after.pids.contains_key(id)
            &&& after.stopping_processes == rt.stopping_processes.remove(
                id + ":"@ + decimal(group as nat),
            )
            &&& after.states.contains_key(id)
            &&& state.pid is None
            &&& state.stopped_at == Some(now)
            &&& state.health_status == Some(HealthStatus::Unknown)
            &&& state == (ProcessRuntimeStateView {
                current_status: state.current_status,
                pid: state.pid,
                stopped_at: state.stopped_at,
                health_status: state.health_status,
                exit_code: state.exit_code,
                last_error: state.last_error,
                memory_usage: state.memory_usage,
                restart_count: state.restart_count,
                ..before
            })
            &&& state.memory_usage == before.memory_usage || state.current_status
                == ProcessStatus::Stopped
            &&& state.restart_count == before.restart_count || state.restart_count == 0
            &&& after.effects[n] == (EffectView::StoreRecords { records: after.process_records })
            &&& after.effects[n + 2] matches EffectView::Emit { event, runtime } && event == (
            if state.current_status == ProcessStatus::Stopped {
                RuntimeEvent::Stopped
            } else {
                RuntimeEvent::Failed
            }) && runtime == (ProcessRuntimeStateView {
                restart_count: before.restart_count,
                ..state
            })
            &&& match exit {
                ExitView::Unknown { error } => {
                    &&& shows(
                        after,
                        n + 1,
                        process,
                        LogLevel::Error,
                        "Process wait failed: "@ + error,
                    )
                    &&& state.current_status == ProcessStatus::Failed
                    &&& state.last_error == Some(error)
                    &&& state.exit_code is None
                },
                ExitView::Ended { success, code, status } => if before.current_status
                    == ProcessStatus::Failed {
                    &&& shows(
                        after,
                        n + 1,
                        process,
                        LogLevel::Warn,
                        "Process stopped after failure"@,
                    )
                    &&& state.current_status == ProcessStatus::Failed
                    &&& state.last_error == before.last_error
                    &&& state.exit_code == code
                    &&& state.restart_count == before.restart_count
                    &&& !(after.effects.last() is RestartLater)
                } else if success || wanted {
                    &&& shows(after, n + 1, process, LogLevel::Info, "Process stopped"@)
                    &&& state.current_status == ProcessStatus::Stopped
                    &&& state.last_error is None
                    &&& state.exit_code is None
                    &&& state.memory_usage is None
                    &&& state.restart_count == before.restart_count
                    &&& !(after.effects.last() is RestartLater)
                } else {
                    &&& shows(
                        after,
                        n + 1,
                        process,
                        LogLevel::Error,
                        "Process crashed: "@ + status,
                    )
                    &&& state.current_status == ProcessStatus::Crashed
                    &&& state.exit_code == code
                    &&& state.last_error == (if before.last_error is Some {
                        before.last_error
                    } else {
                        Some("Exited with status "@ + status)
                    })
                },
            }
        }),
{
    let id = process.id;
    let after = rt.with_exit(
        config,
        process,
        Some(group),
        is_remote,
        exit,
        live_pid,
        now,
        stamp,
        restart_stamp,
    );
    assert(rt.states.remove(id) =~= after.states.remove(id));
    assert(rt.pids.remove(id) =~= after.pids.remove(id));
    assert(rt.process_records.remove(id) =~= after.process_records.remove(id));
}

/// A process that never had a number of its own ends like one that was not asked to stop, and
/// nothing that is tracked changes.
pub proof fn law_end_without_a_group(
    rt: RuntimeView,
    config: ConfigView,
    process: ProcessDefinitionView,
    is_remote: bool,
    exit: ExitView,
    live_pid: Option<u32>,
    now: Timestamp,
    stamp: StampView,
    restart_stamp: StampView,
)
    requires
        rt.state_of(process.id).process_id == process.id,
    ensures
        ({
            let id = process.id;
            let before = rt.state_of(id);
            let after = rt.with_exit(
                config,
                process,
                None,
                is_remote,
                exit,
                live_pid,
                now,
                stamp,
                restart_stamp,
            );
            let state = after.states[id];
            &&& only_touches(rt, after, id)
            &&& same_tracking(rt, after)
            &&& after.stopping_processes == rt.stopping_processes
            &&& after.states.contains_key(id)
            &&& state.pid is None && state.stopped_at == Some(now)
            &&& state.current_status == (match exit {
                ExitView::Unknown { .. } => ProcessStatus::Failed,
                ExitView::Ended { success, .. } => if before.current_status
                    == ProcessStatus::Failed {
                    ProcessStatus::Failed
                } else if success || before.current_status == ProcessStatus::Stopping {
                    ProcessStatus::Stopped
                } else {
                    ProcessStatus::Crashed
                },
            })
        }),
{
    let id = process.id;
    let after = rt.with_exit(
        config,
        process,
        None,
        is_remote,
        exit,
        live_pid,
        now,
        stamp,
        restart_stamp,
    );
    assert(rt.states.remove(id) =~= after.states.remove(id));
}

/// A process that crashed, or of whose end nobody knows, is started again later where its policy
/// always does so or does so on failure, and never where its policy never does.
pub proof fn law_crashed_processes_come_back(
    rt: RuntimeView,
    config: ConfigView,
    process: ProcessDefinitionView,
    group: Option<u32>,
    exit: ExitView,
    now: Timestamp,
    stamp: StampView,
    restart_stamp: StampView,
)
    requires
        rt.state_of(process.id).process_id == process.id,
        group matches Some(number) ==> follows_group(rt, process.id, number)
            && !rt.stopping_processes.contains(process.id + ":"@ + decimal(number as nat)),
        exit matches ExitView::Ended { success, .. } ==> !success && rt.state_of(
            process.id,
        ).current_status != ProcessStatus::Failed && rt.state_of(process.id).current_status
            != ProcessStatus::Stopping,
    ensures
        ({
            let after = rt.with_exit(
                config,
                process,
                group,
                false,
                exit,
                None,
                now,
                stamp,
                restart_stamp,
            );
            &&& process.restart_policy.kind == RestartPolicyKind::Always
                || process.restart_policy.kind == RestartPolicyKind::OnFailure
                ==> asks_for_restart(after, process.id)
            &&& process.restart_policy.kind == RestartPolicyKind::Never ==> !(
            after.effects.last() is RestartLater)
        }),
{
}

/// The end of a group that is not the one tracked, or of one that is not tracked and was to stop,
/// changes nothing but that the request is forgotten.
pub proof fn law_stale_ends_change_nothing(
    rt: RuntimeView,
    config: ConfigView,
    process: ProcessDefinitionView,
    group: u32,
    exit: ExitView,
    now: Timestamp,
    stamp: StampView,
    restart_stamp: StampView,
)
    requires
        rt.process_records.contains_key(process.id) ==> !follows_group(rt, process.id, group),
        !rt.process_records.contains_key(process.id) ==> rt.stopping_processes.contains(
            process.id + ":"@ + decimal(group as nat),
        ) || !rt.states.contains_key(process.id) || rt.states[process.id].current_status
            == ProcessStatus::Stopping || rt.states[process.id].current_status
            == ProcessStatus::Stopped,
    ensures
        rt.with_exit(config, process, Some(group), false, exit, None, now, stamp, restart_stamp)
            == (RuntimeView {
            stopping_processes: rt.stopping_processes.remove(
                process.id + ":"@ + decimal(group as nat),
            ),
            ..rt
        }),
{
}

/// A process on this machine that ended while others of its group live runs on under the number
/// of one of them, where that group is the one tracked; otherwise only the request is forgotten.
pub proof fn law_groups_outlive_their_leader(
    rt: RuntimeView,
    config: ConfigView,
    process: ProcessDefinitionView,
    group: u32,
    exit: ExitView,
    live_pid: u32,
    now: Timestamp,
    stamp: StampView,
    restart_stamp: StampView,
)
    requires
        rt.state_of(process.id).process_id == process.id,
    ensures
        ({
            let id = process.id;
            let after = rt.with_exit(
                config,
                process,
                Some(group),
                false,
                exit,
                Some(live_pid),
                now,
                stamp,
                restart_stamp,
            );
            let state = after.states[id];
            &&& only_touches(rt, after, id)
            &&& after.stopping_processes == rt.stopping_processes.remove(
                id + ":"@ + decimal(group as nat),
            )
            &&& !follows_group(rt, id, group) ==> after.states == rt.states && same_tracking(
                rt,
                after,
            ) && after.effects == rt.effects && after.logs == rt.logs
            &&& follows_group(rt, id, group) ==> {
                &&& after.states.contains_key(id)
                &&& state.current_status == ProcessStatus::Running
                &&& state.pid == Some(live_pid)
                &&& state.stopped_at is None
                &&& state.exit_code is None
                &&& state.health_status == Some(HealthStatus::Unknown)
                &&& state == (ProcessRuntimeStateView {
                    current_status: state.current_status,
                    pid: state.pid,
                    stopped_at: state.stopped_at,
                    exit_code: state.exit_code,
                    last_error: state.last_error,
                    health_status: state.health_status,
                    ..rt.state_of(id)
                })
                &&& after.effects.len() == rt.effects.len() + 3
                &&& after.effects.last() == (EffectView::Emit {
                    event: RuntimeEvent::Started,
                    runtime: state,
                })
                &&& state.last_error == Some(
                    "Parent process exited but child process group is still running"@,
                )
                &&& after.process_records.contains_key(id)
                &&& after.process_records[id].pid == live_pid
                &&& after.process_records[id].process_group_id == group
                &&& after.pids.contains_key(id) && after.pids[id] == group
                &&& !(after.effects.last() is RestartLater)
                &&& after.effects[rt.effects.len() as int] == (EffectView::StoreRecords {
                    records: after.process_records,
                })
                &&& shows(
                    after,
                    rt.effects.len() as int + 1,
                    process,
                    LogLevel::Warn,
                    "Parent exited; recovered running process group "@ + decimal(group as nat),
                )
            }
        }),
{
    let id = process.id;
    let after = rt.with_exit(
        config,
        process,
        Some(group),
        false,
        exit,
        Some(live_pid),
        now,
        stamp,
        restart_stamp,
    );
    assert(rt.states.remove(id) =~= after.states.remove(id));
    assert(rt.pids.remove(id) =~= after.pids.remove(id));
    assert(rt.process_records.remove(id) =~= after.process_records.remove(id));
}

/// When the connection to another machine ended, what is left of the process there is killed,
/// where its number is known, and its number is forgotten.
pub proof fn law_leftovers_elsewhere_are_killed(
    rt: RuntimeView,
    machine: Option<MachineView>,
    process_id: Seq<char>,
)
    ensures
        ({
            let after = rt.with_remote_cleanup(machine, process_id);
            &&& after.remote_pids == rt.remote_pids.remove(process_id)
            &&& after.states == rt.states && after.pids == rt.pids && after.process_records
                == rt.process_records && after.logs == rt.logs
            &&& if machine is Some && rt.remote_pids.contains_key(process_id) {
                after.effects == rt.effects.push(
                    EffectView::KillRemote {
                        machine: machine->0,
                        pid: rt.remote_pids[process_id],
                    },
                )
            } else {
                after.effects == rt.effects
            }
        }),
{
}

} // verus!
