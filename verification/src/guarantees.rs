//! What holds of several requests taken together.
use vstd::prelude::*;

use crate::clock::Timestamp;
use crate::logs::{entry_wanted, log_entry, log_history, newest};
use crate::lookup::{kept_where, lemma_first_found, lemma_kept_contains};
use crate::models::{
    ConfigView, LogEntryView, LogHistoryFiltersView, LogLevel, ProcessDefinitionView,
    ProcessRuntimeStateView, StreamType,
};
use crate::runtime::{EffectView, RuntimeView, StampView};
use crate::start::{already_running, AdmissionView, LaunchPlanView};
use crate::status::active;
use crate::stop::{verdict, ExitView, StopRequestView};

verus! {

/// A process that is being started, runs, or is being stopped is not started a second time, and
/// the attempt changes nothing.
pub proof fn law_active_process_is_not_started_again(
    rt: RuntimeView,
    config: ConfigView,
    process_id: Seq<char>,
    stamp: StampView,
)
    requires
        active(rt.state_of(process_id).current_status),
        config.process(process_id) matches Some(process) && process.launchd is None
            && config.project(process.project_id) is Some,
    ensures
        rt.admission(config, process_id) == (AdmissionView::Refused { error: already_running() }),
        rt.with_admission(config, process_id, stamp) == rt,
{
}

/// A process is admitted only if all of its dependencies run, and then no request to stop it is
/// open.
pub proof fn law_admitted_means_dependencies_run(
    rt: RuntimeView,
    config: ConfigView,
    process_id: Seq<char>,
    stamp: StampView,
    group: u32,
)
    requires
        rt.admission(config, process_id) is Admitted,
    ensures
        config.process(process_id) matches Some(process) && forall|i: int|
            0 <= i < process.depends_on.len() ==> rt.dependency_runs(
                config,
                process,
                #[trigger] process.depends_on[i],
            ),
        !rt.with_admission(config, process_id, stamp).stop_requested(process_id, group),
{
    crate::start::law_no_dependency_missing_iff_all_run(
        rt,
        config,
        config.process(process_id)->0,
    );
    crate::tracking::law_all_stop_requests_taken_back(rt, process_id, process_id, group);
}

/// A request to stop a process that was launched is aimed at the group that it was launched in.
pub proof fn law_stop_reaches_what_was_launched(
    rt: RuntimeView,
    config: ConfigView,
    plan: LaunchPlanView,
    pid: u32,
    through_shell: bool,
    launch_stamp: StampView,
    running_stamp: StampView,
    settings_stamp: StampView,
    now: Timestamp,
    stamp: StampView,
)
    requires
        config.process(plan.process.id) == Some(plan.process),
        plan.process.launchd is None,
    ensures
        ({
            let launched = rt.with_launched(
                config,
                plan,
                Some(pid),
                through_shell,
                launch_stamp,
                running_stamp,
                settings_stamp,
            );
            &&& launched.stop_request(
                config,
                plan.process.id,
                now,
            ) matches StopRequestView::Signal { plan: stop } && stop.process_group_id == pid
            &&& launched.with_stop_request(config, plan.process.id, now, stamp).stop_requested(
                plan.process.id,
                pid,
            )
        }),
{
}

/// A process that was launched and ends, nobody of its group living on, is tracked no longer,
/// and no request to stop it is open.
pub proof fn law_launched_and_ended_leaves_nothing_tracked(
    rt: RuntimeView,
    config: ConfigView,
    plan: LaunchPlanView,
    pid: u32,
    through_shell: bool,
    launch_stamp: StampView,
    running_stamp: StampView,
    settings_stamp: StampView,
    is_remote: bool,
    exit: ExitView,
    now: Timestamp,
    stamp: StampView,
    restart_stamp: StampView,
)
    requires
        pid != 0,
    ensures
        ({
            let ended = rt.with_launched(
                config,
                plan,
                Some(pid),
                through_shell,
                launch_stamp,
                running_stamp,
                settings_stamp,
            ).with_exit(
                config,
                plan.process,
                Some(pid),
                is_remote,
                exit,
                None,
                now,
                stamp,
                restart_stamp,
            );
            &&& ended.tracked_group(plan.process.id) is None
            &&& !ended.stop_requested(plan.process.id, pid)
        }),
{
}

/// A process that was launched, and whose group is gone when the wait after a request to stop it
/// is over, has stopped and is tracked no longer.
pub proof fn law_launched_and_stopped_has_stopped(
    rt: RuntimeView,
    config: ConfigView,
    plan: LaunchPlanView,
    pid: u32,
    through_shell: bool,
    launch_stamp: StampView,
    running_stamp: StampView,
    settings_stamp: StampView,
    now: Timestamp,
    stamp: StampView,
    later: Timestamp,
)
    requires
        pid != 0,
        plan.runtime.process_id == plan.process.id,
        config.process(plan.process.id) == Some(plan.process),
        plan.process.launchd is None,
    ensures
        ({
            let launched = rt.with_launched(
                config,
                plan,
                Some(pid),
                through_shell,
                launch_stamp,
                running_stamp,
                settings_stamp,
            );
            let id = plan.process.id;
            launched.stop_request(config, id, now) matches StopRequestView::Signal { plan: stop }
                && {
                let stopped = launched.with_stop_request(
                    config,
                    id,
                    now,
                    stamp,
                ).with_stop_finished(config, stop, None, later);
                &&& stopped.state_of(id).current_status is Stopped
                &&& stopped.state_of(id).pid is None
                &&& stopped.tracked_group(id) is None
                &&& !stopped.stop_requested(id, pid)
            }
        }),
{
}

/// A process that was asked to stop and ends has stopped, whatever its exit status; it is not
/// started again. The same holds of one that ends well.
pub proof fn law_requested_stop_is_no_crash(
    runtime: ProcessRuntimeStateView,
    exit: ExitView,
    stop_requested: bool,
)
    requires
        exit is Ended,
        !(runtime.current_status is Failed),
        stop_requested || exit->success || runtime.current_status is Stopping,
    ensures
        verdict(runtime, exit, stop_requested).runtime.current_status is Stopped,
        verdict(runtime, exit, stop_requested).runtime.last_error is None,
        !verdict(runtime, exit, stop_requested).restarts,
{
}

/// A process that was failed before it ended, as for its memory, stays failed with the reason
/// that was given, and is not started again.
pub proof fn law_failure_outlives_the_process(
    runtime: ProcessRuntimeStateView,
    exit: ExitView,
    stop_requested: bool,
)
    requires
        exit is Ended,
        runtime.current_status is Failed,
    ensures
        verdict(runtime, exit, stop_requested).runtime == runtime,
        !verdict(runtime, exit, stop_requested).restarts,
{
}

/// Any other end is a crash or a failure: it leaves a reason, and the process may be started
/// again.
pub proof fn law_unexpected_end_leaves_a_reason(
    runtime: ProcessRuntimeStateView,
    exit: ExitView,
    stop_requested: bool,
)
    requires
        verdict(runtime, exit, stop_requested).restarts,
    ensures
        verdict(runtime, exit, stop_requested).runtime.current_status is Crashed || verdict(
            runtime,
            exit,
            stop_requested,
        ).runtime.current_status is Failed,
        verdict(runtime, exit, stop_requested).runtime.last_error is Some,
{
}

/// A policy that restarts whenever a process fails.
pub open spec fn always_restarts(process: ProcessDefinitionView) -> bool {
    process.restart_policy.kind is Always || process.restart_policy.kind is OnFailure
}

/// Under a policy that restarts, a process that ends unexpectedly while it is tracked is started
/// again later.
pub proof fn law_crash_is_retried(
    rt: RuntimeView,
    config: ConfigView,
    process: ProcessDefinitionView,
    group: u32,
    is_remote: bool,
    exit: ExitView,
    now: Timestamp,
    stamp: StampView,
    restart_stamp: StampView,
)
    requires
        always_restarts(process),
        rt.tracked_group(process.id) == Some(group),
        verdict(
            rt.exited_state(process.id, exit, now),
            exit,
            rt.stop_requested(process.id, group),
        ).restarts,
    ensures
        ({
            let after = rt.with_exit(
                config,
                process,
                Some(group),
                is_remote,
                exit,
                None,
                now,
                stamp,
                restart_stamp,
            );
            after.effects.last() matches EffectView::RestartLater { process_id, .. } && process_id
                == process.id
        }),
{
}

/// Under a policy that restarts, a process that nobody waits for, as one that was recovered, and
/// that goes away unexpectedly is started again later, too.
pub proof fn law_crash_after_recovery_is_retried(
    rt: RuntimeView,
    config: ConfigView,
    project_id: Seq<char>,
    process_id: Seq<char>,
    group: u32,
    now: Timestamp,
    stamp: StampView,
    restart_stamp: StampView,
)
    requires
        config.pair(project_id, process_id) matches Some(pair) && always_restarts(pair.1),
        !rt.stop_expected(process_id, group),
    ensures
        ({
            let after = rt.with_unmeasured(
                config,
                project_id,
                process_id,
                group,
                None,
                now,
                stamp,
                restart_stamp,
            );
            &&& after.state_of(process_id).current_status is Crashed
            &&& after.effects.last() matches EffectView::RestartLater { process_id: id, .. } && id
                == process_id
        }),
{
    lemma_first_found(
        config.processes,
        |process: ProcessDefinitionView| process.id == process_id,
    );
}

/// The end of a process that is tracked under another group by now changes nothing but that the
/// request to stop the old group is forgotten.
pub proof fn law_stale_end_is_ignored(
    rt: RuntimeView,
    config: ConfigView,
    process: ProcessDefinitionView,
    group: u32,
    is_remote: bool,
    exit: ExitView,
    live_pid: Option<u32>,
    now: Timestamp,
    stamp: StampView,
    restart_stamp: StampView,
)
    requires
        rt.tracked_group(process.id) is Some,
        rt.tracked_group(process.id) != Some(group),
    ensures
        rt.with_exit(
            config,
            process,
            Some(group),
            is_remote,
            exit,
            live_pid,
            now,
            stamp,
            restart_stamp,
        ) == rt.without_stop_requested(process.id, group),
{
}

/// What was logged last is what a history ends with, where the filters let it through and there
/// is room.
pub proof fn law_logged_is_read_back(
    rt: RuntimeView,
    config: ConfigView,
    process: ProcessDefinitionView,
    stream: StreamType,
    level: LogLevel,
    message: Seq<char>,
    stamp: StampView,
    filters: LogHistoryFiltersView,
)
    requires
        config.settings.log_retention_lines > 0,
        filters.limit != Some(0usize),
        entry_wanted(filters, log_entry(process, stream, level, message, stamp)),
    ensures
        ({
            let logs = rt.with_log(config, process, stream, level, message, stamp).logs;
            &&& log_history(logs, filters).len() > 0
            &&& log_history(logs, filters).last() == log_entry(
                process,
                stream,
                level,
                message,
                stamp,
            )
        }),
{
    let entry = log_entry(process, stream, level, message, stamp);
    let logs = rt.with_log(config, process, stream, level, message, stamp).logs;
    crate::logs::law_newest_entries_are_kept(rt, config, process, stream, level, message, stamp);
    let kept = |entry: LogEntryView| entry_wanted(filters, entry);
    assert(logs.len() > 0) by {
        assert(newest(
            rt.logs.push(entry),
            config.settings.log_retention_lines as nat,
        ).len() > 0);
    }
    assert(logs.last() == entry);
    let all = kept_where(logs, kept);
    assert(all.last() == entry);
}

/// After the history of a project was cleared, nothing of the project is left in it, and all of
/// the others is.
pub proof fn law_cleared_project_is_gone(
    logs: Seq<LogEntryView>,
    project_id: Seq<char>,
    entry: LogEntryView,
)
    ensures
        ({
            let left = kept_where(logs, |entry: LogEntryView| entry.project_id != project_id);
            left.contains(entry) <==> logs.contains(entry) && entry.project_id != project_id
        }),
{
    lemma_kept_contains(logs, |entry: LogEntryView| entry.project_id != project_id, entry);
}

} // verus!
