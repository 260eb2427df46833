//! What every operation keeps: the parts of the state agree with each other.
use vstd::prelude::*;

use crate::clock::Timestamp;
use crate::external::{
    adopted_record, match_from, sync_all, sync_one, DirectoryView, Sync, SyncCandidateView,
};
use crate::launchd::LaunchdStateView;
use crate::logs::{
    batches_sorted, law_flush_sends_everything, law_output_is_sent_in_order, StreamEndView,
};
use crate::models::{
    ConfigView, HealthStatus, LogLevel, ProcessDefinitionView, ProcessRuntimeStateView,
    ProjectView, RuntimeProcessRecordView, StreamType,
};
use crate::platform::{ExternalProcessRowView, GroupErrorView, Platform};
use crate::recovery::{recovered_records, surviving_records, CandidateView};
use crate::runtime::{RuntimeEvent, RuntimeView, StampView};
use crate::start::{LaunchPlanView, LaunchView};
use crate::stop::{ExitView, StopPlanView, Verdict};
use crate::text_map::lists;
use crate::tracking::group_of;

verus! {

impl RuntimeView {
    /// Every state is found under the id of its process.
    pub open spec fn states_keyed(self) -> bool {
        forall|id: Seq<char>| #[trigger]
            self.states.contains_key(id) ==> self.states[id].process_id == id
    }

    /// The tracked processes: every record is found under the id of its process and has a
    /// group, and the groups are those of the records.
    pub open spec fn tracking_sound(self) -> bool {
        &&& self.pids.dom() == self.process_records.dom()
        &&& forall|id: Seq<char>| #[trigger]
            self.process_records.contains_key(id) ==> self.process_records[id].process_id == id
                && self.process_records[id].process_group_id != 0 && self.pids[id]
                == self.process_records[id].process_group_id
    }

    /// The parts of the state agree with each other.
    pub open spec fn sound(self) -> bool {
        self.states_keyed() && self.tracking_sound() && batches_sorted(self)
    }
}

/// Nothing is known, and that is sound.
pub proof fn law_empty_is_sound()
    ensures
        RuntimeView::empty().sound(),
{
    assert(RuntimeView::empty().pids.dom() =~= RuntimeView::empty().process_records.dom());
}

// ---------------------------------------------------------------------------
// Steps
// ---------------------------------------------------------------------------

proof fn lemma_batches_same(rt: RuntimeView, after: RuntimeView)
    requires
        batches_sorted(rt),
        after.log_batches == rt.log_batches,
    ensures
        batches_sorted(after),
{
    assert forall|id: Seq<char>, i: int|
        #![trigger after.log_batches[id][i]]
        after.log_batches.contains_key(id) && 0 <= i
            < after.log_batches[id].len() implies after.log_batches[id][i].process_id == id by {
        assert(rt.log_batches[id][i].process_id == id);
    }
}

/// Giving a process a new state keeps the state sound.
pub proof fn law_set_state_keeps_sound(
    rt: RuntimeView,
    config: ConfigView,
    runtime: ProcessRuntimeStateView,
    event: RuntimeEvent,
)
    requires
        rt.sound(),
    ensures
        rt.with_state(config, runtime, event).sound(),
        rt.with_state(config, runtime, event).process_records == rt.process_records,
{
    lemma_batches_same(rt, rt.with_state(config, runtime, event));
}

/// Adding to a log keeps the state sound.
pub proof fn law_log_keeps_sound(
    rt: RuntimeView,
    config: ConfigView,
    process: ProcessDefinitionView,
    stream: StreamType,
    level: LogLevel,
    message: Seq<char>,
    stamp: StampView,
)
    requires
        rt.sound(),
    ensures
        rt.with_log(config, process, stream, level, message, stamp).sound(),
        rt.with_log(config, process, stream, level, message, stamp).process_records
            == rt.process_records,
        rt.with_log(config, process, stream, level, message, stamp).states == rt.states,
{
    law_output_is_sent_in_order(rt, config, process, stream, level, message, stamp, process.id);
}

proof fn lemma_note(
    rt: RuntimeView,
    config: ConfigView,
    process: ProcessDefinitionView,
    level: LogLevel,
    message: Seq<char>,
    stamp: StampView,
)
    requires
        rt.sound(),
    ensures
        rt.with_note(config, process, level, message, stamp).sound(),
        rt.with_note(config, process, level, message, stamp).process_records
            == rt.process_records,
        rt.with_note(config, process, level, message, stamp).states == rt.states,
{
    law_log_keeps_sound(rt, config, process, StreamType::System, level, message, stamp);
}

proof fn lemma_tracked_pid(rt: RuntimeView, process_id: Seq<char>, pid: u32, group: u32)
    requires
        rt.sound(),
    ensures
        rt.with_tracked_pid(process_id, pid, group).sound(),
{
    let after = rt.with_tracked_pid(process_id, pid, group);
    assert(after.pids.dom() =~= after.process_records.dom());
    lemma_batches_same(rt, after);
}

proof fn lemma_untracked(rt: RuntimeView, process_id: Seq<char>)
    requires
        rt.sound(),
    ensures
        rt.without_tracked(process_id).sound(),
{
    let after = rt.without_tracked(process_id);
    assert(after.pids.dom() =~= after.process_records.dom());
    lemma_batches_same(rt, after);
}

proof fn lemma_untracked_group(rt: RuntimeView, process_id: Seq<char>, group: u32)
    requires
        rt.sound(),
    ensures
        rt.without_tracked_group(process_id, group).sound(),
        rt.with_group_untracked(process_id, group).sound(),
{
    let after = rt.without_tracked_group(process_id, group);
    assert(after.pids.dom() =~= after.process_records.dom());
    lemma_batches_same(rt, after);
    lemma_batches_same(rt, rt.with_group_untracked(process_id, group));
}

proof fn lemma_restart(
    rt: RuntimeView,
    config: ConfigView,
    process: ProcessDefinitionView,
    now: Timestamp,
    stamp: StampView,
)
    requires
        rt.sound(),
    ensures
        rt.with_restart_scheduled(config, process, now, stamp).sound(),
{
    let counted = rt.with_attempts_reset(process.id, now);
    lemma_batches_same(rt, counted);
    assert(counted.sound());
    let after = rt.with_restart_scheduled(config, process, now, stamp);
    assert forall|level: LogLevel, message: Seq<char>|
        counted.with_note(config, process, level, message, stamp).sound() by {
        lemma_note(counted, config, process, level, message, stamp);
    }
    assert(after.log_batches == rt.log_batches);
    lemma_batches_same(rt, after);
}

// ---------------------------------------------------------------------------
// Operations
// ---------------------------------------------------------------------------

/// Taking in a request to start a process keeps the state sound.
pub proof fn law_admission_keeps_sound(
    rt: RuntimeView,
    config: ConfigView,
    process_id: Seq<char>,
    stamp: StampView,
)
    requires
        rt.sound(),
    ensures
        rt.with_admission(config, process_id, stamp).sound(),
{
    let after = rt.with_admission(config, process_id, stamp);
    lemma_batches_same(rt, after);
}

/// Preparing a launch keeps the state sound.
pub proof fn law_preparation_keeps_sound(
    rt: RuntimeView,
    config: ConfigView,
    launch: LaunchView,
    exists: bool,
    now: Timestamp,
    stamp: StampView,
)
    requires
        rt.sound(),
    ensures
        rt.with_start_prepared(config, launch, exists, now, stamp).sound(),
{
    lemma_batches_same(rt, rt.with_start_prepared(config, launch, exists, now, stamp));
}

/// Taking in a launch keeps the state sound.
pub proof fn law_launch_keeps_sound(
    rt: RuntimeView,
    config: ConfigView,
    plan: LaunchPlanView,
    pid: Option<u32>,
    through_shell: bool,
    launch_stamp: StampView,
    running_stamp: StampView,
    settings_stamp: StampView,
)
    requires
        rt.sound(),
        pid != Some(0u32),
    ensures
        rt.with_launched(
            config,
            plan,
            pid,
            through_shell,
            launch_stamp,
            running_stamp,
            settings_stamp,
        ).sound(),
{
    let after = rt.with_launched(
        config,
        plan,
        pid,
        through_shell,
        launch_stamp,
        running_stamp,
        settings_stamp,
    );
    assert(after.pids.dom() =~= after.process_records.dom());
    lemma_batches_same(rt, after);
}

/// Taking in a failed launch keeps the state sound.
pub proof fn law_failed_launch_keeps_sound(
    rt: RuntimeView,
    config: ConfigView,
    process: ProcessDefinitionView,
    runtime: ProcessRuntimeStateView,
    details: Seq<char>,
    now: Timestamp,
    stamp: StampView,
    restart_stamp: StampView,
)
    requires
        rt.sound(),
    ensures
        rt.with_spawn_failure(
            config,
            process,
            runtime,
            details,
            now,
            stamp,
        ).with_restart_scheduled(config, process, now, restart_stamp).sound(),
{
    let failed = rt.with_spawn_failure(config, process, runtime, details, now, stamp);
    lemma_batches_same(rt, failed);
    lemma_restart(failed, config, process, now, restart_stamp);
}

/// Taking in a request to stop a process keeps the state sound.
pub proof fn law_stop_request_keeps_sound(
    rt: RuntimeView,
    config: ConfigView,
    process_id: Seq<char>,
    now: Timestamp,
    stamp: StampView,
)
    requires
        rt.sound(),
    ensures
        rt.with_stop_request(config, process_id, now, stamp).sound(),
{
    lemma_batches_same(rt, rt.with_stop_request(config, process_id, now, stamp));
}

/// Taking in the answer to the signal keeps the state sound.
pub proof fn law_stop_signal_keeps_sound(
    rt: RuntimeView,
    config: ConfigView,
    plan: StopPlanView,
    error: Option<GroupErrorView>,
    now: Timestamp,
)
    requires
        rt.sound(),
    ensures
        rt.with_stop_signalled(config, plan, error, now).sound(),
{
    let after = rt.with_stop_signalled(config, plan, error, now);
    lemma_untracked_group(rt, plan.process.id, plan.process_group_id);
    lemma_batches_same(rt, after);
}

/// Ending the wait for a process group keeps the state sound, and the request to stop it is
/// forgotten.
pub proof fn law_stop_end_keeps_sound(
    rt: RuntimeView,
    config: ConfigView,
    plan: StopPlanView,
    live_pid: Option<u32>,
    now: Timestamp,
)
    requires
        rt.sound(),
    ensures
        rt.with_stop_finished(config, plan, live_pid, now).sound(),
        !rt.with_stop_finished(config, plan, live_pid, now).stop_requested(
            plan.process.id,
            plan.process_group_id,
        ),
{
    let after = rt.with_stop_finished(config, plan, live_pid, now);
    lemma_untracked_group(rt, plan.process.id, plan.process_group_id);
    if let Some(pid) = live_pid {
        lemma_tracked_pid(rt, plan.process.id, pid, plan.process_group_id);
    }
    lemma_batches_same(rt, after);
}

proof fn lemma_verdict(
    rt: RuntimeView,
    config: ConfigView,
    process: ProcessDefinitionView,
    verdict: Verdict,
    now: Timestamp,
    stamp: StampView,
    restart_stamp: StampView,
)
    requires
        rt.sound(),
    ensures
        rt.with_verdict(config, process, verdict, now, stamp, restart_stamp).sound(),
{
    let noted = rt.with_note(config, process, verdict.level, verdict.message, stamp);
    lemma_note(rt, config, process, verdict.level, verdict.message, stamp);
    law_set_state_keeps_sound(noted, config, verdict.runtime, verdict.event);
    let told = noted.with_state(config, verdict.runtime, verdict.event);
    lemma_restart(told, config, process, now, restart_stamp);
}

/// Taking in the end of a process keeps the state sound, and a request to stop it is forgotten.
pub proof fn law_exit_keeps_sound(
    rt: RuntimeView,
    config: ConfigView,
    process: ProcessDefinitionView,
    process_group_id: Option<u32>,
    is_remote: bool,
    exit: ExitView,
    live_pid: Option<u32>,
    now: Timestamp,
    stamp: StampView,
    restart_stamp: StampView,
)
    requires
        rt.sound(),
    ensures
        ({
            let after = rt.with_exit(
                config,
                process,
                process_group_id,
                is_remote,
                exit,
                live_pid,
                now,
                stamp,
                restart_stamp,
            );
            &&& after.sound()
            &&& process_group_id matches Some(group) ==> !after.stop_requested(process.id, group)
        }),
{
    let exited = rt.exited_state(process.id, exit, now);
    let survivor = if is_remote {
        None
    } else {
        live_pid
    };
    match (process_group_id, survivor) {
        (None, _) => {
            lemma_verdict(
                rt,
                config,
                process,
                crate::stop::verdict(exited, exit, false),
                now,
                stamp,
                restart_stamp,
            );
        },
        (Some(group), Some(pid)) => {
            lemma_tracked_pid(rt, process.id, pid, group);
            lemma_batches_same(
                rt,
                rt.with_exit(
                    config,
                    process,
                    process_group_id,
                    is_remote,
                    exit,
                    live_pid,
                    now,
                    stamp,
                    restart_stamp,
                ),
            );
        },
        (Some(group), None) => {
            lemma_untracked_group(rt, process.id, group);
            let untracked = rt.with_group_untracked(process.id, group);
            let cleared = untracked.without_stop_requested(process.id, group);
            lemma_batches_same(rt, cleared);
            lemma_batches_same(rt, rt.without_stop_requested(process.id, group));
            lemma_verdict(
                cleared,
                config,
                process,
                crate::stop::verdict(exited, exit, rt.stop_requested(process.id, group)),
                now,
                stamp,
                restart_stamp,
            );
        },
    }
}

/// Taking in that a process could not be measured keeps the state sound.
pub proof fn law_unmeasured_keeps_sound(
    rt: RuntimeView,
    config: ConfigView,
    project_id: Seq<char>,
    process_id: Seq<char>,
    process_group_id: u32,
    live_pid: Option<u32>,
    now: Timestamp,
    stamp: StampView,
    restart_stamp: StampView,
)
    requires
        rt.sound(),
    ensures
        rt.with_unmeasured(
            config,
            project_id,
            process_id,
            process_group_id,
            live_pid,
            now,
            stamp,
            restart_stamp,
        ).sound(),
{
    match live_pid {
        Some(pid) => {
            lemma_tracked_pid(rt, process_id, pid, process_group_id);
            let after = rt.with_tracked_pid(process_id, pid, process_group_id);
            lemma_batches_same(after, after.with_records_stored());
        },
        None => {
            lemma_untracked(rt, process_id);
            let untracked = rt.without_tracked(process_id);
            let gone = untracked.with_records_stored();
            lemma_batches_same(untracked, gone);
            if let Some((project, process)) = config.pair(project_id, process_id) {
                let stopped = ProcessRuntimeStateView {
                    stopped_at: Some(now),
                    ..ProcessRuntimeStateView::stopped(process_id)
                };
                let crashed = ProcessRuntimeStateView {
                    current_status: crate::models::ProcessStatus::Crashed,
                    last_error: Some("Recovered process group exited unexpectedly"@),
                    ..stopped
                };
                law_set_state_keeps_sound(gone, config, stopped, RuntimeEvent::Stopped);
                law_set_state_keeps_sound(gone, config, crashed, RuntimeEvent::Failed);
                let text = "Recovered process group "@ + crate::text::decimal(
                    process_group_id as nat,
                );
                lemma_note(
                    gone.with_state(config, stopped, RuntimeEvent::Stopped),
                    config,
                    process,
                    LogLevel::Info,
                    text + " exited"@,
                    stamp,
                );
                let down = gone.with_state(config, crashed, RuntimeEvent::Failed);
                lemma_note(down, config, process, LogLevel::Error, text + " crashed"@, stamp);
                lemma_restart(
                    down.with_note(config, process, LogLevel::Error, text + " crashed"@, stamp),
                    config,
                    process,
                    now,
                    restart_stamp,
                );
            }
        },
    }
}

/// Taking in a measurement keeps the state sound.
pub proof fn law_measurement_keeps_sound(
    rt: RuntimeView,
    config: ConfigView,
    project_id: Seq<char>,
    process_id: Seq<char>,
    pid: u32,
    memory_usage: u64,
    cpu_usage: Option<u64>,
    cpu_moved: bool,
    now: Timestamp,
    stamp: StampView,
)
    requires
        rt.sound(),
    ensures
        rt.with_measurement(
            config,
            project_id,
            process_id,
            pid,
            memory_usage,
            cpu_usage,
            cpu_moved,
            now,
            stamp,
        ).sound(),
{
    lemma_batches_same(
        rt,
        rt.with_measurement(
            config,
            project_id,
            process_id,
            pid,
            memory_usage,
            cpu_usage,
            cpu_moved,
            now,
            stamp,
        ),
    );
}

proof fn lemma_members(
    rt: RuntimeView,
    config: ConfigView,
    processes: Seq<ProcessDefinitionView>,
    details: Seq<char>,
    stamps: Seq<StampView>,
)
    requires
        rt.sound(),
    ensures
        rt.with_members_over_limit(config, processes, details, stamps).sound(),
    decreases processes.len(),
{
    if processes.len() > 0 {
        lemma_members(rt, config, processes.drop_last(), details, stamps);
        let before = rt.with_members_over_limit(config, processes.drop_last(), details, stamps);
        lemma_batches_same(
            before,
            before.with_member_over_limit(
                config,
                processes.last(),
                details,
                stamps[processes.len() - 1],
            ),
        );
    }
}

/// Failing a project for its memory keeps the state sound.
pub proof fn law_project_limit_keeps_sound(
    rt: RuntimeView,
    config: ConfigView,
    project: ProjectView,
    usage: u64,
    limit: u64,
    stamps: Seq<StampView>,
)
    requires
        rt.sound(),
    ensures
        rt.with_project_over_limit(config, project, usage, limit, stamps).sound(),
{
    lemma_members(
        rt,
        config,
        config.processes_of(project.id),
        crate::memory::limit_details("Project"@, usage, limit),
        stamps,
    );
}

/// Taking in what launchd says keeps the state sound.
pub proof fn law_reconciling_keeps_sound(
    rt: RuntimeView,
    config: ConfigView,
    process: ProcessDefinitionView,
    observed: LaunchdStateView,
    now: Timestamp,
    stamp: StampView,
)
    requires
        rt.sound(),
    ensures
        rt.with_reconciled(config, process, observed, now, stamp).sound(),
{
    lemma_batches_same(rt, rt.with_reconciled(config, process, observed, now, stamp));
}

/// Taking in a health check keeps the state sound.
pub proof fn law_health_check_keeps_sound(
    rt: RuntimeView,
    config: ConfigView,
    process: ProcessDefinitionView,
    outcome: Result<HealthStatus, Seq<char>>,
    now: Timestamp,
    stamp: StampView,
)
    requires
        rt.sound(),
    ensures
        rt.with_health(config, process, outcome, now, stamp).sound(),
{
    lemma_batches_same(rt, rt.with_health(config, process, outcome, now, stamp));
}

/// Taking in a line of output keeps the state sound.
pub proof fn law_line_keeps_sound(
    rt: RuntimeView,
    config: ConfigView,
    process: ProcessDefinitionView,
    stream: StreamType,
    is_remote: bool,
    line: Seq<char>,
    announced_pid: Option<u32>,
    stamp: StampView,
)
    requires
        rt.sound(),
    ensures
        rt.with_line_read(config, process, stream, is_remote, line, announced_pid, stamp).sound(),
{
    let clean = if is_remote {
        crate::text::without_trailing(line, '\r')
    } else {
        line
    };
    law_log_keeps_sound(
        rt,
        config,
        process,
        stream,
        crate::logs::stream_level(stream),
        clean,
        stamp,
    );
    if let Some(pid) = announced_pid {
        let known = RuntimeView { remote_pids: rt.remote_pids.insert(process.id, pid), ..rt };
        lemma_batches_same(rt, known);
        lemma_note(
            known,
            config,
            process,
            LogLevel::Debug,
            "Remote pid "@ + crate::text::decimal(pid as nat) + " captured"@,
            stamp,
        );
    }
}

/// Taking in the end of a stream keeps the state sound, and nothing of the process's output is
/// left waiting.
pub proof fn law_stream_end_keeps_sound(
    rt: RuntimeView,
    config: ConfigView,
    process: ProcessDefinitionView,
    stream: StreamType,
    end: StreamEndView,
    stamp: StampView,
)
    requires
        rt.sound(),
    ensures
        rt.with_stream_ended(config, process, stream, end, stamp).sound(),
        rt.with_stream_ended(config, process, stream, end, stamp).waiting_output(process.id).len()
            == 0,
{
    let (level, message) = match end {
        StreamEndView::Closed => (
            LogLevel::Debug,
            crate::logs::stream_name(stream) + " stream closed"@,
        ),
        StreamEndView::Failed { error } => (
            LogLevel::Warn,
            crate::logs::stream_name(stream) + " reader error: "@ + error,
        ),
    };
    lemma_note(rt, config, process, level, message, stamp);
    law_flush_sends_everything(
        rt.with_note(config, process, level, message, stamp),
        process.id,
        process.id,
    );
}

proof fn lemma_found(
    rt: RuntimeView,
    config: ConfigView,
    process: ProcessDefinitionView,
    record: RuntimeProcessRecordView,
    message: Seq<char>,
    stamp: StampView,
)
    requires
        rt.sound(),
        record.process_group_id != 0,
    ensures
        rt.with_found(config, process, record, message, stamp).sound(),
{
    let after = rt.with_found(config, process, record, message, stamp);
    assert(after.pids.dom() =~= after.process_records.dom());
    lemma_batches_same(rt, after);
}

proof fn lemma_sync(
    platform: Platform,
    config: ConfigView,
    start: Sync,
    list: Seq<SyncCandidateView>,
    rows: Seq<ExternalProcessRowView>,
    directories: Seq<Seq<DirectoryView>>,
    now: Timestamp,
    stamps: Seq<StampView>,
)
    requires
        start.rt.sound(),
        forall|i: int| 0 <= i < rows.len() ==> (#[trigger] rows[i]).process_group_id != 0,
    ensures
        sync_all(platform, config, start, list, rows, directories, now, stamps).rt.sound(),
    decreases list.len(),
{
    if list.len() > 0 {
        let i = list.len() - 1;
        lemma_sync(platform, config, start, list.drop_last(), rows, directories, now, stamps);
        let before = sync_all(
            platform,
            config,
            start,
            list.drop_last(),
            rows,
            directories,
            now,
            stamps,
        );
        let candidate = list.last();
        let found = match_from(
            platform,
            rows,
            directories[i],
            before.groups,
            candidate.cwd,
            candidate.tokens,
            0,
        );
        lemma_match_from(
            platform,
            rows,
            directories[i],
            before.groups,
            candidate.cwd,
            candidate.tokens,
            0,
        );
        if let Some(at) = found {
            assert(rows[at].process_group_id != 0);
            lemma_found(
                before.rt,
                config,
                candidate.process,
                adopted_record(candidate, rows[at], now),
                "Adopted running process group "@ + crate::text::decimal(
                    rows[at].process_group_id as nat,
                ),
                stamps[i],
            );
        }
    }
}

proof fn lemma_match_from(
    platform: Platform,
    rows: Seq<ExternalProcessRowView>,
    directories: Seq<DirectoryView>,
    groups: Set<u32>,
    configured_cwd: Seq<char>,
    tokens: Seq<Seq<char>>,
    from: int,
)
    requires
        0 <= from,
    ensures
        match_from(
            platform,
            rows,
            directories,
            groups,
            configured_cwd,
            tokens,
            from,
        ) matches Some(at) ==> 0 <= at < rows.len() && !groups.contains(rows[at].process_group_id),
    decreases rows.len() - from,
{
    if from < rows.len() {
        lemma_match_from(platform, rows, directories, groups, configured_cwd, tokens, from + 1);
    }
}

/// Adopting processes keeps the state sound.
pub proof fn law_sync_keeps_sound(
    platform: Platform,
    rt: RuntimeView,
    config: ConfigView,
    list: Seq<SyncCandidateView>,
    rows: Seq<ExternalProcessRowView>,
    directories: Seq<Seq<DirectoryView>>,
    now: Timestamp,
    stamps: Seq<StampView>,
)
    requires
        rt.sound(),
        forall|i: int| 0 <= i < rows.len() ==> (#[trigger] rows[i]).process_group_id != 0,
    ensures
        rt.with_synced(platform, config, list, rows, directories, now, stamps).sound(),
{
    let start = Sync {
        rt,
        groups: crate::tracking::tracked_groups(rt.process_records),
        adopted: false,
    };
    lemma_sync(platform, config, start, list, rows, directories, now, stamps);
    let end = sync_all(platform, config, start, list, rows, directories, now, stamps);
    lemma_batches_same(end.rt, end.rt.with_records_stored());
}

/// A group is never adopted by two processes in one search, nor adopted while it is tracked.
pub proof fn law_no_group_adopted_twice(
    platform: Platform,
    config: ConfigView,
    sync: Sync,
    candidate: SyncCandidateView,
    rows: Seq<ExternalProcessRowView>,
    directories: Seq<DirectoryView>,
    now: Timestamp,
    stamp: StampView,
)
    ensures
        ({
            let after = sync_one(platform, config, sync, candidate, rows, directories, now, stamp);
            after != sync ==> exists|at: int|
                #![trigger rows[at]]
                0 <= at < rows.len() && !sync.groups.contains(rows[at].process_group_id)
                    && after.groups == sync.groups.insert(rows[at].process_group_id)
        }),
{
    lemma_match_from(platform, rows, directories, sync.groups, candidate.cwd, candidate.tokens, 0);
    if let Some(at) = match_from(
        platform,
        rows,
        directories,
        sync.groups,
        candidate.cwd,
        candidate.tokens,
        0,
    ) {
        assert(!sync.groups.contains(rows[at].process_group_id));
    }
}

proof fn lemma_recovered_records(list: Seq<CandidateView>, live_pids: Seq<Option<u32>>)
    requires
        forall|i: int| 0 <= i < list.len() ==> group_of((#[trigger] list[i]).record) != 0,
    ensures
        forall|id: Seq<char>| #[trigger]
            recovered_records(list, live_pids).contains_key(id) ==> recovered_records(
                list,
                live_pids,
            )[id].process_id == id && recovered_records(list, live_pids)[id].process_group_id != 0,
    decreases list.len(),
{
    if list.len() > 0 {
        let front = list.drop_last();
        assert forall|i: int| 0 <= i < front.len() implies group_of((#[trigger] front[i]).record)
            != 0 by {
            assert(front[i] == list[i]);
        }
        lemma_recovered_records(front, live_pids);
        assert(group_of(list[list.len() - 1].record) != 0);
        let before = recovered_records(front, live_pids);
        let after = recovered_records(list, live_pids);
        assert forall|id: Seq<char>| #[trigger] after.contains_key(id) implies after[id].process_id
            == id && after[id].process_group_id != 0 by {
            if id != list.last().process.id || live_pids[list.len() - 1] is None {
                assert(before.contains_key(id));
            }
        }
    }
}

proof fn lemma_with_records(rt: RuntimeView, records: Map<Seq<char>, RuntimeProcessRecordView>)
    requires
        rt.states_keyed(),
        batches_sorted(rt),
        forall|id: Seq<char>| #[trigger]
            records.contains_key(id) ==> records[id].process_id == id
                && records[id].process_group_id != 0,
    ensures
        rt.with_records(records).with_records_stored().sound(),
{
    let after = rt.with_records(records).with_records_stored();
    assert(after.pids.dom() =~= after.process_records.dom());
    lemma_batches_same(rt, after);
}

proof fn lemma_candidates(
    rt: RuntimeView,
    config: ConfigView,
    list: Seq<CandidateView>,
    live_pids: Seq<Option<u32>>,
    now: Timestamp,
    stamps: Seq<StampView>,
)
    requires
        rt.states_keyed(),
        batches_sorted(rt),
    ensures
        rt.with_candidates(config, list, live_pids, now, stamps).states_keyed(),
        batches_sorted(rt.with_candidates(config, list, live_pids, now, stamps)),
    decreases list.len(),
{
    if list.len() > 0 {
        lemma_candidates(rt, config, list.drop_last(), live_pids, now, stamps);
        let before = rt.with_candidates(config, list.drop_last(), live_pids, now, stamps);
        let i = list.len() - 1;
        lemma_batches_same(
            before,
            before.with_candidate(config, list.last(), live_pids[i], now, stamps[i]),
        );
    }
}

/// After a recovery the records and the groups agree, whatever the stored records were, so long
/// as each of them names a group.
pub proof fn law_recovery_makes_sound(
    rt: RuntimeView,
    config: ConfigView,
    list: Seq<CandidateView>,
    live_pids: Seq<Option<u32>>,
    now: Timestamp,
    stamps: Seq<StampView>,
)
    requires
        rt.states_keyed(),
        batches_sorted(rt),
        rt.process_records != Map::<Seq<char>, RuntimeProcessRecordView>::empty(),
        forall|i: int| 0 <= i < list.len() ==> group_of((#[trigger] list[i]).record) != 0,
    ensures
        rt.with_recovery(config, list, live_pids, now, stamps).sound(),
{
    lemma_candidates(rt, config, list, live_pids, now, stamps);
    lemma_recovered_records(list, live_pids);
    lemma_with_records(
        rt.with_candidates(config, list, live_pids, now, stamps),
        recovered_records(list, live_pids),
    );
}

proof fn lemma_surviving_records(
    list: Seq<(Seq<char>, RuntimeProcessRecordView)>,
    live_pids: Seq<Option<u32>>,
)
    requires
        forall|i: int|
            0 <= i < list.len() ==> group_of((#[trigger] list[i]).1) != 0 && list[i].1.process_id
                == list[i].0,
    ensures
        forall|id: Seq<char>| #[trigger]
            surviving_records(list, live_pids).contains_key(id) ==> surviving_records(
                list,
                live_pids,
            )[id].process_id == id && surviving_records(list, live_pids)[id].process_group_id != 0,
    decreases list.len(),
{
    if list.len() > 0 {
        let front = list.drop_last();
        assert forall|i: int| 0 <= i < front.len() implies group_of((#[trigger] front[i]).1) != 0
            && front[i].1.process_id == front[i].0 by {
            assert(front[i] == list[i]);
        }
        lemma_surviving_records(front, live_pids);
        assert(group_of(list[list.len() - 1].1) != 0);
        let before = surviving_records(front, live_pids);
        let after = surviving_records(list, live_pids);
        assert forall|id: Seq<char>| #[trigger] after.contains_key(id) implies after[id].process_id
            == id && after[id].process_group_id != 0 by {
            if id != list.last().0 || live_pids[list.len() - 1] is None {
                assert(before.contains_key(id));
            }
        }
    }
}

/// The orchestrator's end keeps the state sound.
pub proof fn law_shutdown_keeps_sound(
    rt: RuntimeView,
    list: Seq<(Seq<char>, RuntimeProcessRecordView)>,
    live_pids: Seq<Option<u32>>,
    now: Timestamp,
)
    requires
        rt.sound(),
        lists(list, rt.process_records),
    ensures
        rt.with_shutdown(rt.process_records, surviving_records(list, live_pids), now).sound(),
{
    assert forall|i: int| 0 <= i < list.len() implies group_of((#[trigger] list[i]).1) != 0
        && list[i].1.process_id == list[i].0 by {
        assert(rt.process_records.contains_key(list[i].0));
    }
    lemma_surviving_records(list, live_pids);
    let survivors = surviving_records(list, live_pids);
    lemma_with_records(rt, survivors);
    let after = rt.with_shutdown(rt.process_records, survivors, now);
    lemma_batches_same(rt, after);
}

} // verus!
