//! What is answered to questions about projects and processes.
use vstd::prelude::*;

use crate::clock::Timestamp;
use crate::external::group_tracked;
use crate::laws::frames::shows;
use crate::launchd::unsafe_service;
use crate::lookup::{
    kept_where, lemma_kept_contains, lemma_kept_len, process_not_found, project_not_found,
};
use crate::models::{
    ConfigView, HealthStatus, LogLevel, ProcessDefinitionView, ProcessRuntimeStateView,
    ProcessStatus, ProjectView,
};
use crate::requests::{
    by_startup_order, count_states, dashboard, failed_processes, health_check_of, health_counts,
    insert_project, law_startup_order_is_stable_sort, marked_projects, started_by_themselves,
    started_with_project, RestartRequestView,
};
use crate::runtime::{EffectView, RuntimeEvent, RuntimeView, StampView};
use crate::start::already_running;

verus! {

/// The detail of a project holds its processes, the state of each at the same place, what its
/// status is by these states, and its latest 250 lines.
pub proof fn law_project_detail(
    rt: RuntimeView,
    config: ConfigView,
    project_id: Seq<char>,
)
    ensures
        match (config.project(project_id), rt.project_detail(config, project_id)) {
            (None, Err(error)) => error.code == "PROJECT_NOT_FOUND"@,
            (Some(project), Ok(detail)) => {
                &&& detail.project == project
                &&& detail.processes == config.processes_of(project_id)
                &&& detail.runtime_states.len() == detail.processes.len()
                &&& forall|i: int|
                    #![trigger detail.runtime_states[i]]
                    0 <= i < detail.processes.len() ==> detail.runtime_states[i] == rt.state_of(
                        detail.processes[i].id,
                    )
                &&& detail.status == crate::status::project_status(detail.runtime_states)
                &&& detail.recent_logs == crate::logs::project_logs(rt.logs, project_id, 250)
            },
            _ => false,
        },
{
}

/// A configured process is in scope: in any project, or in the one named.
pub open spec fn counts(config: ConfigView, project_id: Option<Seq<char>>, id: Seq<char>) -> bool {
    exists|k: int|
        #![trigger config.processes[k]]
        0 <= k < config.processes.len() && config.processes[k].id == id && (project_id is None
            || config.processes[k].project_id == project_id->0)
}

/// One more state counts once, and only if it is in scope: as healthy, as unhealthy where it is
/// that or degraded, and as unknown otherwise.
pub proof fn law_health_with_one_more_state(
    config: ConfigView,
    project_id: Option<Seq<char>>,
    list: Seq<(Seq<char>, ProcessRuntimeStateView)>,
    id: Seq<char>,
    state: ProcessRuntimeStateView,
)
    ensures
        health_counts(config, project_id, Seq::empty()) == (0nat, 0nat, 0nat),
        ({
            let (healthy, unhealthy, unknown) = health_counts(config, project_id, list);
            health_counts(config, project_id, list.push((id, state))) == (if !counts(
                config,
                project_id,
                state.process_id,
            ) {
                (healthy, unhealthy, unknown)
            } else if state.health_status == Some(HealthStatus::Healthy) {
                (healthy + 1, unhealthy, unknown)
            } else if state.health_status == Some(HealthStatus::Unhealthy) || state.health_status
                == Some(HealthStatus::Degraded) {
                (healthy, unhealthy + 1, unknown)
            } else {
                (healthy, unhealthy, unknown + 1)
            })
        }),
{
    assert(list.push((id, state)).drop_last() =~= list);
    if config.in_scope(project_id, state.process_id) {
        let k = choose|k: int|
            0 <= k < config.processes.len() && (#[trigger] config.processes[k]).id
                == state.process_id && (project_id is None || project_id == Some(
                config.processes[k].project_id,
            ));
        assert(config.processes[k].id == state.process_id);
    }
    if counts(config, project_id, state.process_id) {
        let k = choose|k: int|
            #![trigger config.processes[k]]
            0 <= k < config.processes.len() && config.processes[k].id == state.process_id && (
            project_id is None || config.processes[k].project_id == project_id->0);
        assert(config.in_scope(project_id, state.process_id));
    }
}

/// The health of processes is answered under three names.
pub proof fn law_health_summary_names(
    config: ConfigView,
    project_id: Option<Seq<char>>,
    list: Seq<(Seq<char>, ProcessRuntimeStateView)>,
    name: Seq<char>,
)
    ensures
        ({
            let summary = crate::requests::health_summary(config, project_id, list);
            let (healthy, unhealthy, unknown) = health_counts(config, project_id, list);
            &&& summary.contains_key(name) <==> name == "healthy"@ || name == "unhealthy"@ || name
                == "unknown"@
            &&& summary["healthy"@] == healthy as usize
            &&& summary["unhealthy"@] == unhealthy as usize
            &&& summary["unknown"@] == unknown as usize
        }),
{
    reveal_strlit("healthy");
    reveal_strlit("unhealthy");
    reveal_strlit("unknown");
    assert("healthy"@.len() == 7 && "unhealthy"@.len() == 9 && "unknown"@.len() == 7);
    assert("healthy"@[0] == 'h' && "unknown"@[0] == 'u');
}

proof fn lemma_count_within(
    list: Seq<(Seq<char>, ProcessRuntimeStateView)>,
    test: spec_fn(ProcessRuntimeStateView) -> bool,
)
    ensures
        count_states(list, test) <= list.len(),
    decreases list.len(),
{
    if list.len() > 0 {
        lemma_count_within(list.drop_last(), test);
    }
}

/// The dashboard counts what is configured. One more state counts as running where it runs, and
/// as failed where it failed, crashed, is blocked or waits. The latest twelve problems are shown.
pub proof fn law_dashboard_with_one_more_state(
    config: ConfigView,
    rt: RuntimeView,
    list: Seq<(Seq<char>, ProcessRuntimeStateView)>,
    id: Seq<char>,
    state: ProcessRuntimeStateView,
)
    requires
        list.len() < usize::MAX,
        config.projects.len() <= usize::MAX,
        config.processes.len() <= usize::MAX,
    ensures
        ({
            let none = dashboard(config, rt, Seq::empty());
            let before = dashboard(config, rt, list);
            let after = dashboard(config, rt, list.push((id, state)));
            &&& none.running_process_count == 0 && none.failed_process_count == 0
            &&& after.running_process_count == before.running_process_count + (
            if state.current_status == ProcessStatus::Running {
                1int
            } else {
                0
            })
            &&& after.failed_process_count == before.failed_process_count + (if state.current_status
                == ProcessStatus::Failed || state.current_status == ProcessStatus::Crashed
                || state.current_status == ProcessStatus::Blocked || state.current_status
                == ProcessStatus::WaitingDependency {
                1int
            } else {
                0
            })
            &&& after.project_count == config.projects.len()
            &&& after.process_count == config.processes.len()
            &&& after.recent_problem_logs == crate::logs::problem_logs(rt.logs, 12)
        }),
{
    assert(list.push((id, state)).drop_last() =~= list);
    lemma_count_within(
        list,
        |runtime: ProcessRuntimeStateView| runtime.current_status is Running,
    );
    lemma_count_within(
        list,
        |runtime: ProcessRuntimeStateView| crate::status::failing(runtime.current_status),
    );
}

/// The ports in conflict on the dashboard are those of the processes it counts.
pub proof fn law_dashboard_conflicts(
    config: ConfigView,
    rt: RuntimeView,
    list: Seq<(Seq<char>, ProcessRuntimeStateView)>,
)
    ensures
        dashboard(config, rt, list).port_conflict_count == crate::ports::repeated_ports(
            crate::ports::all_bindings(
                Seq::new(list.len(), |i: int| list[i].1),
            ),
        ).len() as usize,
{
    assert(crate::requests::listed_states(list) =~= Seq::new(list.len(), |i: int| list[i].1));
}

/// One more project counts as started by itself exactly if it is marked so.
pub proof fn law_dashboard_with_one_more_project(
    config: ConfigView,
    rt: RuntimeView,
    list: Seq<(Seq<char>, ProcessRuntimeStateView)>,
    project: ProjectView,
)
    requires
        config.projects.len() < usize::MAX,
    ensures
        dashboard(
            ConfigView { projects: config.projects.push(project), ..config },
            rt,
            list,
        ).auto_start_project_count == dashboard(config, rt, list).auto_start_project_count + (
        if project.auto_start {
            1int
        } else {
            0
        }),
{
    assert(config.projects.push(project).drop_last() =~= config.projects);
    lemma_kept_len(config.projects, |p: ProjectView| p.auto_start);
}

/// A health check of a process that is configured runs in the process's own directory, or else in
/// that of its project, on the machine of the process.
pub proof fn law_where_health_is_checked(config: ConfigView, process_id: Seq<char>)
    ensures
        match (config.process(process_id), health_check_of(config, process_id)) {
            (None, Err(error)) => error.code == "PROCESS_NOT_FOUND"@,
            (Some(process), Ok(request)) => {
                &&& request.process == process
                &&& request.machine == config.remote_machine(process)
                &&& process.working_directory is Some ==> request.cwd == process.working_directory
                &&& process.working_directory is None && config.project(process.project_id) is Some
                    ==> request.cwd == Some(config.project(process.project_id)->0.root_path)
                &&& process.working_directory is None && config.project(process.project_id) is None
                    ==> request.cwd is None
            },
            _ => false,
        },
{
}

/// A health check leaves its outcome and its time in the state of the process, and nothing else
/// there changes; one that failed counts as unhealthy and is told.
pub proof fn law_health_outcome(
    rt: RuntimeView,
    config: ConfigView,
    process: ProcessDefinitionView,
    outcome: Result<HealthStatus, Seq<char>>,
    now: Timestamp,
    stamp: StampView,
)
    requires
        rt.state_of(process.id).process_id == process.id,
    ensures
        ({
            let after = rt.with_health(config, process, outcome, now, stamp);
            let state = after.states[process.id];
            let n = rt.effects.len() as int;
            &&& after.states == rt.states.insert(process.id, state)
            &&& state == (ProcessRuntimeStateView {
                health_status: state.health_status,
                last_heartbeat: Some(now),
                ..rt.state_of(process.id)
            })
            &&& match outcome {
                Ok(status) => state.health_status == Some(status) && after.effects[n] == (
                EffectView::Emit { event: RuntimeEvent::HealthChanged, runtime: state })
                    && after.logs == rt.logs,
                Err(message) => state.health_status == Some(HealthStatus::Unhealthy) && shows(
                    after,
                    n,
                    process,
                    LogLevel::Warn,
                    message,
                ) && after.effects[n + 1] == (EffectView::Emit {
                    event: RuntimeEvent::HealthChanged,
                    runtime: state,
                }),
            }
            &&& after.pids == rt.pids && after.process_records == rt.process_records
        }),
{
}

/// With a project its processes start that start by themselves or are visible; by themselves
/// start those that do, visible or not.
pub proof fn law_who_starts_with_a_project(
    list: Seq<ProcessDefinitionView>,
    process: ProcessDefinitionView,
)
    ensures
        started_with_project(Seq::empty()).len() == 0,
        started_by_themselves(Seq::empty()).len() == 0,
        started_with_project(list.push(process)) == (if process.auto_start || process.visible {
            started_with_project(list).push(process)
        } else {
            started_with_project(list)
        }),
        started_by_themselves(list.push(process)) == (if process.auto_start {
            started_by_themselves(list).push(process)
        } else {
            started_by_themselves(list)
        }),
{
    assert(list.push(process).drop_last() =~= list);
}

proof fn lemma_insert_contains(sorted: Seq<ProjectView>, project: ProjectView, other: ProjectView)
    ensures
        insert_project(sorted, project).contains(other) <==> sorted.contains(other) || other
            == project,
    decreases sorted.len(),
{
    let after = insert_project(sorted, project);
    if sorted.len() == 0 || sorted.last().startup_order <= project.startup_order {
        assert(after == sorted.push(project));
        assert(after[sorted.len() as int] == project);
        if sorted.contains(other) {
            let i = choose|i: int| 0 <= i < sorted.len() && sorted[i] == other;
            assert(after[i] == other);
        }
    } else {
        let front = sorted.drop_last();
        let inner = insert_project(front, project);
        lemma_insert_contains(front, project, other);
        assert(after == inner.push(sorted.last()));
        assert(sorted[sorted.len() - 1] == sorted.last());
        assert(after[inner.len() as int] == sorted.last());
        if inner.contains(other) {
            let i = choose|i: int| 0 <= i < inner.len() && inner[i] == other;
            assert(after[i] == other);
        }
        if sorted.contains(other) && !front.contains(other) {
            let i = choose|i: int| 0 <= i < sorted.len() && sorted[i] == other;
            if i < front.len() {
                assert(front[i] == other);
            }
        }
        if after.contains(other) && other != sorted.last() {
            let i = choose|i: int| 0 <= i < after.len() && after[i] == other;
            assert(inner[i] == other);
        }
        if front.contains(other) {
            let i = choose|i: int| 0 <= i < front.len() && front[i] == other;
            assert(sorted[i] == other);
        }
    }
}

proof fn lemma_sorted_contains(list: Seq<ProjectView>, other: ProjectView)
    ensures
        by_startup_order(list).contains(other) <==> list.contains(other),
    decreases list.len(),
{
    if list.len() > 0 {
        let front = list.drop_last();
        lemma_sorted_contains(front, other);
        lemma_insert_contains(by_startup_order(front), list.last(), other);
        assert(list[list.len() - 1] == list.last());
        if list.contains(other) && other != list.last() {
            let i = choose|i: int| 0 <= i < list.len() && list[i] == other;
            assert(front[i] == other);
        }
        if front.contains(other) {
            let i = choose|i: int| 0 <= i < front.len() && front[i] == other;
            assert(list[i] == other);
        }
    }
}

/// When the application starts, the projects start that are marked so, by their startup order,
/// where the settings want it, and none where they do not.
pub proof fn law_marked_projects(config: ConfigView, project: ProjectView)
    ensures
        marked_projects(config).contains(project)
            <==> config.settings.auto_start_marked_projects && config.projects.contains(project)
            && project.auto_start,
        forall|i: int, j: int|
            #![trigger marked_projects(config)[i], marked_projects(config)[j]]
            0 <= i < j < marked_projects(config).len() ==> marked_projects(
                config,
            )[i].startup_order <= marked_projects(config)[j].startup_order,
{
    let marked = |p: ProjectView| p.auto_start;
    lemma_kept_contains(config.projects, marked, project);
    lemma_sorted_contains(kept_where(config.projects, marked), project);
    law_startup_order_is_stable_sort(kept_where(config.projects, marked), 0);
}

/// The processes to start again after failures are those that failed, crashed, are blocked or
/// wait, of all projects or of one.
pub proof fn law_who_failed(
    config: ConfigView,
    rt: RuntimeView,
    project_id: Option<Seq<char>>,
    process: ProcessDefinitionView,
)
    ensures
        failed_processes(
            ConfigView { processes: Seq::empty(), ..config },
            rt,
            project_id,
        ).len() == 0,
        failed_processes(
            ConfigView { processes: config.processes.push(process), ..config },
            rt,
            project_id,
        ) == (if (project_id is None || project_id->0 == process.project_id)
            && rt.states.contains_key(process.id) && (rt.states[process.id].current_status
            == ProcessStatus::Failed || rt.states[process.id].current_status
            == ProcessStatus::Crashed || rt.states[process.id].current_status
            == ProcessStatus::Blocked || rt.states[process.id].current_status
            == ProcessStatus::WaitingDependency) {
            failed_processes(config, rt, project_id).push(process)
        } else {
            failed_processes(config, rt, project_id)
        }),
{
    assert(config.processes.push(process).drop_last() =~= config.processes);
}

/// What is refused is told in words.
pub proof fn law_errors_in_words()
    ensures
        process_not_found().message == "Process not found"@,
        process_not_found().details is None,
        project_not_found().message == "Project not found"@,
        project_not_found().details is None,
        already_running().message == "Process is already running or stopping"@,
        already_running().details is None,
        group_tracked().code == "PROCESS_TRACKED"@,
        group_tracked().message
            == "This process is managed by the orchestrator. Use the regular Stop button."@,
        !group_tracked().recoverable,
        unsafe_service().message == "Unsafe launchd label or domain"@,
{
}

/// A restart is left to launchd where launchd supervises the process; otherwise a process that
/// runs, starts or is being stopped is stopped first, and any other is started at once.
pub proof fn law_how_a_restart_begins(rt: RuntimeView, config: ConfigView, process_id: Seq<char>)
    ensures
        ({
            let supervised = config.process(process_id) matches Some(process)
                && process.launchd is Some;
            let busy = rt.states.contains_key(process_id) && (rt.states[process_id].current_status
                == ProcessStatus::Running || rt.states[process_id].current_status
                == ProcessStatus::Starting || rt.states[process_id].current_status
                == ProcessStatus::Stopping);
            match rt.restart_request(config, process_id) {
                RestartRequestView::Delegated { process, launchd } => supervised && Some(process)
                    == config.process(process_id) && process.launchd == Some(launchd),
                RestartRequestView::StopFirst => !supervised && busy,
                RestartRequestView::Start => !supervised && !busy,
            }
        }),
{
}

} // verus!
