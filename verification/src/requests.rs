//! What is asked of projects and processes, and requests about several of them at once.
use vstd::prelude::*;

use crate::clock::Timestamp;
use crate::logs::{lemma_kept_same, problem_logs, project_logs};
use crate::lookup::{
    kept_where, process_not_found, process_not_found_error, project_not_found,
    project_not_found_error, push_item, reverse_items,
};
use crate::models::{
    ApiError, ApiErrorView, Config, ConfigView, DashboardSummary, DashboardSummaryView, Duplicate,
    HealthStatus, LaunchdSupervision, LaunchdSupervisionView, LogLevel, Machine, MachineView,
    PortBinding, ProcessDefinition, ProcessDefinitionView, ProcessRuntimeState,
    ProcessRuntimeStateView, ProcessStatus, Project, ProjectDetail, ProjectDetailView, ProjectView,
};
use crate::order::{orderable, ordered_processes, start_order};
use crate::ports::{all_bindings, detect_port_conflicts, repeated_ports};
use crate::runtime::{Runtime, RuntimeEvent, RuntimeView, Stamp, StampView};
use crate::status::{active, derive_project_status, failing, is_active, is_failing, project_status};
use crate::text::same_text;
use crate::text_map::{lists, TextMap};

verus! {

/// So many log entries are shown with a project.
pub const PROJECT_DETAIL_LOGS: usize = 250;

/// So many problems are shown on the dashboard.
pub const DASHBOARD_PROBLEM_LOGS: usize = 12;

/// The pause between two looks at processes that are to stop.
pub const STOP_WAIT_INTERVAL_MS: u64 = 100;

/// Processes that are to stop are waited for so much longer than they are given.
pub const STOP_WAIT_MARGIN_MS: u64 = 1_000;

// ---------------------------------------------------------------------------
// States
// ---------------------------------------------------------------------------

/// The states of a listing.
pub open spec fn listed_states(
    list: Seq<(Seq<char>, ProcessRuntimeStateView)>,
) -> Seq<ProcessRuntimeStateView> {
    list.map_values(|entry: (Seq<char>, ProcessRuntimeStateView)| entry.1)
}

impl RuntimeView {
    /// The states of processes, in the order of the processes.
    pub open spec fn states_of(
        self,
        processes: Seq<ProcessDefinitionView>,
    ) -> Seq<ProcessRuntimeStateView> {
        processes.map_values(|process: ProcessDefinitionView| self.state_of(process.id))
    }

    /// What is shown of a project.
    pub open spec fn project_detail(self, config: ConfigView, project_id: Seq<char>) -> Result<
        ProjectDetailView,
        ApiErrorView,
    > {
        match config.project(project_id) {
            None => Err(project_not_found()),
            Some(project) => {
                let processes = config.processes_of(project_id);
                let runtime_states = self.states_of(processes);
                Ok(
                    ProjectDetailView {
                        project,
                        processes,
                        status: project_status(runtime_states),
                        runtime_states,
                        recent_logs: project_logs(
                            self.logs,
                            project_id,
                            PROJECT_DETAIL_LOGS as nat,
                        ),
                    },
                )
            },
        }
    }
}

impl Runtime {
    /// The state of a process; one of which nothing is known is stopped.
    pub fn get_runtime_state(&self, process_id: &str) -> (r: ProcessRuntimeState)
        ensures
            r.deep_view() == self.deep_view().state_of(process_id@),
    {
        self.state_of(process_id)
    }

    /// The states of all processes of which something is known.
    pub fn get_all_runtime_states(&self) -> (r: Vec<ProcessRuntimeState>)
        ensures
            lists(self.states.listing(), self.deep_view().states),
            r.deep_view() == listed_states(self.states.listing()),
    {
        let n = self.states.len();
        let ghost all = listed_states(self.states.listing());
        let mut r: Vec<ProcessRuntimeState> = Vec::new();
        let mut i: usize = 0;
        while i < n
            invariant
                i <= n,
                n == self.states.listing().len(),
                all == listed_states(self.states.listing()),
                r.deep_view() =~= all.take(i as int),
            decreases n - i,
        {
            push_item(&mut r, self.states.value_at(i).duplicate());
            i += 1;
        }
        assert(all.take(i as int) =~= all);
        r
    }

    fn states_of(&self, processes: &Vec<ProcessDefinition>) -> (r: Vec<ProcessRuntimeState>)
        ensures
            r.deep_view() == self.deep_view().states_of(processes.deep_view()),
    {
        let ghost rt = self.deep_view();
        let ghost all = rt.states_of(processes.deep_view());
        let mut r: Vec<ProcessRuntimeState> = Vec::new();
        let mut i: usize = 0;
        while i < processes.len()
            invariant
                i <= processes@.len(),
                rt == self.deep_view(),
                all == rt.states_of(processes.deep_view()),
                r.deep_view() =~= all.take(i as int),
            decreases processes@.len() - i,
        {
            push_item(&mut r, self.state_of(processes[i].id.as_str()));
            i += 1;
        }
        assert(all.take(i as int) =~= all);
        r
    }

    /// What is shown of a project.
    pub fn get_project_detail(&self, config: &Config, project_id: &str) -> (r: Result<
        ProjectDetail,
        ApiError,
    >)
        ensures
            match r {
                Ok(detail) => self.deep_view().project_detail(config.deep_view(), project_id@)
                    == Ok::<ProjectDetailView, ApiErrorView>(detail.deep_view()),
                Err(error) => self.deep_view().project_detail(config.deep_view(), project_id@)
                    == Err::<ProjectDetailView, ApiErrorView>(error.deep_view()),
            },
    {
        let project = match config.find_project(project_id) {
            Some(project) => project.duplicate(),
            None => {
                return Err(project_not_found_error());
            },
        };
        let processes = config.processes_of(project_id);
        let runtime_states = self.states_of(&processes);
        let status = derive_project_status(runtime_states.as_slice());
        let recent_logs = self.project_logs(project_id, PROJECT_DETAIL_LOGS);
        assert(runtime_states.deep_view() =~= runtime_states@.map_values(
            |state: ProcessRuntimeState| state.deep_view(),
        ));
        Ok(ProjectDetail { project, processes, status, runtime_states, recent_logs })
    }

    /// The ports that more than one process expects to listen on.
    pub fn detect_ports_in_use(&self) -> (r: Vec<PortBinding>)
        ensures
            lists(self.states.listing(), self.deep_view().states),
            r.deep_view() == repeated_ports(all_bindings(listed_states(self.states.listing()))),
    {
        let states = self.get_all_runtime_states();
        detect_port_conflicts(&states)
    }
}

// ---------------------------------------------------------------------------
// Summaries
// ---------------------------------------------------------------------------

/// How many states pass a test.
pub open spec fn count_states(
    list: Seq<(Seq<char>, ProcessRuntimeStateView)>,
    test: spec_fn(ProcessRuntimeStateView) -> bool,
) -> nat
    decreases list.len(),
{
    if list.len() == 0 {
        0
    } else {
        count_states(list.drop_last(), test) + if test(list.last().1) {
            1nat
        } else {
            0nat
        }
    }
}

impl ConfigView {
    /// A process id is that of a configured process, of the given project if one is given.
    pub open spec fn in_scope(self, project_id: Option<Seq<char>>, process_id: Seq<char>) -> bool {
        exists|i: int|
            0 <= i < self.processes.len() && (#[trigger] self.processes[i]).id == process_id && (
            project_id is None || project_id == Some(self.processes[i].project_id))
    }
}

pub open spec fn is_healthy(runtime: ProcessRuntimeStateView) -> bool {
    runtime.health_status == Some(HealthStatus::Healthy)
}

pub open spec fn is_unhealthy(runtime: ProcessRuntimeStateView) -> bool {
    runtime.health_status == Some(HealthStatus::Unhealthy) || runtime.health_status == Some(
        HealthStatus::Degraded,
    )
}

/// How many of the processes in scope are healthy, how many are not, and of how many it is not
/// known, by a listing of the states.
pub open spec fn health_counts(
    config: ConfigView,
    project_id: Option<Seq<char>>,
    list: Seq<(Seq<char>, ProcessRuntimeStateView)>,
) -> (nat, nat, nat) {
    (
        count_states(
            list,
            |runtime: ProcessRuntimeStateView|
                config.in_scope(project_id, runtime.process_id) && is_healthy(runtime),
        ),
        count_states(
            list,
            |runtime: ProcessRuntimeStateView|
                config.in_scope(project_id, runtime.process_id) && is_unhealthy(runtime),
        ),
        count_states(
            list,
            |runtime: ProcessRuntimeStateView|
                config.in_scope(project_id, runtime.process_id) && !is_healthy(runtime)
                    && !is_unhealthy(runtime),
        ),
    )
}

impl Config {
    /// Whether a process id is that of a configured process, of the given project if one is
    /// given.
    pub fn is_in_scope(&self, project_id: &Option<String>, process_id: &str) -> (r: bool)
        ensures
            r == self.deep_view().in_scope(project_id.deep_view(), process_id@),
    {
        let ghost all = self.processes.deep_view();
        let mut i: usize = 0;
        while i < self.processes.len()
            invariant
                i <= self.processes@.len(),
                all == self.processes.deep_view(),
                forall|k: int|
                    0 <= k < i ==> !((#[trigger] all[k]).id == process_id@ && (
                    project_id.deep_view() is None || project_id.deep_view() == Some(
                        all[k].project_id,
                    ))),
            decreases self.processes@.len() - i,
        {
            let process = &self.processes[i];
            let wanted = match project_id {
                Some(id) => same_text(id.as_str(), process.project_id.as_str()),
                None => true,
            };
            if wanted && same_text(process.id.as_str(), process_id) {
                assert(self.deep_view().processes[i as int].id == process_id@);
                return true;
            }
            i += 1;
        }
        false
    }
}

/// The health of the processes in scope, by a listing of the states.
pub open spec fn health_summary(
    config: ConfigView,
    project_id: Option<Seq<char>>,
    list: Seq<(Seq<char>, ProcessRuntimeStateView)>,
) -> Map<Seq<char>, usize> {
    let (healthy, unhealthy, unknown) = health_counts(config, project_id, list);
    Map::empty().insert("healthy"@, healthy as usize).insert(
        "unhealthy"@,
        unhealthy as usize,
    ).insert("unknown"@, unknown as usize)
}

impl Runtime {
    /// The health of the processes of a project, or of all: how many are `healthy`, how many
    /// `unhealthy`, and of how many it is `unknown`.
    pub fn get_health_summary(&self, config: &Config, project_id: &Option<String>) -> (r: TextMap<
        usize,
    >)
        ensures
            lists(self.states.listing(), self.deep_view().states),
            r.deep_view() == health_summary(
                config.deep_view(),
                project_id.deep_view(),
                self.states.listing(),
            ),
    {
        let n = self.states.len();
        let ghost list = self.states.listing();
        let ghost conf = config.deep_view();
        let ghost scope = project_id.deep_view();
        let mut healthy: usize = 0;
        let mut unhealthy: usize = 0;
        let mut unknown: usize = 0;
        let mut i: usize = 0;
        while i < n
            invariant
                i <= n,
                n == list.len(),
                list == self.states.listing(),
                conf == config.deep_view(),
                scope == project_id.deep_view(),
                healthy + unhealthy + unknown <= i,
                (healthy as nat, unhealthy as nat, unknown as nat) == health_counts(
                    conf,
                    scope,
                    list.take(i as int),
                ),
            decreases n - i,
        {
            assert(list.take(i + 1).drop_last() =~= list.take(i as int));
            let runtime = self.states.value_at(i);
            assert(list.take(i + 1).last().1 == runtime.deep_view());
            if config.is_in_scope(project_id, runtime.process_id.as_str()) {
                match runtime.health_status {
                    Some(HealthStatus::Healthy) => {
                        healthy += 1;
                    },
                    Some(HealthStatus::Unhealthy | HealthStatus::Degraded) => {
                        unhealthy += 1;
                    },
                    _ => {
                        unknown += 1;
                    },
                }
            }
            i += 1;
        }
        assert(list.take(i as int) =~= list);
        let mut summary: TextMap<usize> = TextMap::new();
        summary.insert("healthy".to_string(), healthy);
        summary.insert("unhealthy".to_string(), unhealthy);
        summary.insert("unknown".to_string(), unknown);
        summary
    }
}

proof fn lemma_count_split(
    list: Seq<(Seq<char>, ProcessRuntimeStateView)>,
    a: spec_fn(ProcessRuntimeStateView) -> bool,
    b: spec_fn(ProcessRuntimeStateView) -> bool,
    c: spec_fn(ProcessRuntimeStateView) -> bool,
    all: spec_fn(ProcessRuntimeStateView) -> bool,
)
    requires
        forall|runtime: ProcessRuntimeStateView|
            #![trigger all(runtime)]
            (if a(runtime) {
                1int
            } else {
                0
            }) + (if b(runtime) {
                1int
            } else {
                0
            }) + (if c(runtime) {
                1int
            } else {
                0
            }) == (if all(runtime) {
                1int
            } else {
                0
            }),
    ensures
        count_states(list, a) + count_states(list, b) + count_states(list, c) == count_states(
            list,
            all,
        ),
    decreases list.len(),
{
    if list.len() > 0 {
        lemma_count_split(list.drop_last(), a, b, c, all);
        assert(all(list.last().1) || !all(list.last().1));
    }
}

/// Every process in scope of which something is known is counted exactly once.
pub proof fn law_health_counts_each_once(
    config: ConfigView,
    project_id: Option<Seq<char>>,
    list: Seq<(Seq<char>, ProcessRuntimeStateView)>,
)
    ensures
        ({
            let (healthy, unhealthy, unknown) = health_counts(config, project_id, list);
            healthy + unhealthy + unknown == count_states(
                list,
                |runtime: ProcessRuntimeStateView| config.in_scope(project_id, runtime.process_id),
            )
        }),
{
    lemma_count_split(
        list,
        |runtime: ProcessRuntimeStateView|
            config.in_scope(project_id, runtime.process_id) && is_healthy(runtime),
        |runtime: ProcessRuntimeStateView|
            config.in_scope(project_id, runtime.process_id) && is_unhealthy(runtime),
        |runtime: ProcessRuntimeStateView|
            config.in_scope(project_id, runtime.process_id) && !is_healthy(runtime)
                && !is_unhealthy(runtime),
        |runtime: ProcessRuntimeStateView| config.in_scope(project_id, runtime.process_id),
    );
}

/// What is shown on the dashboard, by a listing of the states.
pub open spec fn dashboard(
    config: ConfigView,
    rt: RuntimeView,
    list: Seq<(Seq<char>, ProcessRuntimeStateView)>,
) -> DashboardSummaryView {
    DashboardSummaryView {
        project_count: config.projects.len() as usize,
        process_count: config.processes.len() as usize,
        running_process_count: count_states(
            list,
            |runtime: ProcessRuntimeStateView| runtime.current_status is Running,
        ) as usize,
        failed_process_count: count_states(
            list,
            |runtime: ProcessRuntimeStateView| failing(runtime.current_status),
        ) as usize,
        port_conflict_count: repeated_ports(all_bindings(listed_states(list))).len() as usize,
        auto_start_project_count: kept_where(
            config.projects,
            |project: ProjectView| project.auto_start,
        ).len() as usize,
        recent_problem_logs: problem_logs(rt.logs, DASHBOARD_PROBLEM_LOGS as nat),
    }
}

impl Runtime {
    /// What is shown on the dashboard.
    pub fn dashboard_summary(&self, config: &Config) -> (r: DashboardSummary)
        ensures
            lists(self.states.listing(), self.deep_view().states),
            r.deep_view() == dashboard(config.deep_view(), self.deep_view(), self.states.listing()),
    {
        let n = self.states.len();
        let ghost list = self.states.listing();
        let ghost is_running = |runtime: ProcessRuntimeStateView| runtime.current_status is Running;
        let ghost is_failed = |runtime: ProcessRuntimeStateView| failing(runtime.current_status);
        let mut running: usize = 0;
        let mut failed: usize = 0;
        let mut i: usize = 0;
        while i < n
            invariant
                i <= n,
                n == list.len(),
                list == self.states.listing(),
                is_running == (|runtime: ProcessRuntimeStateView|
                    runtime.current_status is Running),
                is_failed == (|runtime: ProcessRuntimeStateView| failing(runtime.current_status)),
                running == count_states(list.take(i as int), is_running),
                failed == count_states(list.take(i as int), is_failed),
                running <= i,
                failed <= i,
            decreases n - i,
        {
            assert(list.take(i + 1).drop_last() =~= list.take(i as int));
            let status = self.states.value_at(i).current_status;
            assert(list.take(i + 1).last().1.current_status == status);
            if matches!(status, ProcessStatus::Running) {
                running = running + 1;
            }
            if is_failing(status) {
                failed = failed + 1;
            }
            i += 1;
        }
        assert(list.take(i as int) =~= list);
        let ghost all = config.projects.deep_view();
        let ghost kept = |project: ProjectView| project.auto_start;
        let mut auto_start: usize = 0;
        let mut j: usize = 0;
        while j < config.projects.len()
            invariant
                j <= config.projects@.len(),
                all == config.projects.deep_view(),
                kept == (|project: ProjectView| project.auto_start),
                auto_start == kept_where(all.take(j as int), kept).len(),
                auto_start <= j,
            decreases config.projects@.len() - j,
        {
            assert(all.take(j + 1).drop_last() =~= all.take(j as int));
            if config.projects[j].auto_start {
                auto_start = auto_start + 1;
            }
            j += 1;
        }
        assert(all.take(j as int) =~= all);
        let conflicts = self.detect_ports_in_use();
        let r = DashboardSummary {
            project_count: config.projects.len(),
            process_count: config.processes.len(),
            running_process_count: running,
            failed_process_count: failed,
            port_conflict_count: conflicts.len(),
            auto_start_project_count: auto_start,
            recent_problem_logs: self.problem_logs(DASHBOARD_PROBLEM_LOGS),
        };
        assert(conflicts.deep_view().len() == conflicts@.len());
        assert(config.projects.deep_view().len() == config.projects@.len());
        assert(config.processes.deep_view().len() == config.processes@.len());
        r
    }
}

// ---------------------------------------------------------------------------
// Health checks
// ---------------------------------------------------------------------------

/// A health check to be made.
pub struct HealthRequest {
    pub process: ProcessDefinition,
    pub cwd: Option<String>,
    /// The other machine that the process runs on.
    pub machine: Option<Machine>,
}

/// The model of [`HealthRequest`].
#[verifier::ext_equal]
pub struct HealthRequestView {
    pub process: ProcessDefinitionView,
    pub cwd: Option<Seq<char>>,
    pub machine: Option<MachineView>,
}

impl DeepView for HealthRequest {
    type V = HealthRequestView;

    open spec fn deep_view(&self) -> HealthRequestView {
        HealthRequestView {
            process: self.process.deep_view(),
            cwd: self.cwd.deep_view(),
            machine: self.machine.deep_view(),
        }
    }
}

impl Duplicate for HealthRequest {
    fn duplicate(&self) -> (r: Self) {
        HealthRequest {
            process: self.process.duplicate(),
            cwd: self.cwd.duplicate(),
            machine: self.machine.duplicate(),
        }
    }
}

/// The health check of a process: where it is made, and in which directory.
pub open spec fn health_check_of(config: ConfigView, process_id: Seq<char>) -> Result<
    HealthRequestView,
    ApiErrorView,
> {
    match config.process(process_id) {
        None => Err(process_not_found()),
        Some(process) => Ok(
            HealthRequestView {
                process,
                cwd: if process.working_directory is Some {
                    process.working_directory
                } else {
                    match config.project(process.project_id) {
                        Some(project) => Some(project.root_path),
                        None => None,
                    }
                },
                machine: config.remote_machine(process),
            },
        ),
    }
}

/// The health check of a process.
pub fn health_request(config: &Config, process_id: &str) -> (r: Result<HealthRequest, ApiError>)
    ensures
        match r {
            Ok(request) => health_check_of(config.deep_view(), process_id@) == Ok::<
                HealthRequestView,
                ApiErrorView,
            >(request.deep_view()),
            Err(error) => health_check_of(config.deep_view(), process_id@) == Err::<
                HealthRequestView,
                ApiErrorView,
            >(error.deep_view()),
        },
{
    match config.find_process(process_id) {
        None => Err(process_not_found_error()),
        Some(process) => {
            let cwd = if process.working_directory.is_some() {
                process.working_directory.duplicate()
            } else {
                match config.find_project(process.project_id.as_str()) {
                    Some(project) => Some(project.root_path.clone()),
                    None => None,
                }
            };
            Ok(
                HealthRequest {
                    process: process.duplicate(),
                    cwd,
                    machine: config.resolve_remote_machine(process),
                },
            )
        },
    }
}

/// The model of the outcome of a health check: a status, or why it could not be made.
pub open spec fn outcome_view(outcome: Result<HealthStatus, String>) -> Result<
    HealthStatus,
    Seq<char>,
> {
    match outcome {
        Ok(status) => Ok(status),
        Err(message) => Err(message@),
    }
}

impl RuntimeView {
    /// The state of a process after a health check; one that could not be made counts as
    /// unhealthy.
    pub open spec fn checked_state(
        self,
        process_id: Seq<char>,
        outcome: Result<HealthStatus, Seq<char>>,
        now: Timestamp,
    ) -> ProcessRuntimeStateView {
        ProcessRuntimeStateView {
            health_status: match outcome {
                Ok(status) => Some(status),
                Err(_) => Some(HealthStatus::Unhealthy),
            },
            last_heartbeat: Some(now),
            ..self.state_of(process_id)
        }
    }

    pub open spec fn with_health(
        self,
        config: ConfigView,
        process: ProcessDefinitionView,
        outcome: Result<HealthStatus, Seq<char>>,
        now: Timestamp,
        stamp: StampView,
    ) -> RuntimeView {
        let noted = match outcome {
            Ok(_) => self,
            Err(message) => self.with_note(config, process, LogLevel::Warn, message, stamp),
        };
        noted.with_state(
            config,
            self.checked_state(process.id, outcome, now),
            RuntimeEvent::HealthChanged,
        )
    }
}

impl Runtime {
    /// Takes in the outcome of the health check of a process.
    pub fn run_process_health_check(
        &mut self,
        config: &Config,
        process: &ProcessDefinition,
        outcome: &Result<HealthStatus, String>,
        now: Timestamp,
        stamp: Stamp,
    ) -> (r: ProcessRuntimeState)
        ensures
            r.deep_view() == old(self).deep_view().checked_state(
                process.id@,
                outcome_view(*outcome),
                now,
            ),
            final(self).deep_view() == old(self).deep_view().with_health(
                config.deep_view(),
                process.deep_view(),
                outcome_view(*outcome),
                now,
                stamp.deep_view(),
            ),
    {
        let ghost rt = self.deep_view();
        let mut runtime = self.state_of(process.id.as_str());
        let status = match outcome {
            Ok(status) => *status,
            Err(message) => {
                self.note(config, process, LogLevel::Warn, message.clone(), stamp);
                HealthStatus::Unhealthy
            },
        };
        runtime.health_status = Some(status);
        runtime.last_heartbeat = Some(now);
        assert(runtime.deep_view() =~= rt.checked_state(process.id@, outcome_view(*outcome), now));
        self.set_runtime(config, &runtime, RuntimeEvent::HealthChanged);
        runtime
    }
}

// ---------------------------------------------------------------------------
// Several processes
// ---------------------------------------------------------------------------

/// Those of the processes that start with their project: all that are visible or start by
/// themselves.
pub open spec fn started_with_project(list: Seq<ProcessDefinitionView>) -> Seq<
    ProcessDefinitionView,
> {
    kept_where(list, |process: ProcessDefinitionView| process.auto_start || process.visible)
}

/// Those of the processes that start by themselves.
pub open spec fn started_by_themselves(list: Seq<ProcessDefinitionView>) -> Seq<
    ProcessDefinitionView,
> {
    kept_where(list, |process: ProcessDefinitionView| process.auto_start)
}

fn select_processes(list: &Vec<ProcessDefinition>, visible_too: bool) -> (r: Vec<
    ProcessDefinition,
>)
    ensures
        r.deep_view() == (if visible_too {
            started_with_project(list.deep_view())
        } else {
            started_by_themselves(list.deep_view())
        }),
{
    let ghost all = list.deep_view();
    let ghost kept = |process: ProcessDefinitionView|
        process.auto_start || (visible_too && process.visible);
    let mut r: Vec<ProcessDefinition> = Vec::new();
    let mut i: usize = 0;
    assert(r.deep_view() =~= kept_where(all.take(0), kept));
    while i < list.len()
        invariant
            i <= list@.len(),
            all == list.deep_view(),
            kept == (|process: ProcessDefinitionView|
                process.auto_start || (visible_too && process.visible)),
            r.deep_view() == kept_where(all.take(i as int), kept),
        decreases list@.len() - i,
    {
        assert(all.take(i + 1).drop_last() =~= all.take(i as int));
        let process = &list[i];
        if process.auto_start || (visible_too && process.visible) {
            push_item(&mut r, process.duplicate());
        }
        i += 1;
    }
    assert(all.take(i as int) =~= all);
    proof {
        if visible_too {
            lemma_kept_same(
                all,
                kept,
                |process: ProcessDefinitionView| process.auto_start || process.visible,
            );
        } else {
            lemma_kept_same(all, kept, |process: ProcessDefinitionView| process.auto_start);
        }
    }
    r
}

/// The processes that start with a project, in the order in which they do.
pub fn start_project(config: &Config, project_id: &str) -> (r: Vec<ProcessDefinition>)
    requires
        orderable(config.deep_view().processes_of(project_id@)),
    ensures
        r.deep_view() == started_with_project(
            start_order(config.deep_view().processes_of(project_id@)),
        ),
{
    let ordered = ordered_processes(config, project_id);
    select_processes(&ordered, true)
}

/// The processes of a project that start by themselves, in the order in which they do.
pub fn start_auto_start_processes(config: &Config, project_id: &str) -> (r: Vec<ProcessDefinition>)
    requires
        orderable(config.deep_view().processes_of(project_id@)),
    ensures
        r.deep_view() == started_by_themselves(
            start_order(config.deep_view().processes_of(project_id@)),
        ),
{
    let ordered = ordered_processes(config, project_id);
    select_processes(&ordered, false)
}

/// The processes of a project in the order in which they stop: what depends on others first.
pub fn stop_project(config: &Config, project_id: &str) -> (r: Vec<ProcessDefinition>)
    requires
        orderable(config.deep_view().processes_of(project_id@)),
    ensures
        r.deep_view() == start_order(config.deep_view().processes_of(project_id@)).reverse(),
{
    let ordered = ordered_processes(config, project_id);
    reverse_items(&ordered)
}

/// A project is put behind the last one that starts no later.
pub open spec fn insert_project(sorted: Seq<ProjectView>, project: ProjectView) -> Seq<ProjectView>
    decreases sorted.len(),
{
    if sorted.len() == 0 || sorted.last().startup_order <= project.startup_order {
        sorted.push(project)
    } else {
        insert_project(sorted.drop_last(), project).push(sorted.last())
    }
}

/// Projects by the order in which they start; those of the same order stay as they are.
pub open spec fn by_startup_order(list: Seq<ProjectView>) -> Seq<ProjectView>
    decreases list.len(),
{
    if list.len() == 0 {
        list
    } else {
        insert_project(by_startup_order(list.drop_last()), list.last())
    }
}

/// The projects that start with the orchestrator, in the order in which they do.
pub open spec fn marked_projects(config: ConfigView) -> Seq<ProjectView> {
    if config.settings.auto_start_marked_projects {
        by_startup_order(kept_where(config.projects, |project: ProjectView| project.auto_start))
    } else {
        Seq::empty()
    }
}

fn insert_by_order(sorted: &mut Vec<Project>, project: Project)
    ensures
        final(sorted).deep_view() == insert_project(
            old(sorted).deep_view(),
            project.deep_view(),
        ),
{
    let ghost before = sorted.deep_view();
    let ghost view = project.deep_view();
    let ghost start = sorted@;
    let mut at: usize = sorted.len();
    assert(before.take(at as int) =~= before);
    assert(insert_project(before, view) =~= insert_project(before.take(at as int), view)
        + before.skip(at as int));
    while at > 0 && sorted[at - 1].startup_order > project.startup_order
        invariant
            at <= sorted@.len(),
            sorted@ == start,
            before == sorted.deep_view(),
            view == project.deep_view(),
            insert_project(before, view) == insert_project(before.take(at as int), view)
                + before.skip(at as int),
        decreases at,
    {
        proof {
            let part = before.take(at as int);
            assert(part.drop_last() =~= before.take(at - 1));
            assert(part.last() == before[at - 1]);
            assert(before[at - 1] == sorted@[at - 1].deep_view());
            let inner = insert_project(before.take(at - 1), view);
            assert(inner.push(before[at - 1]) + before.skip(at as int) =~= inner + before.skip(
                at - 1,
            ));
        }
        at -= 1;
    }
    proof {
        let part = before.take(at as int);
        if at > 0 {
            assert(part.last() == before[at - 1]);
            assert(before[at - 1] == sorted@[at - 1].deep_view());
        }
        assert(insert_project(part, view) == part.push(view));
    }
    sorted.insert(at, project);
    assert(sorted.deep_view() =~= before.take(at as int).push(view) + before.skip(at as int));
}

/// The projects that start with the orchestrator, in the order in which they do.
pub fn start_marked_projects_on_launch(config: &Config) -> (r: Vec<Project>)
    ensures
        r.deep_view() == marked_projects(config.deep_view()),
{
    let mut r: Vec<Project> = Vec::new();
    assert(r.deep_view() =~= Seq::<ProjectView>::empty());
    if !config.settings.auto_start_marked_projects {
        return r;
    }
    let ghost all = config.projects.deep_view();
    let ghost kept = |project: ProjectView| project.auto_start;
    let mut i: usize = 0;
    assert(r.deep_view() =~= by_startup_order(kept_where(all.take(0), kept)));
    while i < config.projects.len()
        invariant
            i <= config.projects@.len(),
            all == config.projects.deep_view(),
            kept == (|project: ProjectView| project.auto_start),
            r.deep_view() == by_startup_order(kept_where(all.take(i as int), kept)),
        decreases config.projects@.len() - i,
    {
        assert(all.take(i + 1).drop_last() =~= all.take(i as int));
        if config.projects[i].auto_start {
            let ghost chosen = kept_where(all.take(i as int), kept);
            assert(chosen.push(all[i as int]).drop_last() =~= chosen);
            insert_by_order(&mut r, config.projects[i].duplicate());
        }
        i += 1;
    }
    assert(all.take(i as int) =~= all);
    r
}

pub open spec fn startup_sorted(list: Seq<ProjectView>) -> bool {
    forall|i: int, j: int|
        #![trigger list[i], list[j]]
        0 <= i < j < list.len() ==> list[i].startup_order <= list[j].startup_order
}

proof fn lemma_insert_project(sorted: Seq<ProjectView>, project: ProjectView, order: i64)
    requires
        startup_sorted(sorted),
    ensures
        startup_sorted(insert_project(sorted, project)),
        sorted.len() > 0 ==> insert_project(sorted, project).last().startup_order == (
        if sorted.last().startup_order <= project.startup_order {
            project.startup_order
        } else {
            sorted.last().startup_order
        }),
        sorted.len() == 0 ==> insert_project(sorted, project).last() == project,
        insert_project(sorted, project).len() == sorted.len() + 1,
        kept_where(
            insert_project(sorted, project),
            |other: ProjectView| other.startup_order == order,
        ) == kept_where(
            sorted.push(project),
            |other: ProjectView| other.startup_order == order,
        ),
    decreases sorted.len(),
{
    let kept = |other: ProjectView| other.startup_order == order;
    let result = insert_project(sorted, project);
    if sorted.len() == 0 || sorted.last().startup_order <= project.startup_order {
        assert forall|i: int, j: int|
            #![trigger result[i], result[j]]
            0 <= i < j < result.len() implies result[i].startup_order
            <= result[j].startup_order by {
            assert(result[i] == sorted[i]);
            if j < sorted.len() {
                assert(result[j] == sorted[j]);
            } else if i < sorted.len() - 1 {
                assert(sorted[i].startup_order <= sorted[sorted.len() - 1].startup_order);
            }
        }
    } else {
        let front = sorted.drop_last();
        let last = sorted.last();
        assert forall|i: int, j: int|
            #![trigger front[i], front[j]]
            0 <= i < j < front.len() implies front[i].startup_order <= front[j].startup_order by {
            assert(sorted[i].startup_order <= sorted[j].startup_order);
        }
        lemma_insert_project(front, project, order);
        let inner = insert_project(front, project);
        assert(inner.last().startup_order <= last.startup_order) by {
            if front.len() > 0 {
                assert(sorted[front.len() - 1].startup_order <= sorted[sorted.len()
                    - 1].startup_order);
            }
        }
        assert forall|i: int, j: int|
            #![trigger result[i], result[j]]
            0 <= i < j < result.len() implies result[i].startup_order
            <= result[j].startup_order by {
            assert(result[i] == inner[i]);
            if j < inner.len() {
                assert(result[j] == inner[j]);
            } else if i < inner.len() - 1 {
                assert(inner[i].startup_order <= inner[inner.len() - 1].startup_order);
            }
        }
        assert(result.drop_last() =~= inner);
        assert(sorted.push(project).drop_last() =~= sorted);
        assert(front.push(project).drop_last() =~= front);
        let among = kept_where(front, kept);
        assert(kept_where(front.push(project), kept) == (if kept(project) {
            among.push(project)
        } else {
            among
        }));
        assert(kept_where(sorted, kept) == (if kept(last) {
            among.push(last)
        } else {
            among
        }));
        assert(kept_where(sorted.push(project), kept) == (if kept(project) {
            kept_where(sorted, kept).push(project)
        } else {
            kept_where(sorted, kept)
        }));
        assert(kept_where(result, kept) == (if kept(last) {
            kept_where(inner, kept).push(last)
        } else {
            kept_where(inner, kept)
        }));
        assert(!(kept(project) && kept(last)));
    }
}

/// Projects that start by their order are sorted, and among those of the same order nothing is
/// lost, added or moved.
pub proof fn law_startup_order_is_stable_sort(list: Seq<ProjectView>, order: i64)
    ensures
        startup_sorted(by_startup_order(list)),
        by_startup_order(list).len() == list.len(),
        kept_where(
            by_startup_order(list),
            |project: ProjectView| project.startup_order == order,
        ) == kept_where(list, |project: ProjectView| project.startup_order == order),
    decreases list.len(),
{
    if list.len() > 0 {
        let front = list.drop_last();
        law_startup_order_is_stable_sort(front, order);
        let sorted = by_startup_order(front);
        lemma_insert_project(sorted, list.last(), order);
        assert(sorted.push(list.last()).drop_last() =~= sorted);
    }
}

/// Those of the processes in scope that need attention.
pub open spec fn failed_processes(
    config: ConfigView,
    rt: RuntimeView,
    project_id: Option<Seq<char>>,
) -> Seq<ProcessDefinitionView> {
    kept_where(
        config.processes,
        |process: ProcessDefinitionView|
            (project_id is None || project_id == Some(process.project_id)) && failing(
                rt.state_of(process.id).current_status,
            ),
    )
}

/// How a process is restarted.
pub enum RestartRequest {
    /// launchd restarts it.
    Delegated { process: ProcessDefinition, launchd: LaunchdSupervision },
    /// It has to stop first.
    StopFirst,
    /// It can be started.
    Start,
}

/// The model of [`RestartRequest`].
pub enum RestartRequestView {
    Delegated { process: ProcessDefinitionView, launchd: LaunchdSupervisionView },
    StopFirst,
    Start,
}

impl DeepView for RestartRequest {
    type V = RestartRequestView;

    open spec fn deep_view(&self) -> RestartRequestView {
        match self {
            RestartRequest::Delegated { process, launchd } => RestartRequestView::Delegated {
                process: process.deep_view(),
                launchd: launchd.deep_view(),
            },
            RestartRequest::StopFirst => RestartRequestView::StopFirst,
            RestartRequest::Start => RestartRequestView::Start,
        }
    }
}

impl RuntimeView {
    /// How a process is restarted.
    pub open spec fn restart_request(
        self,
        config: ConfigView,
        process_id: Seq<char>,
    ) -> RestartRequestView {
        let status = self.state_of(process_id).current_status;
        let start = if status is Running || status is Starting || status is Stopping {
            RestartRequestView::StopFirst
        } else {
            RestartRequestView::Start
        };
        match config.process(process_id) {
            Some(process) => match process.launchd {
                Some(launchd) => RestartRequestView::Delegated { process, launchd },
                None => start,
            },
            None => start,
        }
    }
}

impl Runtime {
    /// Those of the processes in scope that need attention.
    pub fn restart_failed_processes(&self, config: &Config, project_id: &Option<String>) -> (r: Vec<
        ProcessDefinition,
    >)
        ensures
            r.deep_view() == failed_processes(
                config.deep_view(),
                self.deep_view(),
                project_id.deep_view(),
            ),
    {
        let ghost all = config.processes.deep_view();
        let ghost rt = self.deep_view();
        let ghost scope = project_id.deep_view();
        let ghost kept = |process: ProcessDefinitionView|
            (scope is None || scope == Some(process.project_id)) && failing(
                rt.state_of(process.id).current_status,
            );
        let mut r: Vec<ProcessDefinition> = Vec::new();
        let mut i: usize = 0;
        assert(r.deep_view() =~= kept_where(all.take(0), kept));
        while i < config.processes.len()
            invariant
                i <= config.processes@.len(),
                all == config.processes.deep_view(),
                rt == self.deep_view(),
                scope == project_id.deep_view(),
                kept == (|process: ProcessDefinitionView|
                    (scope is None || scope == Some(process.project_id)) && failing(
                        rt.state_of(process.id).current_status,
                    )),
                r.deep_view() == kept_where(all.take(i as int), kept),
            decreases config.processes@.len() - i,
        {
            assert(all.take(i + 1).drop_last() =~= all.take(i as int));
            let process = &config.processes[i];
            let wanted = match project_id {
                Some(id) => same_text(id.as_str(), process.project_id.as_str()),
                None => true,
            };
            let runtime = self.state_of(process.id.as_str());
            if wanted && is_failing(runtime.current_status) {
                push_item(&mut r, process.duplicate());
            }
            i += 1;
        }
        assert(all.take(i as int) =~= all);
        r
    }

    /// How a process is restarted.
    pub fn restart_process(&self, config: &Config, process_id: &str) -> (r: RestartRequest)
        ensures
            r.deep_view() == self.deep_view().restart_request(config.deep_view(), process_id@),
    {
        if let Some(process) = config.find_process(process_id) {
            if let Some(launchd) = &process.launchd {
                return RestartRequest::Delegated {
                    process: process.duplicate(),
                    launchd: launchd.duplicate(),
                };
            }
        }
        let runtime = self.state_of(process_id);
        if matches!(
            runtime.current_status,
            ProcessStatus::Running | ProcessStatus::Starting | ProcessStatus::Stopping
        ) {
            RestartRequest::StopFirst
        } else {
            RestartRequest::Start
        }
    }

    /// Whether a process is being started, runs, or is being stopped.
    pub fn is_process_active(&self, process_id: &str) -> (r: bool)
        ensures
            r == active(self.deep_view().state_of(process_id@).current_status),
    {
        let runtime = self.state_of(process_id);
        is_active(runtime.current_status)
    }

    /// Whether one of several processes is being started, runs, or is being stopped.
    pub fn any_active(&self, process_ids: &Vec<String>) -> (r: bool)
        ensures
            r == exists|i: int|
                0 <= i < process_ids@.len() && active(
                    self.deep_view().state_of((#[trigger] process_ids@[i])@).current_status,
                ),
    {
        let mut i: usize = 0;
        while i < process_ids.len()
            invariant
                i <= process_ids@.len(),
                forall|k: int|
                    0 <= k < i ==> !active(
                        self.deep_view().state_of((#[trigger] process_ids@[k])@).current_status,
                    ),
            decreases process_ids@.len() - i,
        {
            if self.is_process_active(process_ids[i].as_str()) {
                return true;
            }
            i += 1;
        }
        false
    }
}

impl Runtime {
    /// Whether processes that are to stop are waited for any longer: while one of them is active
    /// and their time is not up.
    pub fn waits_for(&self, process_ids: &Vec<String>, time_is_up: bool) -> (r: bool)
        ensures
            r == (!time_is_up && exists|i: int|
                0 <= i < process_ids@.len() && active(
                    self.deep_view().state_of((#[trigger] process_ids@[i])@).current_status,
                )),
    {
        !time_is_up && self.any_active(process_ids)
    }
}

/// How long processes that are to stop are waited for.
pub fn stop_wait_ms(stop_timeout_ms: u64) -> (r: u64)
    ensures
        r == (if stop_timeout_ms + STOP_WAIT_MARGIN_MS <= u64::MAX {
            (stop_timeout_ms + STOP_WAIT_MARGIN_MS) as u64
        } else {
            u64::MAX
        }),
{
    match stop_timeout_ms.checked_add(STOP_WAIT_MARGIN_MS) {
        Some(sum) => sum,
        None => u64::MAX,
    }
}

} // verus!
