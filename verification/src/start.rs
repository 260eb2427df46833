//! Starting a process: whether it may start, how it is launched, and what follows from the
//! launch.
use vstd::prelude::*;

use crate::clock::Timestamp;
use crate::command::{command_tokens, display_command, displayed, process_command_tokens};
use crate::lookup::{
    first_where, lemma_first_found, lemma_first_is, lemma_first_none, process_not_found,
    process_not_found_error, project_not_found, project_not_found_error,
};
use crate::models::{
    ApiError, ApiErrorView, CommandLine, CommandLineView, Config, ConfigView, Duplicate,
    HealthStatus, LaunchdSupervision, LaunchdSupervisionView, LogLevel, Machine, MachineView,
    ProcessDefinition, ProcessDefinitionView, ProcessRuntimeState, ProcessRuntimeStateView,
    ProcessStatus, Project, ProjectView, RuntimeProcessRecord, RuntimeProcessRecordView, Settings,
};
use crate::ports::{detect_process_ports, expected_ports};
use crate::runtime::{Effect, EffectView, Runtime, RuntimeEvent, RuntimeView, Stamp, StampView};
use crate::status::{active, is_active};
use crate::text::{around_number, concat, concat3, decimal, push_text, trim, trimmed, with_number};

verus! {

// ---------------------------------------------------------------------------
// Dependencies
// ---------------------------------------------------------------------------

impl RuntimeView {
    /// The process of the same project that has the key is running.
    pub open spec fn dependency_runs(
        self,
        config: ConfigView,
        process: ProcessDefinitionView,
        key: Seq<char>,
    ) -> bool {
        match config.process_by_key(process.project_id, key) {
            Some(dependency) => self.states.contains_key(dependency.id)
                && self.states[dependency.id].current_status is Running,
            None => false,
        }
    }

    /// The first dependency that is not running.
    pub open spec fn missing_dependency(
        self,
        config: ConfigView,
        process: ProcessDefinitionView,
    ) -> Option<Seq<char>> {
        first_where(
            process.depends_on,
            |key: Seq<char>| !self.dependency_runs(config, process, key),
        )
    }
}

impl Runtime {
    /// The first dependency of a process that is not running.
    pub fn missing_dependency(&self, config: &Config, process: &ProcessDefinition) -> (r: Option<
        String,
    >)
        ensures
            r.deep_view() == self.deep_view().missing_dependency(
                config.deep_view(),
                process.deep_view(),
            ),
    {
        let ghost keys = process.depends_on.deep_view();
        let ghost rt = self.deep_view();
        let ghost conf = config.deep_view();
        let ghost proc = process.deep_view();
        let ghost missing = |key: Seq<char>| !rt.dependency_runs(conf, proc, key);
        let mut i: usize = 0;
        while i < process.depends_on.len()
            invariant
                i <= process.depends_on@.len(),
                keys == process.depends_on.deep_view(),
                rt == self.deep_view(),
                conf == config.deep_view(),
                proc == process.deep_view(),
                missing == (|key: Seq<char>| !rt.dependency_runs(conf, proc, key)),
                forall|k: int| 0 <= k < i ==> !missing(#[trigger] keys[k]),
            decreases process.depends_on@.len() - i,
        {
            let key = process.depends_on[i].as_str();
            let runs = match config.find_process_by_key(process.project_id.as_str(), key) {
                Some(dependency) => match self.states.get(dependency.id.as_str()) {
                    Some(runtime) => matches!(runtime.current_status, ProcessStatus::Running),
                    None => false,
                },
                None => false,
            };
            assert(runs == rt.dependency_runs(conf, proc, keys[i as int]));
            if !runs {
                proof {
                    lemma_first_is(keys, missing, i as int);
                }
                return Some(process.depends_on[i].clone());
            }
            i += 1;
        }
        proof {
            lemma_first_none(keys, missing);
        }
        None
    }
}

/// No dependency is missing exactly if all of them are running.
pub proof fn law_no_dependency_missing_iff_all_run(
    rt: RuntimeView,
    config: ConfigView,
    process: ProcessDefinitionView,
)
    ensures
        rt.missing_dependency(config, process) is None <==> forall|i: int|
            0 <= i < process.depends_on.len() ==> rt.dependency_runs(
                config,
                process,
                #[trigger] process.depends_on[i],
            ),
{
    let missing = |key: Seq<char>| !rt.dependency_runs(config, process, key);
    lemma_first_found(process.depends_on, missing);
    if forall|i: int|
        0 <= i < process.depends_on.len() ==> rt.dependency_runs(
            config,
            process,
            #[trigger] process.depends_on[i],
        ) {
        lemma_first_none(process.depends_on, missing);
    } else {
        let i = choose|i: int|
            0 <= i < process.depends_on.len() && !rt.dependency_runs(
                config,
                process,
                #[trigger] process.depends_on[i],
            );
        assert(missing(process.depends_on[i]));
    }
}

// ---------------------------------------------------------------------------
// The working directory
// ---------------------------------------------------------------------------

/// The directory that a process runs in: its own, or else that of its project.
pub open spec fn working_directory(
    project: ProjectView,
    process: ProcessDefinitionView,
) -> Seq<char> {
    match process.working_directory {
        Some(directory) if trimmed(directory).len() > 0 => directory,
        _ => project.root_path,
    }
}

/// The directory that a process runs in, which has to exist where that can be told.
pub open spec fn usable_directory(
    project: ProjectView,
    process: ProcessDefinitionView,
    is_remote: bool,
    exists: bool,
) -> Result<Seq<char>, ApiErrorView> {
    let cwd = working_directory(project, process);
    if !is_remote && !exists {
        Err(
            ApiErrorView::with_details(
                "INVALID_PROJECT_PATH"@,
                "Working directory does not exist"@,
                cwd,
                false,
            ),
        )
    } else {
        Ok(cwd)
    }
}

/// The directory that a process runs in.
pub fn configured_directory(project: &Project, process: &ProcessDefinition) -> (r: String)
    ensures
        r@ == working_directory(project.deep_view(), process.deep_view()),
{
    if let Some(directory) = &process.working_directory {
        let kept = trim(directory.as_str());
        if !kept.as_str().is_empty() {
            return directory.clone();
        }
    }
    project.root_path.clone()
}

/// The directory that a process runs in on this machine; `exists` says whether the
/// [`configured_directory`] does.
pub fn resolve_working_directory(
    project: &Project,
    process: &ProcessDefinition,
    exists: bool,
) -> (r: Result<String, ApiError>)
    ensures
        match r {
            Ok(cwd) => usable_directory(project.deep_view(), process.deep_view(), false, exists)
                == Ok::<Seq<char>, ApiErrorView>(cwd@),
            Err(error) => usable_directory(
                project.deep_view(),
                process.deep_view(),
                false,
                exists,
            ) == Err::<Seq<char>, ApiErrorView>(error.deep_view()),
        },
{
    resolve_working_directory_with_locality(project, process, false, exists)
}

/// The directory that a process runs in; `exists` says whether the [`configured_directory`]
/// does, which does not count on another machine.
pub fn resolve_working_directory_with_locality(
    project: &Project,
    process: &ProcessDefinition,
    is_remote: bool,
    exists: bool,
) -> (r: Result<String, ApiError>)
    ensures
        match r {
            Ok(cwd) => usable_directory(
                project.deep_view(),
                process.deep_view(),
                is_remote,
                exists,
            ) == Ok::<Seq<char>, ApiErrorView>(cwd@),
            Err(error) => usable_directory(
                project.deep_view(),
                process.deep_view(),
                is_remote,
                exists,
            ) == Err::<Seq<char>, ApiErrorView>(error.deep_view()),
        },
{
    let cwd = configured_directory(project, process);
    if !is_remote && !exists {
        return Err(
            ApiError::with_details(
                "INVALID_PROJECT_PATH",
                "Working directory does not exist",
                cwd,
                false,
            ),
        );
    }
    Ok(cwd)
}

// ---------------------------------------------------------------------------
// Admission
// ---------------------------------------------------------------------------

/// A start that was admitted.
pub struct Launch {
    pub project: Project,
    pub process: ProcessDefinition,
    /// The other machine that the process runs on.
    pub machine: Option<Machine>,
    pub settings: Settings,
}

/// The model of [`Launch`].
#[verifier::ext_equal]
pub struct LaunchView {
    pub project: ProjectView,
    pub process: ProcessDefinitionView,
    pub machine: Option<MachineView>,
    pub settings: Settings,
}

impl DeepView for Launch {
    type V = LaunchView;

    open spec fn deep_view(&self) -> LaunchView {
        LaunchView {
            project: self.project.deep_view(),
            process: self.process.deep_view(),
            machine: self.machine.deep_view(),
            settings: self.settings,
        }
    }
}

impl Duplicate for Launch {
    fn duplicate(&self) -> (r: Self) {
        Launch {
            project: self.project.duplicate(),
            process: self.process.duplicate(),
            machine: self.machine.duplicate(),
            settings: self.settings,
        }
    }
}

/// A start whose command is about to be run.
pub struct LaunchPlan {
    pub process: ProcessDefinition,
    /// The other machine that the process runs on.
    pub machine: Option<Machine>,
    pub settings: Settings,
    pub cwd: String,
    /// The words of the command.
    pub tokens: Vec<String>,
    /// The command for people.
    pub label: String,
    pub started_at: Timestamp,
    /// The state of the process.
    pub runtime: ProcessRuntimeState,
}

/// The model of [`LaunchPlan`].
#[verifier::ext_equal]
pub struct LaunchPlanView {
    pub process: ProcessDefinitionView,
    pub machine: Option<MachineView>,
    pub settings: Settings,
    pub cwd: Seq<char>,
    pub tokens: Seq<Seq<char>>,
    pub label: Seq<char>,
    pub started_at: Timestamp,
    pub runtime: ProcessRuntimeStateView,
}

impl DeepView for LaunchPlan {
    type V = LaunchPlanView;

    open spec fn deep_view(&self) -> LaunchPlanView {
        LaunchPlanView {
            process: self.process.deep_view(),
            machine: self.machine.deep_view(),
            settings: self.settings,
            cwd: self.cwd@,
            tokens: self.tokens.deep_view(),
            label: self.label@,
            started_at: self.started_at,
            runtime: self.runtime.deep_view(),
        }
    }
}

impl Duplicate for LaunchPlan {
    fn duplicate(&self) -> (r: Self) {
        LaunchPlan {
            process: self.process.duplicate(),
            machine: self.machine.duplicate(),
            settings: self.settings,
            cwd: self.cwd.clone(),
            tokens: self.tokens.duplicate(),
            label: self.label.clone(),
            started_at: self.started_at,
            runtime: self.runtime.duplicate(),
        }
    }
}


/// What becomes of a request to start a process.
pub enum Admission {
    /// It is refused.
    Refused { error: ApiError },
    /// launchd starts the process.
    Delegated { process: ProcessDefinition, launchd: LaunchdSupervision },
    /// A dependency has to run first.
    Waiting { runtime: ProcessRuntimeState },
    /// The process may start.
    Admitted { launch: Launch },
}

/// The model of [`Admission`].
pub enum AdmissionView {
    Refused { error: ApiErrorView },
    Delegated { process: ProcessDefinitionView, launchd: LaunchdSupervisionView },
    Waiting { runtime: ProcessRuntimeStateView },
    Admitted { launch: LaunchView },
}

impl DeepView for Admission {
    type V = AdmissionView;

    open spec fn deep_view(&self) -> AdmissionView {
        match self {
            Admission::Refused { error } => AdmissionView::Refused { error: error.deep_view() },
            Admission::Delegated { process, launchd } => AdmissionView::Delegated {
                process: process.deep_view(),
                launchd: launchd.deep_view(),
            },
            Admission::Waiting { runtime } => AdmissionView::Waiting {
                runtime: runtime.deep_view(),
            },
            Admission::Admitted { launch } => AdmissionView::Admitted {
                launch: launch.deep_view(),
            },
        }
    }
}

pub open spec fn already_running() -> ApiErrorView {
    ApiErrorView::new(
        "PROCESS_ALREADY_RUNNING"@,
        "Process is already running or stopping"@,
        false,
    )
}

/// The state of a process that waits for a dependency.
pub open spec fn waiting_state(
    process: ProcessDefinitionView,
    missing: Seq<char>,
) -> ProcessRuntimeStateView {
    ProcessRuntimeStateView {
        current_status: ProcessStatus::WaitingDependency,
        last_error: Some("Dependency is not running: "@ + missing),
        ..ProcessRuntimeStateView::stopped(process.id)
    }
}

impl RuntimeView {
    /// What becomes of a request to start a process.
    pub open spec fn admission(self, config: ConfigView, process_id: Seq<char>) -> AdmissionView {
        match config.process(process_id) {
            None => AdmissionView::Refused { error: process_not_found() },
            Some(process) => match config.project(process.project_id) {
                None => AdmissionView::Refused { error: project_not_found() },
                Some(project) => match process.launchd {
                    Some(launchd) => AdmissionView::Delegated { process, launchd },
                    None => if active(self.state_of(process_id).current_status) {
                        AdmissionView::Refused { error: already_running() }
                    } else {
                        match self.missing_dependency(config, process) {
                            Some(missing) => AdmissionView::Waiting {
                                runtime: waiting_state(process, missing),
                            },
                            None => AdmissionView::Admitted {
                                launch: LaunchView {
                                    project,
                                    process,
                                    machine: config.remote_machine(process),
                                    settings: config.settings,
                                },
                            },
                        }
                    },
                },
            },
        }
    }

    /// What a request to start a process changes at first: a process that may start, or waits,
    /// has no open request to stop, and one that waits says so.
    pub open spec fn with_admission(
        self,
        config: ConfigView,
        process_id: Seq<char>,
        stamp: StampView,
    ) -> RuntimeView {
        match self.admission(config, process_id) {
            AdmissionView::Admitted { .. } => self.without_stop_requests(process_id),
            AdmissionView::Waiting { runtime } => {
                let process = config.process(process_id)->0;
                let missing = self.missing_dependency(config, process)->0;
                self.without_stop_requests(process_id).with_state(
                    config,
                    runtime,
                    RuntimeEvent::Failed,
                ).with_note(
                    config,
                    process,
                    LogLevel::Warn,
                    "Blocked by dependency "@ + missing,
                    stamp,
                )
            },
            _ => self,
        }
    }
}

impl Runtime {
    /// Takes in a request to start a process.
    pub fn admit_start(&mut self, config: &Config, process_id: &str, stamp: Stamp) -> (r: Admission)
        ensures
            r.deep_view() == old(self).deep_view().admission(config.deep_view(), process_id@),
            final(self).deep_view() == old(self).deep_view().with_admission(
                config.deep_view(),
                process_id@,
                stamp.deep_view(),
            ),
    {
        let process = match config.find_process(process_id) {
            Some(process) => process,
            None => {
                return Admission::Refused { error: process_not_found_error() };
            },
        };
        let project = match config.find_project(process.project_id.as_str()) {
            Some(project) => project,
            None => {
                return Admission::Refused { error: project_not_found_error() };
            },
        };
        if let Some(launchd) = &process.launchd {
            return Admission::Delegated {
                process: process.duplicate(),
                launchd: launchd.duplicate(),
            };
        }
        let existing = self.state_of(process_id);
        if is_active(existing.current_status) {
            return Admission::Refused {
                error: ApiError::new(
                    "PROCESS_ALREADY_RUNNING",
                    "Process is already running or stopping",
                    false,
                ),
            };
        }
        let missing = self.missing_dependency(config, process);
        self.clear_stop_requests_for_process(process_id);
        match missing {
            Some(missing) => {
                let mut runtime = ProcessRuntimeState::stopped(process.id.clone());
                runtime.current_status = ProcessStatus::WaitingDependency;
                runtime.last_error = Some(concat("Dependency is not running: ", missing.as_str()));
                assert(runtime.deep_view() =~= waiting_state(process.deep_view(), missing@));
                self.set_runtime(config, &runtime, RuntimeEvent::Failed);
                let message = concat("Blocked by dependency ", missing.as_str());
                self.note(config, process, LogLevel::Warn, message, stamp);
                Admission::Waiting { runtime }
            },
            None => Admission::Admitted {
                launch: Launch {
                    project: project.duplicate(),
                    process: process.duplicate(),
                    machine: config.resolve_remote_machine(process),
                    settings: config.settings,
                },
            },
        }
    }
}

// ---------------------------------------------------------------------------
// Preparation
// ---------------------------------------------------------------------------

/// The state of a process that is being started.
pub open spec fn starting_state(
    runtime: ProcessRuntimeStateView,
    process: ProcessDefinitionView,
    now: Timestamp,
) -> ProcessRuntimeStateView {
    ProcessRuntimeStateView {
        current_status: ProcessStatus::Starting,
        started_at: Some(now),
        stopped_at: None,
        exit_code: None,
        last_error: None,
        memory_usage: None,
        health_status: Some(HealthStatus::Starting),
        port_bindings: expected_ports(process),
        ..runtime
    }
}

impl RuntimeView {
    /// How an admitted process is launched. It is not where its directory does not exist or its
    /// command is none.
    pub open spec fn launch_plan(self, launch: LaunchView, exists: bool, now: Timestamp) -> Result<
        LaunchPlanView,
        ApiErrorView,
    > {
        let process = launch.process;
        match usable_directory(launch.project, process, launch.machine is Some, exists) {
            Err(error) => Err(error),
            Ok(cwd) => match command_tokens(process) {
                Err(error) => Err(error),
                Ok(tokens) => Ok(
                    LaunchPlanView {
                        process,
                        machine: launch.machine,
                        settings: launch.settings,
                        cwd,
                        tokens,
                        label: displayed(tokens),
                        started_at: now,
                        runtime: starting_state(self.state_of(process.id), process, now),
                    },
                ),
            },
        }
    }

    /// A process whose directory can be used is being started from now on.
    pub open spec fn with_start_prepared(
        self,
        config: ConfigView,
        launch: LaunchView,
        exists: bool,
        now: Timestamp,
        stamp: StampView,
    ) -> RuntimeView {
        let process = launch.process;
        match usable_directory(launch.project, process, launch.machine is Some, exists) {
            Err(_) => self,
            Ok(_) => self.with_state(
                config,
                starting_state(self.state_of(process.id), process, now),
                RuntimeEvent::Started,
            ).with_note(config, process, LogLevel::Info, "Starting process"@, stamp),
        }
    }
}

impl Runtime {
    /// Prepares the launch of an admitted process; `exists` says whether its
    /// [`configured_directory`] does.
    pub fn prepare_start(
        &mut self,
        config: &Config,
        launch: &Launch,
        exists: bool,
        now: Timestamp,
        stamp: Stamp,
    ) -> (r: Result<LaunchPlan, ApiError>)
        ensures
            match r {
                Ok(plan) => old(self).deep_view().launch_plan(launch.deep_view(), exists, now)
                    == Ok::<LaunchPlanView, ApiErrorView>(plan.deep_view()),
                Err(error) => old(self).deep_view().launch_plan(launch.deep_view(), exists, now)
                    == Err::<LaunchPlanView, ApiErrorView>(error.deep_view()),
            },
            final(self).deep_view() == old(self).deep_view().with_start_prepared(
                config.deep_view(),
                launch.deep_view(),
                exists,
                now,
                stamp.deep_view(),
            ),
    {
        let process = &launch.process;
        let is_remote = launch.machine.is_some();
        let cwd = match resolve_working_directory_with_locality(
            &launch.project,
            process,
            is_remote,
            exists,
        ) {
            Ok(cwd) => cwd,
            Err(error) => {
                return Err(error);
            },
        };
        let mut runtime = self.state_of(process.id.as_str());
        let ghost before = runtime.deep_view();
        runtime.current_status = ProcessStatus::Starting;
        runtime.started_at = Some(now);
        runtime.stopped_at = None;
        runtime.exit_code = None;
        runtime.last_error = None;
        runtime.memory_usage = None;
        runtime.health_status = Some(HealthStatus::Starting);
        runtime.port_bindings = detect_process_ports(process);
        assert(runtime.deep_view() =~= starting_state(before, process.deep_view(), now));
        self.set_runtime(config, &runtime, RuntimeEvent::Started);
        self.note(config, process, LogLevel::Info, "Starting process".to_string(), stamp);
        let tokens = match process_command_tokens(process) {
            Ok(tokens) => tokens,
            Err(error) => {
                return Err(error);
            },
        };
        let label = display_command(&tokens);
        Ok(
            LaunchPlan {
                process: process.duplicate(),
                machine: launch.machine.duplicate(),
                settings: launch.settings,
                cwd,
                tokens,
                label,
                started_at: now,
                runtime,
            },
        )
    }
}

/// A command line is run as it is.
pub open spec fn direct_command(tokens: Seq<Seq<char>>) -> CommandLineView
    recommends
        tokens.len() > 0,
{
    CommandLineView { program: tokens[0], args: tokens.skip(1) }
}

/// The program and the arguments that words stand for.
pub fn direct_process_command(tokens: &Vec<String>) -> (r: CommandLine)
    requires
        tokens@.len() > 0,
    ensures
        r.deep_view() == direct_command(tokens.deep_view()),
{
    let mut args: Vec<String> = Vec::new();
    let ghost all = tokens.deep_view();
    let mut i: usize = 1;
    while i < tokens.len()
        invariant
            1 <= i <= tokens@.len(),
            all == tokens.deep_view(),
            args.deep_view() =~= all.subrange(1, i as int),
        decreases tokens@.len() - i,
    {
        push_text(&mut args, tokens[i].clone());
        i += 1;
    }
    assert(args.deep_view() =~= all.skip(1));
    CommandLine { program: tokens[0].clone(), args }
}

// ---------------------------------------------------------------------------
// The launch
// ---------------------------------------------------------------------------

/// Whether a command that could not be run is tried through a shell: on this machine, where it
/// was not found.
pub fn falls_back_to_shell(plan: &LaunchPlan, not_found: bool) -> (r: bool)
    ensures
        r == (plan.deep_view().machine is None && not_found),
{
    plan.machine.is_none() && not_found
}

/// Why a launch failed.
pub open spec fn failure_details(
    plan: LaunchPlanView,
    error: Seq<char>,
    shell_error: Option<Seq<char>>,
) -> Seq<char> {
    match (plan.machine, shell_error) {
        (Some(machine), _) => plan.label + " (ssh "@ + machine.hostname + "): "@ + error,
        (None, Some(shell_error)) => plan.label + ": "@ + shell_error
            + ". Direct launch also failed: "@ + error,
        (None, None) => plan.label + ": "@ + error,
    }
}

/// The answer to a request whose launch failed.
pub open spec fn launch_error(plan: LaunchPlanView, details: Seq<char>) -> ApiErrorView {
    ApiErrorView::with_details(
        "COMMAND_EXECUTION_FAILED"@,
        if plan.machine is Some {
            "Unable to execute remote process command"@
        } else {
            "Unable to execute process command"@
        },
        details,
        true,
    )
}

/// The state of a process whose launch failed.
pub open spec fn spawn_failure_state(
    runtime: ProcessRuntimeStateView,
    details: Seq<char>,
    now: Timestamp,
) -> ProcessRuntimeStateView {
    ProcessRuntimeStateView {
        current_status: ProcessStatus::Failed,
        stopped_at: Some(now),
        last_error: Some(details),
        health_status: Some(HealthStatus::Unknown),
        ..runtime
    }
}

impl RuntimeView {
    /// The launch of a process failed: that is logged, and the process has failed.
    pub open spec fn with_spawn_failure(
        self,
        config: ConfigView,
        process: ProcessDefinitionView,
        runtime: ProcessRuntimeStateView,
        details: Seq<char>,
        now: Timestamp,
        stamp: StampView,
    ) -> RuntimeView {
        self.with_note(config, process, LogLevel::Error, details, stamp).with_state(
            config,
            spawn_failure_state(runtime, details, now),
            RuntimeEvent::Failed,
        )
    }
}

impl Runtime {
    /// Takes in that the launch of a process failed.
    pub fn mark_spawn_failure(
        &mut self,
        config: &Config,
        process: &ProcessDefinition,
        runtime: &ProcessRuntimeState,
        details: String,
        now: Timestamp,
        stamp: Stamp,
    )
        ensures
            final(self).deep_view() == old(self).deep_view().with_spawn_failure(
                config.deep_view(),
                process.deep_view(),
                runtime.deep_view(),
                details@,
                now,
                stamp.deep_view(),
            ),
    {
        let mut failed = runtime.duplicate();
        failed.current_status = ProcessStatus::Failed;
        failed.stopped_at = Some(now);
        failed.last_error = Some(details.clone());
        failed.health_status = Some(HealthStatus::Unknown);
        assert(failed.deep_view() =~= spawn_failure_state(runtime.deep_view(), details@, now));
        self.note(config, process, LogLevel::Error, details, stamp);
        self.set_runtime(config, &failed, RuntimeEvent::Failed);
    }

    /// Takes in that a launch failed, has the process started again later if its policy allows
    /// it, and gives the answer to the request. `shell_error` tells how the attempt through a
    /// shell failed, where there was one.
    pub fn launch_failed(
        &mut self,
        config: &Config,
        plan: &LaunchPlan,
        error: &str,
        shell_error: &Option<String>,
        now: Timestamp,
        stamp: Stamp,
        restart_stamp: Stamp,
    ) -> (r: ApiError)
        ensures
            r.deep_view() == launch_error(
                plan.deep_view(),
                failure_details(plan.deep_view(), error@, shell_error.deep_view()),
            ),
            final(self).deep_view() == old(self).deep_view().with_spawn_failure(
                config.deep_view(),
                plan.process.deep_view(),
                plan.runtime.deep_view(),
                failure_details(plan.deep_view(), error@, shell_error.deep_view()),
                now,
                stamp.deep_view(),
            ).with_restart_scheduled(
                config.deep_view(),
                plan.process.deep_view(),
                now,
                restart_stamp.deep_view(),
            ),
    {
        let details = match &plan.machine {
            Some(machine) => {
                let place = concat3(plan.label.as_str(), " (ssh ", machine.hostname.as_str());
                concat3(place.as_str(), "): ", error)
            },
            None => match shell_error {
                Some(shell_error) => {
                    let first = concat3(plan.label.as_str(), ": ", shell_error.as_str());
                    concat3(first.as_str(), ". Direct launch also failed: ", error)
                },
                None => concat3(plan.label.as_str(), ": ", error),
            },
        };
        self.mark_spawn_failure(config, &plan.process, &plan.runtime, details.clone(), now, stamp);
        self.schedule_auto_restart_if_eligible(config, &plan.process, now, restart_stamp);
        let message = if plan.machine.is_some() {
            "Unable to execute remote process command"
        } else {
            "Unable to execute process command"
        };
        ApiError::with_details("COMMAND_EXECUTION_FAILED", message, details, true)
    }
}

/// What is noted of a launch before anything else.
pub open spec fn launch_note(plan: LaunchPlanView, through_shell: bool) -> Option<
    (LogLevel, Seq<char>),
> {
    match plan.machine {
        Some(machine) => Some(
            (
                LogLevel::Info,
                "Connecting to "@ + machine.ssh_user + "@"@ + machine.hostname + ":"@ + decimal(
                    machine.ssh_port as nat,
                ) + " via SSH"@,
            ),
        ),
        None => if through_shell {
            Some((LogLevel::Debug, "Resolved command through login shell"@))
        } else {
            None
        },
    }
}

/// The record of a process that was launched.
pub open spec fn launch_record(plan: LaunchPlanView, pid: u32) -> RuntimeProcessRecordView {
    RuntimeProcessRecordView {
        process_id: plan.process.id,
        project_id: plan.process.project_id,
        pid,
        process_group_id: pid,
        started_at: plan.started_at,
        command: plan.label,
    }
}

/// The state of a process that was launched.
pub open spec fn running_state(plan: LaunchPlanView, pid: Option<u32>) -> ProcessRuntimeStateView {
    ProcessRuntimeStateView {
        pid,
        current_status: ProcessStatus::Running,
        health_status: Some(HealthStatus::Unknown),
        ..plan.runtime
    }
}

/// What is noted of a process that was launched.
pub open spec fn running_note(plan: LaunchPlanView, pid: Option<u32>) -> Seq<char> {
    let with_pid = match pid {
        Some(pid) => "Process running with pid "@ + decimal(pid as nat),
        None => "Process running"@,
    };
    match (plan.machine, plan.process.memory_limit_mb) {
        (Some(_), _) => with_pid + " (remote)"@,
        (None, Some(limit)) => with_pid + " (RAM limit "@ + decimal(limit as nat) + " MB)"@,
        (None, None) => with_pid,
    }
}

impl RuntimeView {
    /// A process was launched: it is tracked and runs, and its memory is watched where it runs
    /// on this machine.
    pub open spec fn with_launched(
        self,
        config: ConfigView,
        plan: LaunchPlanView,
        pid: Option<u32>,
        through_shell: bool,
        launch_stamp: StampView,
        running_stamp: StampView,
        settings_stamp: StampView,
    ) -> RuntimeView {
        let process = plan.process;
        let noted = match launch_note(plan, through_shell) {
            Some((level, message)) => self.with_note(config, process, level, message, launch_stamp),
            None => self,
        };
        let followed = match pid {
            Some(pid) => noted.with_tracked(launch_record(plan, pid)).with_records_stored(),
            None => noted,
        };
        let running = followed.with_state(
            config,
            running_state(plan, pid),
            RuntimeEvent::Started,
        ).with_note(config, process, LogLevel::Info, running_note(plan, pid), running_stamp);
        let watched = match pid {
            Some(pid) if plan.machine is None => running.with_effect(
                EffectView::WatchMemory {
                    project_id: process.project_id,
                    process_id: process.id,
                    pid,
                },
            ),
            _ => running,
        };
        if plan.settings.auto_start_marked_projects {
            watched.with_note(
                config,
                process,
                LogLevel::Debug,
                "Autostart setting is enabled"@,
                settings_stamp,
            )
        } else {
            watched
        }
    }
}

impl Runtime {
    /// Takes in that a process was launched, and gives the answer to the request.
    pub fn launched(
        &mut self,
        config: &Config,
        plan: &LaunchPlan,
        pid: Option<u32>,
        through_shell: bool,
        launch_stamp: Stamp,
        running_stamp: Stamp,
        settings_stamp: Stamp,
    ) -> (r: ProcessRuntimeState)
        ensures
            r.deep_view() == running_state(plan.deep_view(), pid),
            final(self).deep_view() == old(self).deep_view().with_launched(
                config.deep_view(),
                plan.deep_view(),
                pid,
                through_shell,
                launch_stamp.deep_view(),
                running_stamp.deep_view(),
                settings_stamp.deep_view(),
            ),
    {
        let process = &plan.process;
        match &plan.machine {
            Some(machine) => {
                let user = concat3("Connecting to ", machine.ssh_user.as_str(), "@");
                let host = concat3(user.as_str(), machine.hostname.as_str(), ":");
                let message = around_number(host.as_str(), machine.ssh_port as u64, " via SSH");
                self.note(config, process, LogLevel::Info, message, launch_stamp);
            },
            None => {
                if through_shell {
                    let message = "Resolved command through login shell".to_string();
                    self.note(config, process, LogLevel::Debug, message, launch_stamp);
                }
            },
        }
        if let Some(pid) = pid {
            let record = RuntimeProcessRecord {
                process_id: process.id.clone(),
                project_id: process.project_id.clone(),
                pid,
                process_group_id: pid,
                started_at: plan.started_at,
                command: plan.label.clone(),
            };
            self.track_runtime_process(record);
            self.persist_runtime_processes();
        }
        let mut runtime = plan.runtime.duplicate();
        runtime.pid = pid;
        runtime.current_status = ProcessStatus::Running;
        runtime.health_status = Some(HealthStatus::Unknown);
        assert(runtime.deep_view() =~= running_state(plan.deep_view(), pid));
        self.set_runtime(config, &runtime, RuntimeEvent::Started);
        let with_pid = match pid {
            Some(pid) => with_number("Process running with pid ", pid as u64),
            None => "Process running".to_string(),
        };
        let message = match &plan.machine {
            Some(_) => concat(with_pid.as_str(), " (remote)"),
            None => match process.memory_limit_mb {
                Some(limit) => {
                    let head = concat(with_pid.as_str(), " (RAM limit ");
                    around_number(head.as_str(), limit, " MB)")
                },
                None => with_pid,
            },
        };
        assert(message@ == running_note(plan.deep_view(), pid));
        self.note(config, process, LogLevel::Info, message, running_stamp);
        if plan.machine.is_none() {
            if let Some(pid) = pid {
                self.queue(
                    Effect::WatchMemory {
                        project_id: process.project_id.clone(),
                        process_id: process.id.clone(),
                        pid,
                    },
                );
            }
        }
        if plan.settings.auto_start_marked_projects {
            let message = "Autostart setting is enabled".to_string();
            self.note(config, process, LogLevel::Debug, message, settings_stamp);
        }
        runtime
    }
}

} // verus!
