//! The configured projects, processes and machines, what is known of them at run time, and
//! the values that requests are answered with.
//!
//! Each type has a model in which texts are `Seq<char>` and vectors are `Seq`; it is the type's
//! `deep_view`.
use vstd::prelude::*;

use crate::clock::Timestamp;
use crate::text_map::{lists, TextMap};

verus! {

/// Values that can be copied so that the copy has the same model.
pub trait Duplicate: DeepView + Sized {
    fn duplicate(&self) -> (r: Self)
        ensures
            r.deep_view() == self.deep_view(),
    ;
}

impl Duplicate for u32 {
    fn duplicate(&self) -> (r: Self) {
        *self
    }
}

impl Duplicate for String {
    fn duplicate(&self) -> (r: Self) {
        self.clone()
    }
}

impl<T: Duplicate> Duplicate for Option<T> {
    fn duplicate(&self) -> (r: Self) {
        match self {
            Some(value) => Some(value.duplicate()),
            None => None,
        }
    }
}

impl<T: Duplicate> Duplicate for Vec<T> {
    fn duplicate(&self) -> (r: Self) {
        let mut r: Vec<T> = Vec::new();
        let mut i: usize = 0;
        while i < self.len()
            invariant
                i <= self@.len(),
                r.deep_view() == self.deep_view().take(i as int),
            decreases self@.len() - i,
        {
            let item = self[i].duplicate();
            let ghost before = r.deep_view();
            r.push(item);
            assert(r.deep_view() =~= before.push(item.deep_view()));
            assert(self.deep_view().take(i + 1) =~= before.push(self@[i as int].deep_view()));
            i += 1;
        }
        assert(self.deep_view().take(i as int) =~= self.deep_view());
        r
    }
}

impl<T: Duplicate> Duplicate for TextMap<T> {
    fn duplicate(&self) -> (r: Self) {
        let mut r: TextMap<T> = TextMap::new();
        let n = self.len();
        let mut i: usize = 0;
        while i < n
            invariant
                i <= n,
                n == self.listing().len(),
                lists(self.listing(), self.deep_view()),
                forall|key: Seq<char>| #[trigger]
                    r.deep_view().contains_key(key) ==> self.deep_view().contains_key(key)
                        && r.deep_view()[key] == self.deep_view()[key],
                forall|k: int|
                    0 <= k < i ==> r.deep_view().contains_key((#[trigger] self.listing()[k]).0),
            decreases n - i,
        {
            let ghost entry = self.listing()[i as int];
            r.insert(self.key_at(i).clone(), self.value_at(i).duplicate());
            i += 1;
        }
        assert(r.deep_view() =~= self.deep_view());
        r
    }
}

impl DeepView for Timestamp {
    type V = Timestamp;

    open spec fn deep_view(&self) -> Timestamp {
        *self
    }
}

/// When a process that went down is started again.
#[derive(Clone, Copy, PartialEq, Eq, Structural, Debug)]
pub enum RestartPolicyKind {
    Never,
    Always,
    OnFailure,
    LimitedRetries,
}

impl DeepView for RestartPolicyKind {
    type V = RestartPolicyKind;

    open spec fn deep_view(&self) -> RestartPolicyKind {
        *self
    }
}

/// How a process that went down is started again.
#[derive(Clone, Copy, PartialEq, Eq, Structural, Debug)]
pub struct RestartPolicy {
    pub kind: RestartPolicyKind,
    pub max_retries: Option<u32>,
    pub retry_delay_ms: Option<u64>,
}

impl DeepView for RestartPolicy {
    type V = RestartPolicy;

    open spec fn deep_view(&self) -> RestartPolicy {
        *self
    }
}

/// Where a process stands in its life.
#[derive(Clone, Copy, PartialEq, Eq, Structural, Debug)]
pub enum ProcessStatus {
    Idle,
    Queued,
    Starting,
    Running,
    Stopping,
    Stopped,
    Failed,
    Crashed,
    Blocked,
    WaitingDependency,
}

impl DeepView for ProcessStatus {
    type V = ProcessStatus;

    open spec fn deep_view(&self) -> ProcessStatus {
        *self
    }
}

/// Where the processes of a project stand together.
#[derive(Clone, Copy, PartialEq, Eq, Structural, Debug)]
pub enum ProjectStatus {
    Stopped,
    Failed,
    Degraded,
    Starting,
    Running,
    Partial,
}

impl DeepView for ProjectStatus {
    type V = ProjectStatus;

    open spec fn deep_view(&self) -> ProjectStatus {
        *self
    }
}

/// What the last health check of a process found.
#[derive(Clone, Copy, PartialEq, Eq, Structural, Debug)]
pub enum HealthStatus {
    Healthy,
    Unhealthy,
    Degraded,
    Unknown,
    Starting,
}

impl DeepView for HealthStatus {
    type V = HealthStatus;

    open spec fn deep_view(&self) -> HealthStatus {
        *self
    }
}

/// Where a log line comes from.
#[derive(Clone, Copy, PartialEq, Eq, Structural, Debug)]
pub enum StreamType {
    Stdout,
    Stderr,
    System,
}

impl DeepView for StreamType {
    type V = StreamType;

    open spec fn deep_view(&self) -> StreamType {
        *self
    }
}

/// How grave a log line is.
#[derive(Clone, Copy, PartialEq, Eq, Structural, Debug)]
pub enum LogLevel {
    Debug,
    Info,
    Warn,
    Error,
}

impl DeepView for LogLevel {
    type V = LogLevel;

    open spec fn deep_view(&self) -> LogLevel {
        *self
    }
}

/// A process that launchd supervises.
#[derive(Debug, PartialEq)]
pub struct LaunchdSupervision {
    pub label: String,
    pub domain: Option<String>,
}

/// The model of [`LaunchdSupervision`].
#[verifier::ext_equal]
pub struct LaunchdSupervisionView {
    pub label: Seq<char>,
    pub domain: Option<Seq<char>>,
}

impl DeepView for LaunchdSupervision {
    type V = LaunchdSupervisionView;

    open spec fn deep_view(&self) -> LaunchdSupervisionView {
        LaunchdSupervisionView {
            label: self.label@,
            domain: self.domain.deep_view(),
        }
    }
}

impl Duplicate for LaunchdSupervision {
    fn duplicate(&self) -> (r: Self) {
        LaunchdSupervision {
            label: self.label.clone(),
            domain: self.domain.duplicate(),
        }
    }
}

/// A machine that processes can run on.
#[derive(Debug, PartialEq)]
pub struct Machine {
    pub id: String,
    pub hostname: String,
    pub ssh_user: String,
    pub ssh_port: u16,
    pub is_default_local: bool,
}

/// The model of [`Machine`].
#[verifier::ext_equal]
pub struct MachineView {
    pub id: Seq<char>,
    pub hostname: Seq<char>,
    pub ssh_user: Seq<char>,
    pub ssh_port: u16,
    pub is_default_local: bool,
}

impl DeepView for Machine {
    type V = MachineView;

    open spec fn deep_view(&self) -> MachineView {
        MachineView {
            id: self.id@,
            hostname: self.hostname@,
            ssh_user: self.ssh_user@,
            ssh_port: self.ssh_port,
            is_default_local: self.is_default_local,
        }
    }
}

impl Duplicate for Machine {
    fn duplicate(&self) -> (r: Self) {
        Machine {
            id: self.id.clone(),
            hostname: self.hostname.clone(),
            ssh_user: self.ssh_user.clone(),
            ssh_port: self.ssh_port,
            is_default_local: self.is_default_local,
        }
    }
}

/// How the health of a process is checked.
#[derive(Debug, PartialEq)]
pub enum HealthCheck {
    Disabled,
    Tcp { host: String, port: u16 },
    Http { url: String },
    Command { command: String },
}

/// The model of [`HealthCheck`].
pub enum HealthCheckView {
    Disabled,
    Tcp { host: Seq<char>, port: u16 },
    Http { url: Seq<char> },
    Command { command: Seq<char> },
}

impl DeepView for HealthCheck {
    type V = HealthCheckView;

    open spec fn deep_view(&self) -> HealthCheckView {
        match self {
            HealthCheck::Disabled => HealthCheckView::Disabled,
            HealthCheck::Tcp { host, port } => HealthCheckView::Tcp { host: host@, port: *port },
            HealthCheck::Http { url } => HealthCheckView::Http { url: url@ },
            HealthCheck::Command { command } => HealthCheckView::Command { command: command@ },
        }
    }
}

impl Duplicate for HealthCheck {
    fn duplicate(&self) -> (r: Self) {
        match self {
            HealthCheck::Disabled => HealthCheck::Disabled,
            HealthCheck::Tcp { host, port } => HealthCheck::Tcp { host: host.clone(), port: *port },
            HealthCheck::Http { url } => HealthCheck::Http { url: url.clone() },
            HealthCheck::Command { command } => HealthCheck::Command { command: command.clone() },
        }
    }
}

/// A configured process.
pub struct ProcessDefinition {
    pub id: String,
    pub project_id: String,
    /// The name by which other processes of the project depend on it.
    pub key: String,
    pub name: String,
    pub command: String,
    pub args: Vec<String>,
    pub env: TextMap<String>,
    pub working_directory: Option<String>,
    /// Keys of processes of the same project that have to run first.
    pub depends_on: Vec<String>,
    pub restart_policy: RestartPolicy,
    pub health_check: HealthCheck,
    pub memory_limit_mb: Option<u64>,
    pub startup_delay_ms: Option<u64>,
    pub auto_start: bool,
    pub visible: bool,
    pub machine_id: Option<String>,
    pub launchd: Option<LaunchdSupervision>,
}

/// The model of [`ProcessDefinition`].
#[verifier::ext_equal]
pub struct ProcessDefinitionView {
    pub id: Seq<char>,
    pub project_id: Seq<char>,
    pub key: Seq<char>,
    pub name: Seq<char>,
    pub command: Seq<char>,
    pub args: Seq<Seq<char>>,
    pub env: Map<Seq<char>, Seq<char>>,
    pub working_directory: Option<Seq<char>>,
    pub depends_on: Seq<Seq<char>>,
    pub restart_policy: RestartPolicy,
    pub health_check: HealthCheckView,
    pub memory_limit_mb: Option<u64>,
    pub startup_delay_ms: Option<u64>,
    pub auto_start: bool,
    pub visible: bool,
    pub machine_id: Option<Seq<char>>,
    pub launchd: Option<LaunchdSupervisionView>,
}

impl DeepView for ProcessDefinition {
    type V = ProcessDefinitionView;

    open spec fn deep_view(&self) -> ProcessDefinitionView {
        ProcessDefinitionView {
            id: self.id@,
            project_id: self.project_id@,
            key: self.key@,
            name: self.name@,
            command: self.command@,
            args: self.args.deep_view(),
            env: self.env.deep_view(),
            working_directory: self.working_directory.deep_view(),
            depends_on: self.depends_on.deep_view(),
            restart_policy: self.restart_policy,
            health_check: self.health_check.deep_view(),
            memory_limit_mb: self.memory_limit_mb,
            startup_delay_ms: self.startup_delay_ms,
            auto_start: self.auto_start,
            visible: self.visible,
            machine_id: self.machine_id.deep_view(),
            launchd: self.launchd.deep_view(),
        }
    }
}

impl Duplicate for ProcessDefinition {
    fn duplicate(&self) -> (r: Self) {
        ProcessDefinition {
            id: self.id.clone(),
            project_id: self.project_id.clone(),
            key: self.key.clone(),
            name: self.name.clone(),
            command: self.command.clone(),
            args: self.args.duplicate(),
            env: self.env.duplicate(),
            working_directory: self.working_directory.duplicate(),
            depends_on: self.depends_on.duplicate(),
            restart_policy: self.restart_policy,
            health_check: self.health_check.duplicate(),
            memory_limit_mb: self.memory_limit_mb,
            startup_delay_ms: self.startup_delay_ms,
            auto_start: self.auto_start,
            visible: self.visible,
            machine_id: self.machine_id.duplicate(),
            launchd: self.launchd.duplicate(),
        }
    }
}

/// A configured project.
#[derive(Debug, PartialEq)]
pub struct Project {
    pub id: String,
    pub name: String,
    pub root_path: String,
    pub auto_start: bool,
    pub startup_order: i64,
    pub memory_limit_mb: Option<u64>,
}

/// The model of [`Project`].
#[verifier::ext_equal]
pub struct ProjectView {
    pub id: Seq<char>,
    pub name: Seq<char>,
    pub root_path: Seq<char>,
    pub auto_start: bool,
    pub startup_order: i64,
    pub memory_limit_mb: Option<u64>,
}

impl DeepView for Project {
    type V = ProjectView;

    open spec fn deep_view(&self) -> ProjectView {
        ProjectView {
            id: self.id@,
            name: self.name@,
            root_path: self.root_path@,
            auto_start: self.auto_start,
            startup_order: self.startup_order,
            memory_limit_mb: self.memory_limit_mb,
        }
    }
}

impl Duplicate for Project {
    fn duplicate(&self) -> (r: Self) {
        Project {
            id: self.id.clone(),
            name: self.name.clone(),
            root_path: self.root_path.clone(),
            auto_start: self.auto_start,
            startup_order: self.startup_order,
            memory_limit_mb: self.memory_limit_mb,
        }
    }
}

/// Settings of the orchestrator.
#[derive(Clone, Copy, PartialEq, Eq, Structural, Debug)]
pub struct Settings {
    pub stop_timeout_ms: u64,
    pub log_retention_lines: usize,
    pub notifications_enabled: bool,
    pub auto_start_marked_projects: bool,
}

impl DeepView for Settings {
    type V = Settings;

    open spec fn deep_view(&self) -> Settings {
        *self
    }
}

/// Everything that is configured.
pub struct Config {
    pub projects: Vec<Project>,
    pub processes: Vec<ProcessDefinition>,
    pub machines: Vec<Machine>,
    pub settings: Settings,
}

/// The model of [`Config`].
#[verifier::ext_equal]
pub struct ConfigView {
    pub projects: Seq<ProjectView>,
    pub processes: Seq<ProcessDefinitionView>,
    pub machines: Seq<MachineView>,
    pub settings: Settings,
}

impl DeepView for Config {
    type V = ConfigView;

    open spec fn deep_view(&self) -> ConfigView {
        ConfigView {
            projects: self.projects.deep_view(),
            processes: self.processes.deep_view(),
            machines: self.machines.deep_view(),
            settings: self.settings,
        }
    }
}

impl Duplicate for Config {
    fn duplicate(&self) -> (r: Self) {
        Config {
            projects: self.projects.duplicate(),
            processes: self.processes.duplicate(),
            machines: self.machines.duplicate(),
            settings: self.settings,
        }
    }
}

/// A port that a process is expected to listen on.
#[derive(Debug, PartialEq)]
pub struct PortBinding {
    pub host: String,
    pub port: u16,
    pub protocol: String,
}

/// The model of [`PortBinding`].
#[verifier::ext_equal]
pub struct PortBindingView {
    pub host: Seq<char>,
    pub port: u16,
    pub protocol: Seq<char>,
}

impl DeepView for PortBinding {
    type V = PortBindingView;

    open spec fn deep_view(&self) -> PortBindingView {
        PortBindingView {
            host: self.host@,
            port: self.port,
            protocol: self.protocol@,
        }
    }
}

impl Duplicate for PortBinding {
    fn duplicate(&self) -> (r: Self) {
        PortBinding {
            host: self.host.clone(),
            port: self.port,
            protocol: self.protocol.clone(),
        }
    }
}

/// What is known of a process at run time.
#[derive(Debug, PartialEq)]
pub struct ProcessRuntimeState {
    pub process_id: String,
    pub pid: Option<u32>,
    pub current_status: ProcessStatus,
    pub started_at: Option<Timestamp>,
    pub stopped_at: Option<Timestamp>,
    pub exit_code: Option<i32>,
    pub last_error: Option<String>,
    pub restart_count: u32,
    /// Bytes of memory in use.
    pub memory_usage: Option<u64>,
    /// The bit pattern of the share of CPU time in use, a 64 bit floating point number.
    pub cpu_usage: Option<u64>,
    pub health_status: Option<HealthStatus>,
    pub last_heartbeat: Option<Timestamp>,
    pub port_bindings: Vec<PortBinding>,
}

/// The model of [`ProcessRuntimeState`].
#[verifier::ext_equal]
pub struct ProcessRuntimeStateView {
    pub process_id: Seq<char>,
    pub pid: Option<u32>,
    pub current_status: ProcessStatus,
    pub started_at: Option<Timestamp>,
    pub stopped_at: Option<Timestamp>,
    pub exit_code: Option<i32>,
    pub last_error: Option<Seq<char>>,
    pub restart_count: u32,
    pub memory_usage: Option<u64>,
    pub cpu_usage: Option<u64>,
    pub health_status: Option<HealthStatus>,
    pub last_heartbeat: Option<Timestamp>,
    pub port_bindings: Seq<PortBindingView>,
}

impl DeepView for ProcessRuntimeState {
    type V = ProcessRuntimeStateView;

    open spec fn deep_view(&self) -> ProcessRuntimeStateView {
        ProcessRuntimeStateView {
            process_id: self.process_id@,
            pid: self.pid,
            current_status: self.current_status,
            started_at: self.started_at,
            stopped_at: self.stopped_at,
            exit_code: self.exit_code,
            last_error: self.last_error.deep_view(),
            restart_count: self.restart_count,
            memory_usage: self.memory_usage,
            cpu_usage: self.cpu_usage,
            health_status: self.health_status,
            last_heartbeat: self.last_heartbeat,
            port_bindings: self.port_bindings.deep_view(),
        }
    }
}

impl Duplicate for ProcessRuntimeState {
    fn duplicate(&self) -> (r: Self) {
        ProcessRuntimeState {
            process_id: self.process_id.clone(),
            pid: self.pid,
            current_status: self.current_status,
            started_at: self.started_at,
            stopped_at: self.stopped_at,
            exit_code: self.exit_code,
            last_error: self.last_error.duplicate(),
            restart_count: self.restart_count,
            memory_usage: self.memory_usage,
            cpu_usage: self.cpu_usage,
            health_status: self.health_status,
            last_heartbeat: self.last_heartbeat,
            port_bindings: self.port_bindings.duplicate(),
        }
    }
}

impl ProcessRuntimeStateView {
    /// A process of which nothing is known but that it does not run.
    pub open spec fn stopped(process_id: Seq<char>) -> ProcessRuntimeStateView {
        ProcessRuntimeStateView {
            process_id,
            pid: None,
            current_status: ProcessStatus::Stopped,
            started_at: None,
            stopped_at: None,
            exit_code: None,
            last_error: None,
            restart_count: 0,
            memory_usage: None,
            cpu_usage: None,
            health_status: None,
            last_heartbeat: None,
            port_bindings: Seq::empty(),
        }
    }
}

impl ProcessRuntimeState {
    /// A process of which nothing is known but that it does not run.
    pub fn stopped(process_id: String) -> (r: Self)
        ensures
            r.deep_view() == ProcessRuntimeStateView::stopped(process_id@),
    {
        let r = ProcessRuntimeState {
            process_id,
            pid: None,
            current_status: ProcessStatus::Stopped,
            started_at: None,
            stopped_at: None,
            exit_code: None,
            last_error: None,
            restart_count: 0,
            memory_usage: None,
            cpu_usage: None,
            health_status: None,
            last_heartbeat: None,
            port_bindings: Vec::new(),
        };
        assert(r.deep_view() =~= ProcessRuntimeStateView::stopped(process_id@));
        r
    }
}

/// A process that the orchestrator started or adopted and keeps track of.
#[derive(Debug, PartialEq)]
pub struct RuntimeProcessRecord {
    pub process_id: String,
    pub project_id: String,
    pub pid: u32,
    pub process_group_id: u32,
    pub started_at: Timestamp,
    pub command: String,
}

/// The model of [`RuntimeProcessRecord`].
#[verifier::ext_equal]
pub struct RuntimeProcessRecordView {
    pub process_id: Seq<char>,
    pub project_id: Seq<char>,
    pub pid: u32,
    pub process_group_id: u32,
    pub started_at: Timestamp,
    pub command: Seq<char>,
}

impl DeepView for RuntimeProcessRecord {
    type V = RuntimeProcessRecordView;

    open spec fn deep_view(&self) -> RuntimeProcessRecordView {
        RuntimeProcessRecordView {
            process_id: self.process_id@,
            project_id: self.project_id@,
            pid: self.pid,
            process_group_id: self.process_group_id,
            started_at: self.started_at,
            command: self.command@,
        }
    }
}

impl Duplicate for RuntimeProcessRecord {
    fn duplicate(&self) -> (r: Self) {
        RuntimeProcessRecord {
            process_id: self.process_id.clone(),
            project_id: self.project_id.clone(),
            pid: self.pid,
            process_group_id: self.process_group_id,
            started_at: self.started_at,
            command: self.command.clone(),
        }
    }
}

/// A line of the log.
#[derive(Debug, PartialEq)]
pub struct LogEntry {
    pub id: String,
    pub process_id: String,
    pub project_id: String,
    pub timestamp: Timestamp,
    pub stream: StreamType,
    pub level: LogLevel,
    pub raw: Option<String>,
    pub message: String,
}

/// The model of [`LogEntry`].
#[verifier::ext_equal]
pub struct LogEntryView {
    pub id: Seq<char>,
    pub process_id: Seq<char>,
    pub project_id: Seq<char>,
    pub timestamp: Timestamp,
    pub stream: StreamType,
    pub level: LogLevel,
    pub raw: Option<Seq<char>>,
    pub message: Seq<char>,
}

impl DeepView for LogEntry {
    type V = LogEntryView;

    open spec fn deep_view(&self) -> LogEntryView {
        LogEntryView {
            id: self.id@,
            process_id: self.process_id@,
            project_id: self.project_id@,
            timestamp: self.timestamp,
            stream: self.stream,
            level: self.level,
            raw: self.raw.deep_view(),
            message: self.message@,
        }
    }
}

impl Duplicate for LogEntry {
    fn duplicate(&self) -> (r: Self) {
        LogEntry {
            id: self.id.clone(),
            process_id: self.process_id.clone(),
            project_id: self.project_id.clone(),
            timestamp: self.timestamp,
            stream: self.stream,
            level: self.level,
            raw: self.raw.duplicate(),
            message: self.message.clone(),
        }
    }
}

/// Which lines of the log are asked for.
#[derive(Debug, PartialEq)]
pub struct LogHistoryFilters {
    pub project_id: Option<String>,
    pub process_id: Option<String>,
    pub limit: Option<usize>,
    pub since: Option<Timestamp>,
}

/// The model of [`LogHistoryFilters`].
#[verifier::ext_equal]
pub struct LogHistoryFiltersView {
    pub project_id: Option<Seq<char>>,
    pub process_id: Option<Seq<char>>,
    pub limit: Option<usize>,
    pub since: Option<Timestamp>,
}

impl DeepView for LogHistoryFilters {
    type V = LogHistoryFiltersView;

    open spec fn deep_view(&self) -> LogHistoryFiltersView {
        LogHistoryFiltersView {
            project_id: self.project_id.deep_view(),
            process_id: self.process_id.deep_view(),
            limit: self.limit,
            since: self.since,
        }
    }
}

impl Duplicate for LogHistoryFilters {
    fn duplicate(&self) -> (r: Self) {
        LogHistoryFilters {
            project_id: self.project_id.duplicate(),
            process_id: self.process_id.duplicate(),
            limit: self.limit,
            since: self.since,
        }
    }
}

/// An error that the user interface reported.
#[derive(Debug, PartialEq)]
pub struct FrontendErrorRecord {
    pub source: String,
    pub message: String,
    pub stack: Option<String>,
    pub component_stack: Option<String>,
    pub timestamp: Timestamp,
}

/// The model of [`FrontendErrorRecord`].
#[verifier::ext_equal]
pub struct FrontendErrorRecordView {
    pub source: Seq<char>,
    pub message: Seq<char>,
    pub stack: Option<Seq<char>>,
    pub component_stack: Option<Seq<char>>,
    pub timestamp: Timestamp,
}

impl DeepView for FrontendErrorRecord {
    type V = FrontendErrorRecordView;

    open spec fn deep_view(&self) -> FrontendErrorRecordView {
        FrontendErrorRecordView {
            source: self.source@,
            message: self.message@,
            stack: self.stack.deep_view(),
            component_stack: self.component_stack.deep_view(),
            timestamp: self.timestamp,
        }
    }
}

impl Duplicate for FrontendErrorRecord {
    fn duplicate(&self) -> (r: Self) {
        FrontendErrorRecord {
            source: self.source.clone(),
            message: self.message.clone(),
            stack: self.stack.duplicate(),
            component_stack: self.component_stack.duplicate(),
            timestamp: self.timestamp,
        }
    }
}

/// What a process used at one moment.
#[derive(Clone, Copy, PartialEq, Eq, Structural, Debug)]
pub struct MetricSample {
    pub timestamp: Timestamp,
    /// The bit pattern of the share of CPU time, a 64 bit floating point number.
    pub cpu_usage: Option<u64>,
    pub memory_usage: Option<u64>,
}

impl DeepView for MetricSample {
    type V = MetricSample;

    open spec fn deep_view(&self) -> MetricSample {
        *self
    }
}

/// Why a request was refused.
#[derive(Debug, PartialEq)]
pub struct ApiError {
    pub code: String,
    pub message: String,
    pub details: Option<String>,
    pub recoverable: bool,
}

/// The model of [`ApiError`].
#[verifier::ext_equal]
pub struct ApiErrorView {
    pub code: Seq<char>,
    pub message: Seq<char>,
    pub details: Option<Seq<char>>,
    pub recoverable: bool,
}

impl DeepView for ApiError {
    type V = ApiErrorView;

    open spec fn deep_view(&self) -> ApiErrorView {
        ApiErrorView {
            code: self.code@,
            message: self.message@,
            details: self.details.deep_view(),
            recoverable: self.recoverable,
        }
    }
}

impl Duplicate for ApiError {
    fn duplicate(&self) -> (r: Self) {
        ApiError {
            code: self.code.clone(),
            message: self.message.clone(),
            details: self.details.duplicate(),
            recoverable: self.recoverable,
        }
    }
}

impl ApiErrorView {
    pub open spec fn new(code: Seq<char>, message: Seq<char>, recoverable: bool) -> ApiErrorView {
        ApiErrorView { code, message, details: None, recoverable }
    }

    pub open spec fn with_details(
        code: Seq<char>,
        message: Seq<char>,
        details: Seq<char>,
        recoverable: bool,
    ) -> ApiErrorView {
        ApiErrorView { code, message, details: Some(details), recoverable }
    }
}

impl ApiError {
    /// An error without details.
    pub fn new(code: &str, message: &str, recoverable: bool) -> (r: Self)
        ensures
            r.deep_view() == ApiErrorView::new(code@, message@, recoverable),
    {
        ApiError {
            code: code.to_string(),
            message: message.to_string(),
            details: None,
            recoverable,
        }
    }

    /// An error with details.
    pub fn with_details(code: &str, message: &str, details: String, recoverable: bool) -> (r: Self)
        ensures
            r.deep_view() == ApiErrorView::with_details(code@, message@, details@, recoverable),
    {
        ApiError {
            code: code.to_string(),
            message: message.to_string(),
            details: Some(details),
            recoverable,
        }
    }
}

/// A project with all that is known of it.
pub struct ProjectDetail {
    pub project: Project,
    pub processes: Vec<ProcessDefinition>,
    pub status: ProjectStatus,
    pub runtime_states: Vec<ProcessRuntimeState>,
    pub recent_logs: Vec<LogEntry>,
}

/// The model of [`ProjectDetail`].
#[verifier::ext_equal]
pub struct ProjectDetailView {
    pub project: ProjectView,
    pub processes: Seq<ProcessDefinitionView>,
    pub status: ProjectStatus,
    pub runtime_states: Seq<ProcessRuntimeStateView>,
    pub recent_logs: Seq<LogEntryView>,
}

impl DeepView for ProjectDetail {
    type V = ProjectDetailView;

    open spec fn deep_view(&self) -> ProjectDetailView {
        ProjectDetailView {
            project: self.project.deep_view(),
            processes: self.processes.deep_view(),
            status: self.status,
            runtime_states: self.runtime_states.deep_view(),
            recent_logs: self.recent_logs.deep_view(),
        }
    }
}

impl Duplicate for ProjectDetail {
    fn duplicate(&self) -> (r: Self) {
        ProjectDetail {
            project: self.project.duplicate(),
            processes: self.processes.duplicate(),
            status: self.status,
            runtime_states: self.runtime_states.duplicate(),
            recent_logs: self.recent_logs.duplicate(),
        }
    }
}

/// The figures of the dashboard.
#[derive(Debug, PartialEq)]
pub struct DashboardSummary {
    pub project_count: usize,
    pub process_count: usize,
    pub running_process_count: usize,
    pub failed_process_count: usize,
    pub port_conflict_count: usize,
    pub auto_start_project_count: usize,
    pub recent_problem_logs: Vec<LogEntry>,
}

/// The model of [`DashboardSummary`].
#[verifier::ext_equal]
pub struct DashboardSummaryView {
    pub project_count: usize,
    pub process_count: usize,
    pub running_process_count: usize,
    pub failed_process_count: usize,
    pub port_conflict_count: usize,
    pub auto_start_project_count: usize,
    pub recent_problem_logs: Seq<LogEntryView>,
}

impl DeepView for DashboardSummary {
    type V = DashboardSummaryView;

    open spec fn deep_view(&self) -> DashboardSummaryView {
        DashboardSummaryView {
            project_count: self.project_count,
            process_count: self.process_count,
            running_process_count: self.running_process_count,
            failed_process_count: self.failed_process_count,
            port_conflict_count: self.port_conflict_count,
            auto_start_project_count: self.auto_start_project_count,
            recent_problem_logs: self.recent_problem_logs.deep_view(),
        }
    }
}

impl Duplicate for DashboardSummary {
    fn duplicate(&self) -> (r: Self) {
        DashboardSummary {
            project_count: self.project_count,
            process_count: self.process_count,
            running_process_count: self.running_process_count,
            failed_process_count: self.failed_process_count,
            port_conflict_count: self.port_conflict_count,
            auto_start_project_count: self.auto_start_project_count,
            recent_problem_logs: self.recent_problem_logs.duplicate(),
        }
    }
}

/// A process in the group of an external process.
#[derive(Debug, PartialEq)]
pub struct ExternalProcessChild {
    pub pid: u32,
    pub command: String,
}

/// The model of [`ExternalProcessChild`].
#[verifier::ext_equal]
pub struct ExternalProcessChildView {
    pub pid: u32,
    pub command: Seq<char>,
}

impl DeepView for ExternalProcessChild {
    type V = ExternalProcessChildView;

    open spec fn deep_view(&self) -> ExternalProcessChildView {
        ExternalProcessChildView {
            pid: self.pid,
            command: self.command@,
        }
    }
}

impl Duplicate for ExternalProcessChild {
    fn duplicate(&self) -> (r: Self) {
        ExternalProcessChild {
            pid: self.pid,
            command: self.command.clone(),
        }
    }
}

/// A process that runs without having been started by the orchestrator.
#[derive(Debug, PartialEq)]
pub struct ExternalProcess {
    pub pid: u32,
    pub process_group_id: u32,
    pub command: String,
    pub cwd: String,
    pub user: String,
    pub started_at: String,
    pub etime: String,
    /// The share of the processor in percent, as the text of a number; zero where it is not told.
    pub cpu_percent: String,
    pub memory_kb: u64,
    pub ports: Vec<u32>,
    pub children: Vec<ExternalProcessChild>,
}

/// The model of [`ExternalProcess`].
#[verifier::ext_equal]
pub struct ExternalProcessView {
    pub pid: u32,
    pub process_group_id: u32,
    pub command: Seq<char>,
    pub cwd: Seq<char>,
    pub user: Seq<char>,
    pub started_at: Seq<char>,
    pub etime: Seq<char>,
    pub cpu_percent: Seq<char>,
    pub memory_kb: u64,
    pub ports: Seq<u32>,
    pub children: Seq<ExternalProcessChildView>,
}

impl DeepView for ExternalProcess {
    type V = ExternalProcessView;

    open spec fn deep_view(&self) -> ExternalProcessView {
        ExternalProcessView {
            pid: self.pid,
            process_group_id: self.process_group_id,
            command: self.command@,
            cwd: self.cwd@,
            user: self.user@,
            started_at: self.started_at@,
            etime: self.etime@,
            cpu_percent: self.cpu_percent@,
            memory_kb: self.memory_kb,
            ports: self.ports.deep_view(),
            children: self.children.deep_view(),
        }
    }
}

impl Duplicate for ExternalProcess {
    fn duplicate(&self) -> (r: Self) {
        ExternalProcess {
            pid: self.pid,
            process_group_id: self.process_group_id,
            command: self.command.clone(),
            cwd: self.cwd.clone(),
            user: self.user.clone(),
            started_at: self.started_at.clone(),
            etime: self.etime.clone(),
            cpu_percent: self.cpu_percent.clone(),
            memory_kb: self.memory_kb,
            ports: self.ports.duplicate(),
            children: self.children.duplicate(),
        }
    }
}

/// A program and its arguments.
#[derive(Debug, PartialEq)]
pub struct CommandLine {
    pub program: String,
    pub args: Vec<String>,
}

/// The model of [`CommandLine`].
#[verifier::ext_equal]
pub struct CommandLineView {
    pub program: Seq<char>,
    pub args: Seq<Seq<char>>,
}

impl DeepView for CommandLine {
    type V = CommandLineView;

    open spec fn deep_view(&self) -> CommandLineView {
        CommandLineView {
            program: self.program@,
            args: self.args.deep_view(),
        }
    }
}

impl Duplicate for CommandLine {
    fn duplicate(&self) -> (r: Self) {
        CommandLine {
            program: self.program.clone(),
            args: self.args.duplicate(),
        }
    }
}

/// What a command that has ended left behind.
#[derive(Debug, PartialEq)]
pub struct CommandOutput {
    pub success: bool,
    pub stdout: String,
    pub stderr: String,
}

/// The model of [`CommandOutput`].
#[verifier::ext_equal]
pub struct CommandOutputView {
    pub success: bool,
    pub stdout: Seq<char>,
    pub stderr: Seq<char>,
}

impl DeepView for CommandOutput {
    type V = CommandOutputView;

    open spec fn deep_view(&self) -> CommandOutputView {
        CommandOutputView {
            success: self.success,
            stdout: self.stdout@,
            stderr: self.stderr@,
        }
    }
}

impl Duplicate for CommandOutput {
    fn duplicate(&self) -> (r: Self) {
        CommandOutput {
            success: self.success,
            stdout: self.stdout.clone(),
            stderr: self.stderr.clone(),
        }
    }
}

} // verus!
