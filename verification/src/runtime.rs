//! What is known of the processes while the orchestrator runs, and what is done about it.
//!
//! [`Runtime`] holds the state. An operation changes it and queues, in order, the [`Effect`]s
//! that are to be carried out outside: events to send, entries to store, processes to signal.
use std::collections::VecDeque;
use vstd::prelude::*;

use crate::clock::Timestamp;
use crate::lookup::push_item;
use crate::models::{
    Config, ConfigView, Duplicate, FrontendErrorRecord, FrontendErrorRecordView, HealthStatus,
    LogEntry, LogEntryView, Machine, MachineView, MetricSample, ProcessRuntimeState,
    ProcessRuntimeStateView, RuntimeProcessRecord, RuntimeProcessRecordView,
};
use crate::text::{concat, concat3};
use crate::text_map::TextMap;
use crate::text_set::TextSet;

verus! {

// ---------------------------------------------------------------------------
// Effects
// ---------------------------------------------------------------------------

/// What happened to a process.
#[derive(Clone, Copy, PartialEq, Eq, Structural, Debug)]
pub enum RuntimeEvent {
    Started,
    Stopped,
    Failed,
    HealthChanged,
    MetricsChanged,
}

impl DeepView for RuntimeEvent {
    type V = RuntimeEvent;

    open spec fn deep_view(&self) -> RuntimeEvent {
        *self
    }
}

/// The name that an event is sent under.
pub open spec fn event_name(event: RuntimeEvent) -> Seq<char> {
    match event {
        RuntimeEvent::Started => "process_started"@,
        RuntimeEvent::Stopped => "process_stopped"@,
        RuntimeEvent::Failed => "process_failed"@,
        RuntimeEvent::HealthChanged => "process_health_changed"@,
        RuntimeEvent::MetricsChanged => "process_metrics_changed"@,
    }
}

impl RuntimeEvent {
    /// The name that the event is sent under.
    pub fn name(&self) -> (r: &'static str)
        ensures
            r@ == event_name(*self),
    {
        match self {
            RuntimeEvent::Started => "process_started",
            RuntimeEvent::Stopped => "process_stopped",
            RuntimeEvent::Failed => "process_failed",
            RuntimeEvent::HealthChanged => "process_health_changed",
            RuntimeEvent::MetricsChanged => "process_metrics_changed",
        }
    }
}

/// Something to be carried out outside.
pub enum Effect {
    /// Send a process's state under the name of an event.
    Emit { event: RuntimeEvent, runtime: ProcessRuntimeState },
    /// Show a notification.
    Notify { title: String, body: String },
    /// Store an entry in the log history, then send it.
    Log { entry: LogEntry },
    /// Store entries in the log history, then send them together.
    LogBatch { entries: Vec<LogEntry> },
    /// Store the records of the tracked processes.
    StoreRecords { records: TextMap<RuntimeProcessRecord> },
    /// Watch the memory of a process from now on.
    WatchMemory { project_id: String, process_id: String, pid: u32 },
    /// Kill a process group.
    ForceKill { process_group_id: u32 },
    /// Kill a process on another machine.
    KillRemote { machine: Machine, pid: u32 },
    /// Start a process again after a wait, unless it has recovered by then.
    RestartLater { process_id: String, delay_ms: u64 },
}

/// The model of [`Effect`].
pub enum EffectView {
    Emit { event: RuntimeEvent, runtime: ProcessRuntimeStateView },
    Notify { title: Seq<char>, body: Seq<char> },
    Log { entry: LogEntryView },
    LogBatch { entries: Seq<LogEntryView> },
    StoreRecords { records: Map<Seq<char>, RuntimeProcessRecordView> },
    WatchMemory { project_id: Seq<char>, process_id: Seq<char>, pid: u32 },
    ForceKill { process_group_id: u32 },
    KillRemote { machine: MachineView, pid: u32 },
    RestartLater { process_id: Seq<char>, delay_ms: u64 },
}

impl DeepView for Effect {
    type V = EffectView;

    open spec fn deep_view(&self) -> EffectView {
        match self {
            Effect::Emit { event, runtime } => EffectView::Emit {
                event: *event,
                runtime: runtime.deep_view(),
            },
            Effect::Notify { title, body } => EffectView::Notify { title: title@, body: body@ },
            Effect::Log { entry } => EffectView::Log { entry: entry.deep_view() },
            Effect::LogBatch { entries } => EffectView::LogBatch { entries: entries.deep_view() },
            Effect::StoreRecords { records } => EffectView::StoreRecords {
                records: records.deep_view(),
            },
            Effect::WatchMemory { project_id, process_id, pid } => EffectView::WatchMemory {
                project_id: project_id@,
                process_id: process_id@,
                pid: *pid,
            },
            Effect::ForceKill { process_group_id } => EffectView::ForceKill {
                process_group_id: *process_group_id,
            },
            Effect::KillRemote { machine, pid } => EffectView::KillRemote {
                machine: machine.deep_view(),
                pid: *pid,
            },
            Effect::RestartLater { process_id, delay_ms } => EffectView::RestartLater {
                process_id: process_id@,
                delay_ms: *delay_ms,
            },
        }
    }
}

/// What makes a log entry unique: its id and its time.
#[derive(Debug, PartialEq)]
pub struct Stamp {
    pub id: String,
    pub at: Timestamp,
}

/// The model of [`Stamp`].
pub struct StampView {
    pub id: Seq<char>,
    pub at: Timestamp,
}

impl DeepView for Stamp {
    type V = StampView;

    open spec fn deep_view(&self) -> StampView {
        StampView { id: self.id@, at: self.at }
    }
}

// ---------------------------------------------------------------------------
// The state
// ---------------------------------------------------------------------------

/// What is known of the processes while the orchestrator runs.
pub struct Runtime {
    /// The state of each process.
    pub states: TextMap<ProcessRuntimeState>,
    /// The process group of each tracked process.
    pub pids: TextMap<u32>,
    /// The process on the other machine behind each remote process.
    pub remote_pids: TextMap<u32>,
    /// The tracked processes.
    pub process_records: TextMap<RuntimeProcessRecord>,
    /// The process groups that were asked to stop.
    pub stopping_processes: TextSet,
    /// The latest log entries, oldest first.
    pub logs: VecDeque<LogEntry>,
    /// The output of each process that has not been sent yet.
    pub log_batches: TextMap<Vec<LogEntry>>,
    /// The latest errors of the frontend, oldest first.
    pub frontend_errors: VecDeque<FrontendErrorRecord>,
    /// The latest measurements of each process, oldest first.
    pub metrics_history: TextMap<VecDeque<MetricSample>>,
    /// What is to be carried out outside, first things first.
    pub effects: Vec<Effect>,
}

/// The model of [`Runtime`].
#[verifier::ext_equal]
pub struct RuntimeView {
    pub states: Map<Seq<char>, ProcessRuntimeStateView>,
    pub pids: Map<Seq<char>, u32>,
    pub remote_pids: Map<Seq<char>, u32>,
    pub process_records: Map<Seq<char>, RuntimeProcessRecordView>,
    pub stopping_processes: Set<Seq<char>>,
    pub logs: Seq<LogEntryView>,
    pub log_batches: Map<Seq<char>, Seq<LogEntryView>>,
    pub frontend_errors: Seq<FrontendErrorRecordView>,
    pub metrics_history: Map<Seq<char>, Seq<MetricSample>>,
    pub effects: Seq<EffectView>,
}

impl DeepView for Runtime {
    type V = RuntimeView;

    open spec fn deep_view(&self) -> RuntimeView {
        RuntimeView {
            states: self.states.deep_view(),
            pids: self.pids.deep_view(),
            remote_pids: self.remote_pids.deep_view(),
            process_records: self.process_records.deep_view(),
            stopping_processes: self.stopping_processes.deep_view(),
            logs: self.logs.deep_view(),
            log_batches: self.log_batches.deep_view(),
            frontend_errors: self.frontend_errors.deep_view(),
            metrics_history: self.metrics_history.deep_view(),
            effects: self.effects.deep_view(),
        }
    }
}

impl RuntimeView {
    /// Nothing is known and nothing is to be done.
    pub open spec fn empty() -> RuntimeView {
        RuntimeView {
            states: Map::empty(),
            pids: Map::empty(),
            remote_pids: Map::empty(),
            process_records: Map::empty(),
            stopping_processes: Set::empty(),
            logs: Seq::empty(),
            log_batches: Map::empty(),
            frontend_errors: Seq::empty(),
            metrics_history: Map::empty(),
            effects: Seq::empty(),
        }
    }

    /// The state of a process; one of which nothing is known is stopped.
    pub open spec fn state_of(self, process_id: Seq<char>) -> ProcessRuntimeStateView {
        if self.states.contains_key(process_id) {
            self.states[process_id]
        } else {
            ProcessRuntimeStateView::stopped(process_id)
        }
    }

    /// One more thing is to be done.
    pub open spec fn with_effect(self, effect: EffectView) -> RuntimeView {
        RuntimeView { effects: self.effects.push(effect), ..self }
    }

    /// A process has a new state, which is sent as an event and may call for a notification.
    pub open spec fn with_state(
        self,
        config: ConfigView,
        runtime: ProcessRuntimeStateView,
        event: RuntimeEvent,
    ) -> RuntimeView {
        let told = RuntimeView {
            states: self.states.insert(runtime.process_id, runtime),
            ..self
        }.with_effect(EffectView::Emit { event, runtime });
        match notification(config, event, runtime) {
            Some((title, body)) => told.with_effect(EffectView::Notify { title, body }),
            None => told,
        }
    }

    /// The records of the tracked processes are to be stored.
    pub open spec fn with_records_stored(self) -> RuntimeView {
        self.with_effect(EffectView::StoreRecords { records: self.process_records })
    }
}

impl Runtime {
    /// Nothing is known and nothing is to be done.
    pub fn new() -> (r: Self)
        ensures
            r.deep_view() == RuntimeView::empty(),
    {
        let r = Runtime {
            states: TextMap::new(),
            pids: TextMap::new(),
            remote_pids: TextMap::new(),
            process_records: TextMap::new(),
            stopping_processes: TextSet::new(),
            logs: VecDeque::new(),
            log_batches: TextMap::new(),
            frontend_errors: VecDeque::new(),
            metrics_history: TextMap::new(),
            effects: Vec::new(),
        };
        assert(r.deep_view() =~= RuntimeView::empty());
        r
    }

    /// Hands out what is to be done.
    pub fn take_effects(&mut self) -> (r: Vec<Effect>)
        ensures
            r.deep_view() == old(self).deep_view().effects,
            final(self).deep_view() == (RuntimeView {
                effects: Seq::empty(),
                ..old(self).deep_view()
            }),
    {
        let mut effects: Vec<Effect> = Vec::new();
        assert(effects.deep_view() =~= Seq::<EffectView>::empty());
        std::mem::swap(&mut effects, &mut self.effects);
        effects
    }

    /// The state of a process; one of which nothing is known is stopped.
    pub fn state_of(&self, process_id: &str) -> (r: ProcessRuntimeState)
        ensures
            r.deep_view() == self.deep_view().state_of(process_id@),
    {
        match self.states.get(process_id) {
            Some(runtime) => runtime.duplicate(),
            None => ProcessRuntimeState::stopped(process_id.to_string()),
        }
    }

    /// One more thing is to be done.
    pub fn queue(&mut self, effect: Effect)
        ensures
            final(self).deep_view() == old(self).deep_view().with_effect(effect.deep_view()),
    {
        push_item(&mut self.effects, effect);
    }

    /// Gives a process a new state and tells of it.
    pub fn set_runtime(
        &mut self,
        config: &Config,
        runtime: &ProcessRuntimeState,
        event: RuntimeEvent,
    )
        ensures
            final(self).deep_view() == old(self).deep_view().with_state(
                config.deep_view(),
                runtime.deep_view(),
                event,
            ),
    {
        self.states.insert(runtime.process_id.clone(), runtime.duplicate());
        self.queue(Effect::Emit { event, runtime: runtime.duplicate() });
        if let Some((title, body)) = maybe_notify_runtime_event(config, event, runtime) {
            self.queue(Effect::Notify { title, body });
        }
    }

    /// Has the records of the tracked processes stored.
    pub fn persist_runtime_processes(&mut self)
        ensures
            final(self).deep_view() == old(self).deep_view().with_records_stored(),
    {
        let records = self.process_records.duplicate();
        self.queue(Effect::StoreRecords { records });
    }
}

// ---------------------------------------------------------------------------
// Notifications
// ---------------------------------------------------------------------------

/// An event that is worth a notification.
pub open spec fn notable(event: RuntimeEvent, runtime: ProcessRuntimeStateView) -> bool {
    match event {
        RuntimeEvent::Failed => true,
        RuntimeEvent::HealthChanged => runtime.health_status == Some(HealthStatus::Unhealthy)
            || runtime.health_status == Some(HealthStatus::Degraded),
        _ => false,
    }
}

/// The title and the text of the notification that an event calls for.
pub open spec fn notification(
    config: ConfigView,
    event: RuntimeEvent,
    runtime: ProcessRuntimeStateView,
) -> Option<(Seq<char>, Seq<char>)> {
    match config.process(runtime.process_id) {
        Some(process) if config.settings.notifications_enabled && notable(event, runtime) => {
            let project_name = match config.project(process.project_id) {
                Some(project) => project.name,
                None => "Project"@,
            };
            let title = process.name + if event is Failed {
                " failed"@
            } else {
                " health degraded"@
            };
            let body = match runtime.last_error {
                Some(error) => project_name + ": "@ + error,
                None => project_name + ": status changed"@,
            };
            Some((title, body))
        },
        _ => None,
    }
}

/// The title and the text of the notification that an event calls for.
pub fn maybe_notify_runtime_event(
    config: &Config,
    event: RuntimeEvent,
    runtime: &ProcessRuntimeState,
) -> (r: Option<(String, String)>)
    ensures
        r.deep_view() == notification(config.deep_view(), event, runtime.deep_view()),
{
    let failed = matches!(event, RuntimeEvent::Failed);
    let degraded = matches!(event, RuntimeEvent::HealthChanged) && matches!(
        runtime.health_status,
        Some(HealthStatus::Unhealthy | HealthStatus::Degraded)
    );
    if !config.settings.notifications_enabled || !(failed || degraded) {
        return None;
    }
    let process = match config.find_process(runtime.process_id.as_str()) {
        Some(process) => process,
        None => {
            return None;
        },
    };
    let project_name = match config.find_project(process.project_id.as_str()) {
        Some(project) => project.name.clone(),
        None => "Project".to_string(),
    };
    let title = concat(
        process.name.as_str(),
        if failed {
            " failed"
        } else {
            " health degraded"
        },
    );
    let body = match &runtime.last_error {
        Some(error) => concat3(project_name.as_str(), ": ", error.as_str()),
        None => concat(project_name.as_str(), ": status changed"),
    };
    Some((title, body))
}

// ---------------------------------------------------------------------------
// Laws
// ---------------------------------------------------------------------------

/// The state that a process was given is the state that is read back, and no other process is
/// touched.
pub proof fn law_state_read_back(
    rt: RuntimeView,
    config: ConfigView,
    runtime: ProcessRuntimeStateView,
    event: RuntimeEvent,
    other: Seq<char>,
)
    ensures
        rt.with_state(config, runtime, event).state_of(runtime.process_id) == runtime,
        other != runtime.process_id ==> rt.with_state(config, runtime, event).state_of(other)
            == rt.state_of(other),
{
}

/// A notification is shown only where they are switched on, and only of failures and of health
/// that got worse.
pub proof fn law_notifications_can_be_switched_off(
    config: ConfigView,
    event: RuntimeEvent,
    runtime: ProcessRuntimeStateView,
)
    ensures
        notification(config, event, runtime) is Some ==> config.settings.notifications_enabled && (
        event is Failed || event is HealthChanged),
{
}

} // verus!
