//! Finding tracked processes again after a restart of the orchestrator, and leaving them at its
//! end.
use vstd::prelude::*;

use crate::clock::Timestamp;
use crate::lookup::{contains_number, push_item};
use crate::models::{
    Config, ConfigView, Duplicate, HealthStatus, LogLevel, ProcessDefinition,
    ProcessDefinitionView, ProcessRuntimeState, ProcessRuntimeStateView, ProcessStatus,
    RuntimeProcessRecord, RuntimeProcessRecordView,
};
use crate::order::{by_id, find_by_id, lemma_last_found};
use crate::platform::{live_stat_on, stat_is_live, Platform};
use crate::ports::{detect_process_ports, expected_ports};
use crate::runtime::{Effect, EffectView, Runtime, RuntimeEvent, RuntimeView, Stamp, StampView};
use crate::text::{around_number, decimal, trim, trimmed, with_number};
use crate::text_map::{lists, TextMap};
use crate::tracking::{group_of, normalized_process_group_id, tracked_groups};

verus! {

// ---------------------------------------------------------------------------
// Live processes
// ---------------------------------------------------------------------------

/// The model of what the system says of a process: its group and its state.
pub open spec fn info_view(info: Option<(u32, String)>) -> Option<(u32, Seq<char>)> {
    match info {
        Some((group, stat)) => Some((group, stat@)),
        None => None,
    }
}

/// A process lives and is in the group, by what the system says of it.
pub open spec fn lives_in_group(
    platform: Platform,
    info: Option<(u32, Seq<char>)>,
    process_group_id: u32,
) -> bool {
    info matches Some(found) && found.0 == process_group_id && live_stat_on(platform, found.1)
}

/// Whether a process lives and is in the group, by what the system says of it.
pub fn process_is_live_in_group(
    platform: Platform,
    info: &Option<(u32, String)>,
    process_group_id: u32,
) -> (r: bool)
    ensures
        r == lives_in_group(platform, info_view(*info), process_group_id),
{
    match info {
        Some((group, stat)) => *group == process_group_id && stat_is_live(platform, stat.as_str()),
        None => false,
    }
}

/// The live process that a record stands for: the recorded one, or else a live one of its group.
pub open spec fn live_pid(
    platform: Platform,
    record: RuntimeProcessRecordView,
    info: Option<(u32, Seq<char>)>,
    live_in_group: Option<u32>,
) -> Option<u32> {
    if lives_in_group(platform, info, group_of(record)) {
        Some(record.pid)
    } else {
        live_in_group
    }
}

/// The live process that a record stands for; `info` is what the system says of the recorded
/// process, and `live_in_group` is a live process of its group.
pub fn live_pid_for_record(
    platform: Platform,
    record: &RuntimeProcessRecord,
    info: &Option<(u32, String)>,
    live_in_group: Option<u32>,
) -> (r: Option<u32>)
    ensures
        r == live_pid(platform, record.deep_view(), info_view(*info), live_in_group),
{
    let process_group_id = normalized_process_group_id(record);
    if process_is_live_in_group(platform, info, process_group_id) {
        Some(record.pid)
    } else {
        live_in_group
    }
}

// ---------------------------------------------------------------------------
// Recovery
// ---------------------------------------------------------------------------

/// A record of a process that may still run.
pub struct Candidate {
    pub process: ProcessDefinition,
    pub record: RuntimeProcessRecord,
}

/// The model of [`Candidate`].
#[verifier::ext_equal]
pub struct CandidateView {
    pub process: ProcessDefinitionView,
    pub record: RuntimeProcessRecordView,
}

impl DeepView for Candidate {
    type V = CandidateView;

    open spec fn deep_view(&self) -> CandidateView {
        CandidateView {
            process: self.process.deep_view(),
            record: self.record.deep_view(),
        }
    }
}

impl Duplicate for Candidate {
    fn duplicate(&self) -> (r: Self) {
        Candidate {
            process: self.process.duplicate(),
            record: self.record.duplicate(),
        }
    }
}

/// The records of a listing that may be recovered: of processes that are configured and that
/// launchd does not supervise.
pub open spec fn candidates(
    config: ConfigView,
    list: Seq<(Seq<char>, RuntimeProcessRecordView)>,
) -> Seq<CandidateView>
    decreases list.len(),
{
    if list.len() == 0 {
        Seq::empty()
    } else {
        let before = candidates(config, list.drop_last());
        match by_id(config.processes, list.last().0) {
            Some(process) if process.launchd is None => before.push(
                CandidateView { process, record: list.last().1 },
            ),
            _ => before,
        }
    }
}

/// Only processes that are configured and that launchd does not supervise are recovered.
pub proof fn law_supervised_processes_are_not_recovered(
    config: ConfigView,
    list: Seq<(Seq<char>, RuntimeProcessRecordView)>,
)
    ensures
        forall|i: int|
            #![trigger candidates(config, list)[i]]
            0 <= i < candidates(config, list).len() ==> candidates(
                config,
                list,
            )[i].process.launchd is None && config.processes.contains(
                candidates(config, list)[i].process,
            ),
    decreases list.len(),
{
    if list.len() > 0 {
        let front = list.drop_last();
        law_supervised_processes_are_not_recovered(config, front);
        let before = candidates(config, front);
        let after = candidates(config, list);
        let id = list.last().0;
        lemma_last_found(
            config.processes,
            |process: ProcessDefinitionView| process.id == id,
        );
        assert forall|i: int|
            #![trigger after[i]]
            0 <= i < after.len() implies after[i].process.launchd is None
            && config.processes.contains(after[i].process) by {
            if i < before.len() {
                assert(after[i] == before[i]);
            }
        }
    }
}

/// The record of a process that was recovered.
pub open spec fn recovered_record(
    process: ProcessDefinitionView,
    record: RuntimeProcessRecordView,
    live_pid: u32,
) -> RuntimeProcessRecordView {
    RuntimeProcessRecordView {
        process_id: process.id,
        project_id: process.project_id,
        pid: live_pid,
        process_group_id: group_of(record),
        command: if trimmed(record.command).len() == 0 {
            process.command
        } else {
            record.command
        },
        ..record
    }
}

/// The state of a process that was found running.
pub open spec fn found_state(
    runtime: ProcessRuntimeStateView,
    process: ProcessDefinitionView,
    pid: u32,
    started_at: Timestamp,
) -> ProcessRuntimeStateView {
    ProcessRuntimeStateView {
        pid: Some(pid),
        started_at: Some(started_at),
        stopped_at: None,
        exit_code: None,
        last_error: None,
        memory_usage: None,
        health_status: Some(HealthStatus::Unknown),
        port_bindings: expected_ports(process),
        current_status: ProcessStatus::Running,
        ..runtime
    }
}

impl RuntimeView {
    /// A process was found running: it is tracked, it runs, and its memory is watched.
    pub open spec fn with_found(
        self,
        config: ConfigView,
        process: ProcessDefinitionView,
        record: RuntimeProcessRecordView,
        message: Seq<char>,
        stamp: StampView,
    ) -> RuntimeView {
        let runtime = found_state(
            self.state_of(process.id),
            process,
            record.pid,
            record.started_at,
        );
        self.with_tracked(record).with_state(config, runtime, RuntimeEvent::Started).with_note(
            config,
            process,
            LogLevel::Info,
            message,
            stamp,
        ).with_effect(
            EffectView::WatchMemory {
                project_id: process.project_id,
                process_id: process.id,
                pid: record.pid,
            },
        )
    }

    /// A record was looked into: its process runs on, or has stopped.
    pub open spec fn with_candidate(
        self,
        config: ConfigView,
        candidate: CandidateView,
        live_pid: Option<u32>,
        now: Timestamp,
        stamp: StampView,
    ) -> RuntimeView {
        let process = candidate.process;
        let group = group_of(candidate.record);
        match live_pid {
            Some(pid) => self.with_found(
                config,
                process,
                recovered_record(process, candidate.record, pid),
                "Recovered running process group "@ + decimal(group as nat),
                stamp,
            ),
            None => self.with_state(
                config,
                ProcessRuntimeStateView {
                    stopped_at: Some(now),
                    ..ProcessRuntimeStateView::stopped(process.id)
                },
                RuntimeEvent::Stopped,
            ).with_note(
                config,
                process,
                LogLevel::Info,
                "Previous process group "@ + decimal(group as nat) + " is no longer running"@,
                stamp,
            ),
        }
    }

    pub open spec fn with_candidates(
        self,
        config: ConfigView,
        list: Seq<CandidateView>,
        live_pids: Seq<Option<u32>>,
        now: Timestamp,
        stamps: Seq<StampView>,
    ) -> RuntimeView
        decreases list.len(),
    {
        if list.len() == 0 {
            self
        } else {
            let i = list.len() - 1;
            self.with_candidates(config, list.drop_last(), live_pids, now, stamps).with_candidate(
                config,
                list.last(),
                live_pids[i],
                now,
                stamps[i],
            )
        }
    }

    /// The records were looked into: those of processes that run on stay, the others go. Where
    /// there were none, nothing changes.
    pub open spec fn with_recovery(
        self,
        config: ConfigView,
        list: Seq<CandidateView>,
        live_pids: Seq<Option<u32>>,
        now: Timestamp,
        stamps: Seq<StampView>,
    ) -> RuntimeView {
        if self.process_records == Map::<Seq<char>, RuntimeProcessRecordView>::empty() {
            self
        } else {
            self.with_candidates(config, list, live_pids, now, stamps).with_records(
                recovered_records(list, live_pids),
            ).with_records_stored()
        }
    }
}

/// The records of the processes that run on.
pub open spec fn recovered_records(list: Seq<CandidateView>, live_pids: Seq<Option<u32>>) -> Map<
    Seq<char>,
    RuntimeProcessRecordView,
>
    decreases list.len(),
{
    if list.len() == 0 {
        Map::empty()
    } else {
        let before = recovered_records(list.drop_last(), live_pids);
        match live_pids[list.len() - 1] {
            Some(pid) => before.insert(
                list.last().process.id,
                recovered_record(list.last().process, list.last().record, pid),
            ),
            None => before,
        }
    }
}

impl Runtime {
    /// The records that may be recovered.
    pub fn recovery_candidates(&self, config: &Config) -> (r: Vec<Candidate>)
        ensures
            lists(self.process_records.listing(), self.deep_view().process_records),
            r.deep_view() == candidates(config.deep_view(), self.process_records.listing()),
    {
        let n = self.process_records.len();
        let ghost list = self.process_records.listing();
        let ghost conf = config.deep_view();
        let mut r: Vec<Candidate> = Vec::new();
        let mut i: usize = 0;
        assert(r.deep_view() =~= candidates(conf, list.take(0)));
        while i < n
            invariant
                i <= n,
                n == list.len(),
                list == self.process_records.listing(),
                conf == config.deep_view(),
                r.deep_view() == candidates(conf, list.take(i as int)),
            decreases n - i,
        {
            assert(list.take(i + 1).drop_last() =~= list.take(i as int));
            let process_id = self.process_records.key_at(i);
            if let Some(process) = find_by_id(&config.processes, process_id.as_str()) {
                if process.launchd.is_none() {
                    let candidate = Candidate {
                        process: process.duplicate(),
                        record: self.process_records.value_at(i).duplicate(),
                    };
                    push_item(&mut r, candidate);
                }
            }
            i += 1;
        }
        assert(list.take(i as int) =~= list);
        r
    }

    /// Takes in that a process was found running.
    pub fn process_found(
        &mut self,
        config: &Config,
        process: &ProcessDefinition,
        record: &RuntimeProcessRecord,
        message: String,
        stamp: Stamp,
    )
        ensures
            final(self).deep_view() == old(self).deep_view().with_found(
                config.deep_view(),
                process.deep_view(),
                record.deep_view(),
                message@,
                stamp.deep_view(),
            ),
    {
        let mut runtime = self.state_of(process.id.as_str());
        let ghost before = runtime.deep_view();
        self.track_runtime_process(record.duplicate());
        runtime.pid = Some(record.pid);
        runtime.started_at = Some(record.started_at);
        runtime.stopped_at = None;
        runtime.exit_code = None;
        runtime.last_error = None;
        runtime.memory_usage = None;
        runtime.health_status = Some(HealthStatus::Unknown);
        runtime.port_bindings = detect_process_ports(process);
        runtime.current_status = ProcessStatus::Running;
        assert(runtime.deep_view() =~= found_state(
            before,
            process.deep_view(),
            record.pid,
            record.started_at,
        ));
        self.set_runtime(config, &runtime, RuntimeEvent::Started);
        self.note(config, process, LogLevel::Info, message, stamp);
        self.queue(
            Effect::WatchMemory {
                project_id: process.project_id.clone(),
                process_id: process.id.clone(),
                pid: record.pid,
            },
        );
    }

    fn candidate_checked(
        &mut self,
        config: &Config,
        candidate: &Candidate,
        live_pid: Option<u32>,
        now: Timestamp,
        stamp: Stamp,
    )
        ensures
            final(self).deep_view() == old(self).deep_view().with_candidate(
                config.deep_view(),
                candidate.deep_view(),
                live_pid,
                now,
                stamp.deep_view(),
            ),
    {
        let process = &candidate.process;
        let group = normalized_process_group_id(&candidate.record);
        match live_pid {
            Some(pid) => {
                let record = next_record(process, &candidate.record, pid);
                let message = with_number("Recovered running process group ", group as u64);
                self.process_found(config, process, &record, message, stamp);
            },
            None => {
                let mut runtime = ProcessRuntimeState::stopped(process.id.clone());
                runtime.stopped_at = Some(now);
                assert(runtime.deep_view() =~= (ProcessRuntimeStateView {
                    stopped_at: Some(now),
                    ..ProcessRuntimeStateView::stopped(process.id@)
                }));
                self.set_runtime(config, &runtime, RuntimeEvent::Stopped);
                let message = around_number(
                    "Previous process group ",
                    group as u64,
                    " is no longer running",
                );
                self.note(config, process, LogLevel::Info, message, stamp);
            },
        }
    }

    /// Takes in what became of the recorded processes: for each of the
    /// [`Runtime::recovery_candidates`] the live process that it stands for, if there is one,
    /// and a stamp.
    pub fn recover_tracked_processes(
        &mut self,
        config: &Config,
        list: &Vec<Candidate>,
        live_pids: &Vec<Option<u32>>,
        now: Timestamp,
        stamps: &Vec<Stamp>,
    )
        requires
            live_pids@.len() == list@.len(),
            stamps@.len() == list@.len(),
        ensures
            final(self).deep_view() == old(self).deep_view().with_recovery(
                config.deep_view(),
                list.deep_view(),
                live_pids@,
                now,
                stamps.deep_view(),
            ),
    {
        let ghost rt = self.deep_view();
        let ghost map = rt.process_records;
        if self.process_records.len() == 0 {
            assert(map =~= Map::<Seq<char>, RuntimeProcessRecordView>::empty());
            return;
        }
        assert(map != Map::<Seq<char>, RuntimeProcessRecordView>::empty()) by {
            assert(map.contains_key(self.process_records.listing()[0].0));
        }
        let ghost conf = config.deep_view();
        let ghost all = list.deep_view();
        let ghost stamp_views = stamps.deep_view();
        let mut records: TextMap<RuntimeProcessRecord> = TextMap::new();
        let mut i: usize = 0;
        while i < list.len()
            invariant
                i <= list@.len(),
                live_pids@.len() == list@.len(),
                stamps@.len() == list@.len(),
                conf == config.deep_view(),
                all == list.deep_view(),
                stamp_views == stamps.deep_view(),
                self.deep_view() == rt.with_candidates(
                    conf,
                    all.take(i as int),
                    live_pids@,
                    now,
                    stamp_views,
                ),
                records.deep_view() == recovered_records(all.take(i as int), live_pids@),
            decreases list@.len() - i,
        {
            assert(all.take(i + 1).drop_last() =~= all.take(i as int));
            let candidate = &list[i];
            let live_pid = live_pids[i];
            let stamp = Stamp { id: stamps[i].id.clone(), at: stamps[i].at };
            assert(stamp.deep_view() == stamp_views[i as int]);
            self.candidate_checked(config, candidate, live_pid, now, stamp);
            if let Some(pid) = live_pid {
                let record = next_record(&candidate.process, &candidate.record, pid);
                records.insert(candidate.process.id.clone(), record);
            }
            i += 1;
        }
        assert(all.take(i as int) =~= all);
        self.replace_runtime_process_records(records);
        self.persist_runtime_processes();
    }
}

fn next_record(
    process: &ProcessDefinition,
    record: &RuntimeProcessRecord,
    live_pid: u32,
) -> (r: RuntimeProcessRecord)
    ensures
        r.deep_view() == recovered_record(process.deep_view(), record.deep_view(), live_pid),
{
    let kept = trim(record.command.as_str());
    let r = RuntimeProcessRecord {
        process_id: process.id.clone(),
        project_id: process.project_id.clone(),
        pid: live_pid,
        process_group_id: normalized_process_group_id(record),
        started_at: record.started_at,
        command: if kept.as_str().is_empty() {
            process.command.clone()
        } else {
            record.command.clone()
        },
    };
    assert(r.deep_view() =~= recovered_record(process.deep_view(), record.deep_view(), live_pid));
    r
}

// ---------------------------------------------------------------------------
// The end
// ---------------------------------------------------------------------------

/// A record of a process that lives on at the orchestrator's end.
pub open spec fn surviving_record(
    record: RuntimeProcessRecordView,
    live_pid: u32,
) -> RuntimeProcessRecordView {
    RuntimeProcessRecordView { pid: live_pid, process_group_id: group_of(record), ..record }
}

/// The records of the processes that live on.
pub open spec fn surviving_records(
    list: Seq<(Seq<char>, RuntimeProcessRecordView)>,
    live_pids: Seq<Option<u32>>,
) -> Map<Seq<char>, RuntimeProcessRecordView>
    decreases list.len(),
{
    if list.len() == 0 {
        Map::empty()
    } else {
        let before = surviving_records(list.drop_last(), live_pids);
        match live_pids[list.len() - 1] {
            Some(pid) => before.insert(list.last().0, surviving_record(list.last().1, pid)),
            None => before,
        }
    }
}

/// The state of a process at the orchestrator's end.
pub open spec fn left_state(
    runtime: ProcessRuntimeStateView,
    records: Map<Seq<char>, RuntimeProcessRecordView>,
    survivors: Map<Seq<char>, RuntimeProcessRecordView>,
    now: Timestamp,
) -> ProcessRuntimeStateView {
    if survivors.contains_key(runtime.process_id) {
        ProcessRuntimeStateView {
            pid: Some(survivors[runtime.process_id].pid),
            current_status: ProcessStatus::Running,
            stopped_at: None,
            ..runtime
        }
    } else if records.contains_key(runtime.process_id) {
        ProcessRuntimeStateView {
            pid: None,
            current_status: ProcessStatus::Stopped,
            stopped_at: Some(now),
            memory_usage: None,
            ..runtime
        }
    } else {
        runtime
    }
}

impl RuntimeView {
    /// The processes that were tracked by `records` were ended: those that live on stay tracked,
    /// and every state says what became of its process. Where none were tracked, nothing
    /// changes.
    pub open spec fn with_shutdown(
        self,
        records: Map<Seq<char>, RuntimeProcessRecordView>,
        survivors: Map<Seq<char>, RuntimeProcessRecordView>,
        now: Timestamp,
    ) -> RuntimeView {
        if records == Map::<Seq<char>, RuntimeProcessRecordView>::empty() {
            self
        } else {
            let stored = self.with_records(survivors).with_records_stored();
            RuntimeView {
                states: self.states.map_values(
                    |runtime: ProcessRuntimeStateView|
                        left_state(runtime, records, survivors, now),
                ),
                ..stored
            }
        }
    }
}

/// The process groups of records, in their order.
pub fn shutdown_groups(records: &TextMap<RuntimeProcessRecord>) -> (r: Vec<u32>)
    ensures
        lists(records.listing(), records.deep_view()),
        r@ == records.listing().map_values(
            |entry: (Seq<char>, RuntimeProcessRecordView)| group_of(entry.1),
        ),
{
    let n = records.len();
    let ghost list = records.listing();
    let mut r: Vec<u32> = Vec::new();
    let mut i: usize = 0;
    while i < n
        invariant
            i <= n,
            n == list.len(),
            list == records.listing(),
            r@ =~= list.take(i as int).map_values(
                |entry: (Seq<char>, RuntimeProcessRecordView)| group_of(entry.1),
            ),
        decreases n - i,
    {
        r.push(normalized_process_group_id(records.value_at(i)));
        i += 1;
    }
    assert(list.take(i as int) =~= list);
    r
}

/// The process groups of records, each once.
pub fn groups_to_signal(records: &TextMap<RuntimeProcessRecord>) -> (r: Vec<u32>)
    ensures
        r@.no_duplicates(),
        r@.to_set() == tracked_groups(records.deep_view()),
{
    let groups = shutdown_groups(records);
    let ghost list = records.listing();
    let ghost map = records.deep_view();
    let ghost all = groups@;
    let mut r: Vec<u32> = Vec::new();
    let mut i: usize = 0;
    while i < groups.len()
        invariant
            i <= groups@.len(),
            all == groups@,
            r@.no_duplicates(),
            forall|k: int| 0 <= k < i ==> r@.contains(#[trigger] all[k]),
            forall|k: int| 0 <= k < r@.len() ==> all.contains(#[trigger] r@[k]),
        decreases groups@.len() - i,
    {
        let group: u32 = groups[i];
        if !contains_number(&r, group) {
            let ghost before = r@;
            r.push(group);
            proof {
                assert(r@[before.len() as int] == group);
                assert(all[i as int] == group);
                assert forall|k: int| 0 <= k < i + 1 implies r@.contains(#[trigger] all[k]) by {
                    if k < i {
                        let j = choose|j: int| 0 <= j < before.len() && before[j] == all[k];
                        assert(r@[j] == all[k]);
                    }
                }
                assert forall|k: int| 0 <= k < r@.len() implies all.contains(#[trigger] r@[k]) by {
                    if k < before.len() {
                        assert(r@[k] == before[k]);
                    }
                }
            }
        }
        i += 1;
    }
    proof {
        let wanted = tracked_groups(map);
        assert forall|group: u32| r@.to_set().contains(group) <==> wanted.contains(group) by {
            if r@.contains(group) {
                let k = choose|k: int| 0 <= k < r@.len() && r@[k] == group;
                assert(all.contains(r@[k]));
                let j = choose|j: int| 0 <= j < all.len() && all[j] == group;
                assert(map.contains_key(list[j].0));
            }
            if wanted.contains(group) {
                let id = choose|id: Seq<char>| #[trigger]
                    map.contains_key(id) && group_of(map[id]) == group;
                let k = choose|k: int| 0 <= k < list.len() && (#[trigger] list[k]).0 == id;
                assert(all[k] == group);
                assert(r@.contains(all[k]));
            }
        }
        assert(r@.to_set() =~= wanted);
    }
    r
}

impl Runtime {
    /// Takes in what became of the tracked processes at the orchestrator's end: for each of the
    /// [`shutdown_groups`] of their records a live process of the group, if there is one.
    pub fn shutdown_tracked_processes(
        &mut self,
        records: &TextMap<RuntimeProcessRecord>,
        live_pids: &Vec<Option<u32>>,
        now: Timestamp,
    )
        requires
            live_pids@.len() == records.listing().len(),
        ensures
            lists(records.listing(), records.deep_view()),
            final(self).deep_view() == old(self).deep_view().with_shutdown(
                records.deep_view(),
                surviving_records(records.listing(), live_pids@),
                now,
            ),
    {
        let n = records.len();
        let ghost list = records.listing();
        let ghost map = records.deep_view();
        if n == 0 {
            assert(map =~= Map::<Seq<char>, RuntimeProcessRecordView>::empty());
            return;
        }
        assert(map != Map::<Seq<char>, RuntimeProcessRecordView>::empty()) by {
            assert(map.contains_key(list[0].0));
        }
        let mut survivors: TextMap<RuntimeProcessRecord> = TextMap::new();
        let mut i: usize = 0;
        while i < n
            invariant
                i <= n,
                n == list.len(),
                list == records.listing(),
                live_pids@.len() == list.len(),
                survivors.deep_view() == surviving_records(list.take(i as int), live_pids@),
            decreases n - i,
        {
            assert(list.take(i + 1).drop_last() =~= list.take(i as int));
            if let Some(pid) = live_pids[i] {
                let mut record = records.value_at(i).duplicate();
                record.process_group_id = normalized_process_group_id(&record);
                record.pid = pid;
                assert(record.deep_view() =~= surviving_record(list[i as int].1, pid));
                survivors.insert(records.key_at(i).clone(), record);
            }
            i += 1;
        }
        assert(list.take(i as int) =~= list);
        let states = self.left_states(records, &survivors, now);
        self.replace_runtime_process_records(survivors);
        self.persist_runtime_processes();
        self.states = states;
    }

    fn left_states(
        &self,
        records: &TextMap<RuntimeProcessRecord>,
        survivors: &TextMap<RuntimeProcessRecord>,
        now: Timestamp,
    ) -> (r: TextMap<ProcessRuntimeState>)
        ensures
            r.deep_view() == self.deep_view().states.map_values(
                |runtime: ProcessRuntimeStateView|
                    left_state(runtime, records.deep_view(), survivors.deep_view(), now),
            ),
    {
        let n = self.states.len();
        let ghost list = self.states.listing();
        let ghost map = self.states.deep_view();
        let ghost known = records.deep_view();
        let ghost alive = survivors.deep_view();
        let mut r: TextMap<ProcessRuntimeState> = TextMap::new();
        let mut i: usize = 0;
        while i < n
            invariant
                i <= n,
                n == list.len(),
                list == self.states.listing(),
                map == self.states.deep_view(),
                lists(list, map),
                known == records.deep_view(),
                alive == survivors.deep_view(),
                forall|id: Seq<char>| #[trigger]
                    r.deep_view().contains_key(id) ==> map.contains_key(id) && r.deep_view()[id]
                        == left_state(map[id], known, alive, now),
                forall|k: int| 0 <= k < i ==> r.deep_view().contains_key((#[trigger] list[k]).0),
            decreases n - i,
        {
            let mut runtime = self.states.value_at(i).duplicate();
            let ghost before = runtime.deep_view();
            if let Some(record) = survivors.get(runtime.process_id.as_str()) {
                runtime.pid = Some(record.pid);
                runtime.current_status = ProcessStatus::Running;
                runtime.stopped_at = None;
            } else if records.contains_key(runtime.process_id.as_str()) {
                runtime.pid = None;
                runtime.current_status = ProcessStatus::Stopped;
                runtime.stopped_at = Some(now);
                runtime.memory_usage = None;
            }
            assert(runtime.deep_view() =~= left_state(before, known, alive, now));
            assert(map[list[i as int].0] == list[i as int].1);
            r.insert(self.states.key_at(i).clone(), runtime);
            i += 1;
        }
        proof {
            let expected = map.map_values(
                |runtime: ProcessRuntimeStateView| left_state(runtime, known, alive, now),
            );
            assert forall|id: Seq<char>| #[trigger]
                r.deep_view().contains_key(id) <==> expected.contains_key(id) by {
                if map.contains_key(id) {
                    let k = choose|k: int| 0 <= k < list.len() && (#[trigger] list[k]).0 == id;
                    assert(r.deep_view().contains_key(list[k].0));
                }
            }
            assert(r.deep_view() =~= expected);
        }
        r
    }
}

} // verus!
