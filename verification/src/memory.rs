//! Watching the memory of processes: measurements, limits, and processes that have gone away.
use std::collections::VecDeque;
use vstd::prelude::*;

use crate::bytes::{bytes_of_mb, format_bytes, mb_to_bytes, memory_text};
use crate::clock::{chrono_seconds_before, nanos_of, Timestamp, FIRST_SECOND};
use crate::logs::newest;
use crate::models::{
    Config, ConfigView, HealthStatus, LogLevel, MetricSample, ProcessDefinition,
    ProcessDefinitionView, ProcessRuntimeState, ProcessRuntimeStateView, ProcessStatus, Project,
    ProjectView,
};
use crate::runtime::{Effect, EffectView, Runtime, RuntimeEvent, RuntimeView, Stamp, StampView};
use crate::text::{around_number, concat, concat3, decimal, has_prefix, same_text, starts_with};
use crate::text_map::lists;
use crate::tracking::{group_of, normalized_process_group_id};

verus! {

/// The pause between two measurements.
pub const MEMORY_WATCH_INTERVAL_SECS: u64 = 2;

/// How far back measurements are kept.
pub const METRICS_HISTORY_WINDOW_SECONDS: i64 = 600;

/// No more measurements of a process are kept.
pub const METRICS_HISTORY_HARD_CAP: usize = 400;

/// A change of memory by less is not told of.
pub const MEMORY_CHANGE_FLOOR: u64 = 1_048_576;

// ---------------------------------------------------------------------------
// Measurements
// ---------------------------------------------------------------------------

/// The memory changed by at least a hundredth, and at least by the floor.
pub open spec fn memory_moved(prev: Option<u64>, new: u64) -> bool {
    match prev {
        None => true,
        Some(prev) => {
            let threshold = if prev / 100 >= MEMORY_CHANGE_FLOOR {
                prev / 100
            } else {
                MEMORY_CHANGE_FLOOR
            };
            if new >= prev {
                new - prev >= threshold
            } else {
                prev - new >= threshold
            }
        },
    }
}

/// The processor share came, went, or changed; `cpu_moved` tells whether two shares differ
/// enough.
pub open spec fn cpu_changed(prev: Option<u64>, new: Option<u64>, cpu_moved: bool) -> bool {
    match (prev, new) {
        (None, None) => false,
        (Some(_), Some(_)) => cpu_moved,
        _ => true,
    }
}

/// Whether measurements differ enough from the last ones to be told of. Whether two shares of
/// the processor differ by at least half a percent, `cpu_moved`, is for the caller to say.
pub fn metrics_delta_significant(
    prev_memory: Option<u64>,
    new_memory: u64,
    prev_cpu: Option<u64>,
    new_cpu: Option<u64>,
    cpu_moved: bool,
) -> (r: bool)
    ensures
        r == (memory_moved(prev_memory, new_memory) || cpu_changed(prev_cpu, new_cpu, cpu_moved)),
{
    let memory_changed = match prev_memory {
        None => true,
        Some(prev) => {
            let hundredth: u64 = prev / 100;
            let threshold: u64 = if hundredth >= MEMORY_CHANGE_FLOOR {
                hundredth
            } else {
                MEMORY_CHANGE_FLOOR
            };
            let distance: u64 = if new_memory >= prev {
                new_memory - prev
            } else {
                prev - new_memory
            };
            distance >= threshold
        },
    };
    let share_changed = match (prev_cpu, new_cpu) {
        (None, None) => false,
        (Some(_), Some(_)) => cpu_moved,
        _ => true,
    };
    memory_changed || share_changed
}

/// The state of a process after a measurement.
pub open spec fn measured_state(
    runtime: ProcessRuntimeStateView,
    memory_usage: u64,
    cpu_usage: Option<u64>,
) -> ProcessRuntimeStateView {
    ProcessRuntimeStateView {
        memory_usage: Some(memory_usage),
        cpu_usage: if cpu_usage is Some {
            cpu_usage
        } else {
            runtime.cpu_usage
        },
        ..runtime
    }
}

/// The samples without the oldest ones that lie before the cutoff.
pub open spec fn without_old(samples: Seq<MetricSample>, cutoff: int) -> Seq<MetricSample>
    decreases samples.len(),
{
    if samples.len() > 0 && samples[0].timestamp.total_nanos() < cutoff {
        without_old(samples.drop_first(), cutoff)
    } else {
        samples
    }
}

/// The samples after a new one came in.
pub open spec fn with_sample(
    samples: Seq<MetricSample>,
    sample: MetricSample,
) -> Seq<MetricSample> {
    newest(
        without_old(
            samples.push(sample),
            sample.timestamp.total_nanos() - nanos_of(METRICS_HISTORY_WINDOW_SECONDS as int),
        ),
        METRICS_HISTORY_HARD_CAP as nat,
    )
}

/// The time has a window before it.
pub open spec fn has_window(now: Timestamp) -> bool {
    now.total_nanos() - nanos_of(METRICS_HISTORY_WINDOW_SECONDS as int) >= nanos_of(
        FIRST_SECOND as int,
    )
}

impl RuntimeView {
    /// The state of a running process takes in a measurement that differs enough.
    pub open spec fn with_metrics(
        self,
        config: ConfigView,
        process_id: Seq<char>,
        memory_usage: u64,
        cpu_usage: Option<u64>,
        cpu_moved: bool,
    ) -> RuntimeView {
        let runtime = self.state_of(process_id);
        if (runtime.current_status is Running || runtime.current_status is Starting) && (
        memory_moved(runtime.memory_usage, memory_usage) || cpu_changed(
            runtime.cpu_usage,
            cpu_usage,
            cpu_moved,
        )) {
            self.with_state(
                config,
                measured_state(runtime, memory_usage, cpu_usage),
                RuntimeEvent::MetricsChanged,
            )
        } else {
            self
        }
    }

    /// The samples of a process.
    pub open spec fn samples_of(self, process_id: Seq<char>) -> Seq<MetricSample> {
        if self.metrics_history.contains_key(process_id) {
            self.metrics_history[process_id]
        } else {
            Seq::empty()
        }
    }

    /// A measurement is kept.
    pub open spec fn with_metric_sample(
        self,
        process_id: Seq<char>,
        memory_usage: u64,
        cpu_usage: Option<u64>,
        now: Timestamp,
    ) -> RuntimeView {
        let sample = MetricSample {
            timestamp: now,
            cpu_usage,
            memory_usage: Some(memory_usage),
        };
        RuntimeView {
            metrics_history: self.metrics_history.insert(
                process_id,
                with_sample(self.samples_of(process_id), sample),
            ),
            ..self
        }
    }
}

impl Runtime {
    /// Lets the state of a running process take in a measurement that differs enough.
    pub fn update_process_metrics(
        &mut self,
        config: &Config,
        process_id: &str,
        memory_usage: u64,
        cpu_usage: Option<u64>,
        cpu_moved: bool,
    )
        ensures
            final(self).deep_view() == old(self).deep_view().with_metrics(
                config.deep_view(),
                process_id@,
                memory_usage,
                cpu_usage,
                cpu_moved,
            ),
    {
        let mut runtime = self.state_of(process_id);
        if !matches!(runtime.current_status, ProcessStatus::Running | ProcessStatus::Starting) {
            return;
        }
        let ghost before = runtime.deep_view();
        let significant = metrics_delta_significant(
            runtime.memory_usage,
            memory_usage,
            runtime.cpu_usage,
            cpu_usage,
            cpu_moved,
        );
        if !significant {
            return;
        }
        runtime.memory_usage = Some(memory_usage);
        if cpu_usage.is_some() {
            runtime.cpu_usage = cpu_usage;
        }
        assert(runtime.deep_view() =~= measured_state(before, memory_usage, cpu_usage));
        self.set_runtime(config, &runtime, RuntimeEvent::MetricsChanged);
    }

    /// Keeps a measurement.
    pub fn append_metric_sample(
        &mut self,
        process_id: &str,
        memory_usage: u64,
        cpu_usage: Option<u64>,
        now: Timestamp,
    )
        requires
            has_window(now),
        ensures
            final(self).deep_view() == old(self).deep_view().with_metric_sample(
                process_id@,
                memory_usage,
                cpu_usage,
                now,
            ),
    {
        let sample = MetricSample { timestamp: now, cpu_usage, memory_usage: Some(memory_usage) };
        let ghost map = self.metrics_history.deep_view();
        let ghost before = self.deep_view().samples_of(process_id@);
        let mut buffer: VecDeque<MetricSample> = match self.metrics_history.remove(process_id) {
            Some(buffer) => buffer,
            None => VecDeque::new(),
        };
        assert(buffer@ =~= before) by {
            assert(buffer.deep_view() =~= buffer@);
        }
        buffer.push_back(sample);
        let ghost all = buffer@;
        if let Some(cutoff) = chrono_seconds_before(now, METRICS_HISTORY_WINDOW_SECONDS) {
            while buffer.len() > 0 && !cutoff.not_after(&buffer[0].timestamp)
                invariant
                    without_old(buffer@, cutoff.total_nanos()) == without_old(
                        all,
                        cutoff.total_nanos(),
                    ),
                decreases buffer@.len(),
            {
                let ghost now_kept = buffer@;
                let _ = buffer.pop_front();
                assert(buffer@ =~= now_kept.drop_first());
            }
        }
        let ghost recent = buffer@;
        assert(recent.skip(0) =~= recent);
        let ghost mut dropped: int = 0;
        while buffer.len() > METRICS_HISTORY_HARD_CAP
            invariant
                0 <= dropped <= recent.len(),
                buffer@ == recent.skip(dropped),
                dropped > 0 ==> buffer@.len() >= METRICS_HISTORY_HARD_CAP,
            decreases buffer@.len(),
        {
            let _ = buffer.pop_front();
            proof {
                dropped = dropped + 1;
                assert(buffer@ =~= recent.skip(dropped));
            }
        }
        assert(buffer@ =~= with_sample(before, sample));
        assert(buffer.deep_view() =~= buffer@);
        self.metrics_history.insert(process_id.to_string(), buffer);
        assert(self.metrics_history.deep_view() =~= map.insert(
            process_id@,
            with_sample(before, sample),
        ));
    }
}

/// No more measurements are kept than the cap, the newest comes last, and where they came in
/// order none is older than the window.
pub proof fn law_samples_bounded(samples: Seq<MetricSample>, sample: MetricSample)
    requires
        forall|i: int, j: int|
            #![trigger samples[i], samples[j]]
            0 <= i < j < samples.len() ==> samples[i].timestamp.total_nanos()
                <= samples[j].timestamp.total_nanos(),
        forall|i: int|
            0 <= i < samples.len() ==> (#[trigger] samples[i]).timestamp.total_nanos()
                <= sample.timestamp.total_nanos(),
    ensures
        0 < with_sample(samples, sample).len() <= METRICS_HISTORY_HARD_CAP,
        with_sample(samples, sample).last() == sample,
        forall|i: int|
            0 <= i < with_sample(samples, sample).len() ==> (#[trigger] with_sample(
                samples,
                sample,
            )[i]).timestamp.total_nanos() >= sample.timestamp.total_nanos() - nanos_of(
                METRICS_HISTORY_WINDOW_SECONDS as int,
            ),
{
    let all = samples.push(sample);
    let cutoff = sample.timestamp.total_nanos() - nanos_of(METRICS_HISTORY_WINDOW_SECONDS as int);
    assert forall|i: int, j: int|
        #![trigger all[i], all[j]]
        0 <= i < j < all.len() implies all[i].timestamp.total_nanos()
        <= all[j].timestamp.total_nanos() by {
        assert(all[i] == samples[i]);
        if j < samples.len() {
            assert(all[j] == samples[j]);
        }
    }
    lemma_without_old(all, cutoff);
}

proof fn lemma_without_old(all: Seq<MetricSample>, cutoff: int)
    requires
        all.len() > 0,
        all.last().timestamp.total_nanos() >= cutoff,
        forall|i: int, j: int|
            #![trigger all[i], all[j]]
            0 <= i < j < all.len() ==> all[i].timestamp.total_nanos()
                <= all[j].timestamp.total_nanos(),
    ensures
        without_old(all, cutoff).len() > 0,
        without_old(all, cutoff).last() == all.last(),
        forall|i: int|
            0 <= i < without_old(all, cutoff).len() ==> (#[trigger] without_old(
                all,
                cutoff,
            )[i]).timestamp.total_nanos() >= cutoff,
    decreases all.len(),
{
    if all[0].timestamp.total_nanos() < cutoff {
        let rest = all.drop_first();
        assert(all.len() > 1);
        assert forall|i: int, j: int|
            #![trigger rest[i], rest[j]]
            0 <= i < j < rest.len() implies rest[i].timestamp.total_nanos()
            <= rest[j].timestamp.total_nanos() by {
            assert(all[i + 1].timestamp.total_nanos() <= all[j + 1].timestamp.total_nanos());
        }
        lemma_without_old(rest, cutoff);
    } else {
        assert forall|i: int| 0 <= i < all.len() implies (#[trigger] all[i]).timestamp.total_nanos()
            >= cutoff by {
            if i > 0 {
                assert(all[0].timestamp.total_nanos() <= all[i].timestamp.total_nanos());
            }
        }
    }
}

// ---------------------------------------------------------------------------
// The memory of a project
// ---------------------------------------------------------------------------

impl ConfigView {
    /// A process id is that of a process of the project.
    pub open spec fn in_project(self, project_id: Seq<char>, process_id: Seq<char>) -> bool {
        exists|i: int|
            0 <= i < self.processes.len() && (#[trigger] self.processes[i]).project_id
                == project_id && self.processes[i].id == process_id
    }
}

impl Config {
    /// Whether a process id is that of a process of the project.
    pub fn is_in_project(&self, project_id: &str, process_id: &str) -> (r: bool)
        ensures
            r == self.deep_view().in_project(project_id@, process_id@),
    {
        let ghost all = self.processes.deep_view();
        let mut i: usize = 0;
        while i < self.processes.len()
            invariant
                i <= self.processes@.len(),
                all == self.processes.deep_view(),
                forall|k: int|
                    0 <= k < i ==> !((#[trigger] all[k]).project_id == project_id@ && all[k].id
                        == process_id@),
            decreases self.processes@.len() - i,
        {
            let process = &self.processes[i];
            if same_text(process.project_id.as_str(), project_id) && same_text(
                process.id.as_str(),
                process_id,
            ) {
                assert(self.deep_view().processes[i as int].id == process_id@);
                return true;
            }
            i += 1;
        }
        false
    }
}

/// The memory that a state counts for in its project: that of a process that runs or is being
/// started.
pub open spec fn counted_memory(
    config: ConfigView,
    project_id: Seq<char>,
    runtime: ProcessRuntimeStateView,
) -> nat {
    match runtime.memory_usage {
        Some(memory) if config.in_project(project_id, runtime.process_id) && (
        runtime.current_status is Running || runtime.current_status is Starting) => memory as nat,
        _ => 0,
    }
}

/// The memory of the processes of a project, by a listing of the states.
pub open spec fn memory_sum(
    config: ConfigView,
    project_id: Seq<char>,
    list: Seq<(Seq<char>, ProcessRuntimeStateView)>,
) -> nat
    decreases list.len(),
{
    if list.len() == 0 {
        0
    } else {
        memory_sum(config, project_id, list.drop_last()) + counted_memory(
            config,
            project_id,
            list.last().1,
        )
    }
}

proof fn lemma_memory_sum_grows(
    config: ConfigView,
    project_id: Seq<char>,
    list: Seq<(Seq<char>, ProcessRuntimeStateView)>,
    i: int,
)
    requires
        0 <= i <= list.len(),
    ensures
        memory_sum(config, project_id, list.take(i)) <= memory_sum(config, project_id, list),
    decreases list.len() - i,
{
    if i < list.len() {
        assert(list.take(i + 1).drop_last() =~= list.take(i));
        lemma_memory_sum_grows(config, project_id, list, i + 1);
    } else {
        assert(list.take(i) =~= list);
    }
}

proof fn lemma_memory_sum_without(
    config: ConfigView,
    project_id: Seq<char>,
    list: Seq<(Seq<char>, ProcessRuntimeStateView)>,
    k: int,
)
    requires
        0 <= k < list.len(),
    ensures
        memory_sum(config, project_id, list) == memory_sum(config, project_id, list.remove(k))
            + counted_memory(config, project_id, list[k].1),
    decreases list.len(),
{
    if k == list.len() - 1 {
        assert(list.remove(k) =~= list.drop_last());
    } else {
        let front = list.drop_last();
        lemma_memory_sum_without(config, project_id, front, k);
        assert(list.remove(k).drop_last() =~= front.remove(k));
        assert(list.remove(k).last() == list.last());
    }
}

/// The memory of a project does not depend on the order in which the states are listed.
pub proof fn law_memory_sum_orderless(
    config: ConfigView,
    project_id: Seq<char>,
    states: Map<Seq<char>, ProcessRuntimeStateView>,
    a: Seq<(Seq<char>, ProcessRuntimeStateView)>,
    b: Seq<(Seq<char>, ProcessRuntimeStateView)>,
)
    requires
        lists(a, states),
        lists(b, states),
    ensures
        memory_sum(config, project_id, a) == memory_sum(config, project_id, b),
    decreases a.len(),
{
    if a.len() == 0 {
        if b.len() > 0 {
            assert(states.contains_key(b[0].0));
        }
    } else {
        let (id, runtime) = a.last();
        assert(a[a.len() - 1] == a.last());
        assert(states.contains_key(id));
        let k = choose|k: int| 0 <= k < b.len() && (#[trigger] b[k]).0 == id;
        assert(b[k].1 == states[id]);
        let rest = states.remove(id);
        let front = a.drop_last();
        let others = b.remove(k);
        assert(lists(front, rest)) by {
            assert forall|i: int, j: int|
                #![trigger front[i], front[j]]
                0 <= i < front.len() && 0 <= j < front.len() && i != j implies front[i].0
                != front[j].0 by {
                assert(a[i].0 != a[j].0);
            }
            assert forall|i: int|
                #![trigger front[i]]
                0 <= i < front.len() implies rest.contains_key(front[i].0) && rest[front[i].0]
                == front[i].1 by {
                assert(a[i].0 != a[a.len() - 1].0);
            }
            assert forall|key: Seq<char>| #[trigger] rest.contains_key(key) implies exists|i: int|
                0 <= i < front.len() && (#[trigger] front[i]).0 == key by {
                let i = choose|i: int| 0 <= i < a.len() && (#[trigger] a[i]).0 == key;
                assert(front[i].0 == key);
            }
        }
        assert(lists(others, rest)) by {
            assert forall|i: int, j: int|
                #![trigger others[i], others[j]]
                0 <= i < others.len() && 0 <= j < others.len() && i != j implies others[i].0
                != others[j].0 by {
                let x = if i < k {
                    i
                } else {
                    i + 1
                };
                let y = if j < k {
                    j
                } else {
                    j + 1
                };
                assert(b[x].0 != b[y].0);
            }
            assert forall|i: int|
                #![trigger others[i]]
                0 <= i < others.len() implies rest.contains_key(others[i].0) && rest[others[i].0]
                == others[i].1 by {
                let x = if i < k {
                    i
                } else {
                    i + 1
                };
                assert(others[i] == b[x]);
                assert(b[x].0 != b[k].0);
            }
            assert forall|key: Seq<char>| #[trigger] rest.contains_key(key) implies exists|i: int|
                0 <= i < others.len() && (#[trigger] others[i]).0 == key by {
                let x = choose|x: int| 0 <= x < b.len() && (#[trigger] b[x]).0 == key;
                if x < k {
                    assert(others[x].0 == key);
                } else {
                    assert(others[x - 1].0 == key);
                }
            }
        }
        law_memory_sum_orderless(config, project_id, rest, front, others);
        lemma_memory_sum_without(config, project_id, b, k);
    }
}

impl Runtime {
    /// The memory of the processes of a project, where it fits in a number.
    pub fn project_memory_usage(&self, config: &Config, project_id: &str) -> (r: Option<u64>)
        ensures
            lists(self.states.listing(), self.deep_view().states),
            match r {
                Some(total) => total == memory_sum(
                    config.deep_view(),
                    project_id@,
                    self.states.listing(),
                ),
                None => memory_sum(config.deep_view(), project_id@, self.states.listing())
                    > u64::MAX,
            },
    {
        let n = self.states.len();
        let ghost list = self.states.listing();
        let ghost conf = config.deep_view();
        let mut total: u64 = 0;
        let mut i: usize = 0;
        while i < n
            invariant
                i <= n,
                n == list.len(),
                list == self.states.listing(),
                lists(list, self.states.deep_view()),
                conf == config.deep_view(),
                total == memory_sum(conf, project_id@, list.take(i as int)),
            decreases n - i,
        {
            assert(list.take(i + 1).drop_last() =~= list.take(i as int));
            let runtime = self.states.value_at(i);
            if let Some(memory) = runtime.memory_usage {
                if matches!(
                    runtime.current_status,
                    ProcessStatus::Running | ProcessStatus::Starting
                ) && config.is_in_project(project_id, runtime.process_id.as_str()) {
                    match total.checked_add(memory) {
                        Some(sum) => {
                            total = sum;
                        },
                        None => {
                            proof {
                                lemma_memory_sum_grows(conf, project_id@, list, i + 1);
                            }
                            return None;
                        },
                    }
                }
            }
            i += 1;
        }
        assert(list.take(i as int) =~= list);
        Some(total)
    }
}

// ---------------------------------------------------------------------------
// Limits
// ---------------------------------------------------------------------------

/// What is said of a limit that was exceeded.
pub open spec fn limit_details(what: Seq<char>, usage: u64, limit: u64) -> Seq<char> {
    what + " memory limit exceeded: "@ + memory_text(usage as nat) + " used over "@ + memory_text(
        limit as nat,
    ) + " limit"@
}

fn limit_message(what: &str, usage: u64, limit: u64) -> (r: String)
    ensures
        r@ == limit_details(what@, usage, limit),
{
    let usage_text = format_bytes(usage);
    let limit_text = format_bytes(limit);
    let head = concat3(what, " memory limit exceeded: ", usage_text.as_str());
    let middle = concat3(head.as_str(), " used over ", limit_text.as_str());
    concat(middle.as_str(), " limit")
}

impl RuntimeView {
    /// The state of a process that was failed for its memory.
    pub open spec fn memory_failure_state(
        self,
        process_id: Seq<char>,
        details: Seq<char>,
        usage: u64,
    ) -> ProcessRuntimeStateView {
        ProcessRuntimeStateView {
            current_status: ProcessStatus::Failed,
            last_error: Some(details),
            memory_usage: Some(usage),
            health_status: Some(HealthStatus::Unknown),
            ..self.state_of(process_id)
        }
    }

    pub open spec fn with_memory_failure(
        self,
        config: ConfigView,
        process: ProcessDefinitionView,
        details: Seq<char>,
        usage: u64,
    ) -> RuntimeView {
        self.with_state(
            config,
            self.memory_failure_state(process.id, details, usage),
            RuntimeEvent::Failed,
        )
    }

    /// A process exceeded its limit: that is logged, it has failed, and it is killed.
    pub open spec fn with_process_over_limit(
        self,
        config: ConfigView,
        process: ProcessDefinitionView,
        pid: u32,
        usage: u64,
        limit: u64,
        stamp: StampView,
    ) -> RuntimeView {
        let details = limit_details("Process"@, usage, limit);
        self.with_note(config, process, LogLevel::Error, details, stamp).with_memory_failure(
            config,
            process,
            details,
            usage,
        ).with_effect(EffectView::ForceKill { process_group_id: pid })
    }

    /// A process of a project that exceeded its limit: that is logged, it has failed, and its
    /// group is killed if it has one.
    pub open spec fn with_member_over_limit(
        self,
        config: ConfigView,
        process: ProcessDefinitionView,
        details: Seq<char>,
        stamp: StampView,
    ) -> RuntimeView {
        let usage = match self.state_of(process.id).memory_usage {
            Some(memory) => memory,
            None => 0,
        };
        let failed = self.with_note(
            config,
            process,
            LogLevel::Error,
            details,
            stamp,
        ).with_memory_failure(config, process, details, usage);
        if failed.pids.contains_key(process.id) {
            failed.with_effect(EffectView::ForceKill { process_group_id: failed.pids[process.id] })
        } else {
            failed
        }
    }

    pub open spec fn with_members_over_limit(
        self,
        config: ConfigView,
        processes: Seq<ProcessDefinitionView>,
        details: Seq<char>,
        stamps: Seq<StampView>,
    ) -> RuntimeView
        decreases processes.len(),
    {
        if processes.len() == 0 {
            self
        } else {
            self.with_members_over_limit(
                config,
                processes.drop_last(),
                details,
                stamps,
            ).with_member_over_limit(
                config,
                processes.last(),
                details,
                stamps[processes.len() - 1],
            )
        }
    }

    /// A process of the project was failed for the project's limit already.
    pub open spec fn project_failed_before(
        self,
        config: ConfigView,
        project_id: Seq<char>,
    ) -> bool {
        exists|id: Seq<char>| #[trigger]
            self.states.contains_key(id) && config.in_project(
                project_id,
                self.states[id].process_id,
            ) && (self.states[id].last_error matches Some(error) && has_prefix(
                error,
                "Project memory limit exceeded"@,
            ))
    }

    /// A project exceeded its limit: all of its processes are failed, once.
    pub open spec fn with_project_over_limit(
        self,
        config: ConfigView,
        project: ProjectView,
        usage: u64,
        limit: u64,
        stamps: Seq<StampView>,
    ) -> RuntimeView {
        if self.project_failed_before(config, project.id) {
            self
        } else {
            self.with_members_over_limit(
                config,
                config.processes_of(project.id),
                limit_details("Project"@, usage, limit),
                stamps,
            )
        }
    }
}

impl Runtime {
    /// Lets a process have failed for its memory.
    pub fn mark_process_memory_failure(
        &mut self,
        config: &Config,
        process: &ProcessDefinition,
        details: String,
        usage: u64,
    )
        ensures
            final(self).deep_view() == old(self).deep_view().with_memory_failure(
                config.deep_view(),
                process.deep_view(),
                details@,
                usage,
            ),
    {
        let ghost rt = self.deep_view();
        let mut runtime = self.state_of(process.id.as_str());
        runtime.current_status = ProcessStatus::Failed;
        runtime.last_error = Some(details);
        runtime.memory_usage = Some(usage);
        runtime.health_status = Some(HealthStatus::Unknown);
        assert(runtime.deep_view() =~= rt.memory_failure_state(process.id@, details@, usage));
        self.set_runtime(config, &runtime, RuntimeEvent::Failed);
    }

    /// Takes in that a process exceeded its limit.
    pub fn fail_process_for_memory_limit(
        &mut self,
        config: &Config,
        process: &ProcessDefinition,
        pid: u32,
        usage: u64,
        limit: u64,
        stamp: Stamp,
    )
        ensures
            final(self).deep_view() == old(self).deep_view().with_process_over_limit(
                config.deep_view(),
                process.deep_view(),
                pid,
                usage,
                limit,
                stamp.deep_view(),
            ),
    {
        let details = limit_message("Process", usage, limit);
        self.note(config, process, LogLevel::Error, details.clone(), stamp);
        self.mark_process_memory_failure(config, process, details, usage);
        self.queue(Effect::ForceKill { process_group_id: pid });
    }

    fn member_over_limit(
        &mut self,
        config: &Config,
        process: &ProcessDefinition,
        details: &String,
        stamp: Stamp,
    )
        ensures
            final(self).deep_view() == old(self).deep_view().with_member_over_limit(
                config.deep_view(),
                process.deep_view(),
                details@,
                stamp.deep_view(),
            ),
    {
        let usage: u64 = match self.state_of(process.id.as_str()).memory_usage {
            Some(memory) => memory,
            None => 0,
        };
        self.note(config, process, LogLevel::Error, details.clone(), stamp);
        self.mark_process_memory_failure(config, process, details.clone(), usage);
        let group = match self.pids.get(process.id.as_str()) {
            Some(group) => Some(*group),
            None => None,
        };
        if let Some(process_group_id) = group {
            self.queue(Effect::ForceKill { process_group_id });
        }
    }

    fn project_has_failed_before(&self, config: &Config, project_id: &str) -> (r: bool)
        ensures
            r == self.deep_view().project_failed_before(config.deep_view(), project_id@),
    {
        let n = self.states.len();
        let ghost list = self.states.listing();
        let ghost map = self.states.deep_view();
        let ghost conf = config.deep_view();
        let mut i: usize = 0;
        while i < n
            invariant
                i <= n,
                n == list.len(),
                list == self.states.listing(),
                map == self.states.deep_view(),
                lists(list, map),
                conf == config.deep_view(),
                forall|k: int|
                    0 <= k < i ==> !(conf.in_project(
                        project_id@,
                        (#[trigger] list[k]).1.process_id,
                    ) && (list[k].1.last_error matches Some(error) && has_prefix(
                        error,
                        "Project memory limit exceeded"@,
                    ))),
            decreases n - i,
        {
            let runtime = self.states.value_at(i);
            if let Some(error) = &runtime.last_error {
                if starts_with(error.as_str(), "Project memory limit exceeded")
                    && config.is_in_project(project_id, runtime.process_id.as_str()) {
                    assert(map.contains_key(list[i as int].0));
                    return true;
                }
            }
            i += 1;
        }
        proof {
            if self.deep_view().project_failed_before(conf, project_id@) {
                let id = choose|id: Seq<char>| #[trigger]
                    map.contains_key(id) && conf.in_project(project_id@, map[id].process_id) && (
                    map[id].last_error matches Some(error) && has_prefix(
                        error,
                        "Project memory limit exceeded"@,
                    ));
                let k = choose|k: int| 0 <= k < list.len() && (#[trigger] list[k]).0 == id;
                assert(list[k].1 == map[id]);
            }
        }
        false
    }

    /// Takes in that a project exceeded its limit; there is a stamp for each of its processes.
    pub fn fail_project_for_memory_limit(
        &mut self,
        config: &Config,
        project: &Project,
        usage: u64,
        limit: u64,
        stamps: Vec<Stamp>,
    )
        requires
            stamps@.len() == config.deep_view().processes_of(project.id@).len(),
        ensures
            final(self).deep_view() == old(self).deep_view().with_project_over_limit(
                config.deep_view(),
                project.deep_view(),
                usage,
                limit,
                stamps.deep_view(),
            ),
    {
        if self.project_has_failed_before(config, project.id.as_str()) {
            return;
        }
        let processes = config.processes_of(project.id.as_str());
        let details = limit_message("Project", usage, limit);
        let ghost all = processes.deep_view();
        let ghost stamp_views = stamps.deep_view();
        assert(all.len() == processes@.len());
        let mut i: usize = 0;
        while i < processes.len()
            invariant
                i <= processes@.len(),
                processes@.len() == stamps@.len(),
                all == processes.deep_view(),
                stamp_views == stamps.deep_view(),
                self.deep_view() == old(self).deep_view().with_members_over_limit(
                    config.deep_view(),
                    all.take(i as int),
                    details@,
                    stamp_views,
                ),
            decreases processes@.len() - i,
        {
            assert(all.take(i + 1).drop_last() =~= all.take(i as int));
            let stamp = Stamp { id: stamps[i].id.clone(), at: stamps[i].at };
            assert(stamp.deep_view() == stamp_views[i as int]);
            self.member_over_limit(config, &processes[i], &details, stamp);
            i += 1;
        }
        assert(all.take(i as int) =~= all);
    }
}

// ---------------------------------------------------------------------------
// The watch
// ---------------------------------------------------------------------------

/// What the watch looks at next.
#[derive(Clone, Copy, PartialEq, Eq, Structural, Debug)]
pub struct WatchTarget {
    pub pid: u32,
    pub process_group_id: u32,
}

/// Whether and how the watch goes on after a measurement.
pub enum WatchStep {
    /// It ends.
    Done,
    /// It goes on.
    Continue,
    /// The memory of the project is to be compared with its limit.
    ProjectLimit { project: Project, limit: u64 },
}

/// The model of [`WatchStep`].
pub enum WatchStepView {
    Done,
    Continue,
    ProjectLimit { project: ProjectView, limit: u64 },
}

impl DeepView for WatchStep {
    type V = WatchStepView;

    open spec fn deep_view(&self) -> WatchStepView {
        match self {
            WatchStep::Done => WatchStepView::Done,
            WatchStep::Continue => WatchStepView::Continue,
            WatchStep::ProjectLimit { project, limit } => WatchStepView::ProjectLimit {
                project: project.deep_view(),
                limit: *limit,
            },
        }
    }
}

/// A process exceeds its own limit.
pub open spec fn over_limit(limit_mb: Option<u64>, usage: u64) -> bool {
    limit_mb matches Some(mb) && usage > bytes_of_mb(mb)
}

/// Whether and how the watch goes on after a measurement.
pub open spec fn watch_step(
    config: ConfigView,
    project_id: Seq<char>,
    process_id: Seq<char>,
    memory_usage: u64,
) -> WatchStepView {
    match config.pair(project_id, process_id) {
        None => WatchStepView::Done,
        Some((project, process)) => if over_limit(process.memory_limit_mb, memory_usage) {
            WatchStepView::Done
        } else {
            match project.memory_limit_mb {
                Some(mb) => WatchStepView::ProjectLimit { project, limit: bytes_of_mb(mb) },
                None => WatchStepView::Continue,
            }
        },
    }
}

impl RuntimeView {
    /// What the watch looks at, as long as the process is tracked.
    pub open spec fn watch_target(self, process_id: Seq<char>) -> Option<WatchTarget> {
        if self.process_records.contains_key(process_id) {
            Some(
                WatchTarget {
                    pid: self.process_records[process_id].pid,
                    process_group_id: group_of(self.process_records[process_id]),
                },
            )
        } else {
            None
        }
    }

    /// What a measurement changes.
    pub open spec fn with_measurement(
        self,
        config: ConfigView,
        project_id: Seq<char>,
        process_id: Seq<char>,
        pid: u32,
        memory_usage: u64,
        cpu_usage: Option<u64>,
        cpu_moved: bool,
        now: Timestamp,
        stamp: StampView,
    ) -> RuntimeView {
        match config.pair(project_id, process_id) {
            None => self,
            Some((project, process)) => {
                let measured = self.with_metrics(
                    config,
                    process_id,
                    memory_usage,
                    cpu_usage,
                    cpu_moved,
                ).with_metric_sample(process_id, memory_usage, cpu_usage, now);
                if over_limit(process.memory_limit_mb, memory_usage) {
                    measured.with_process_over_limit(
                        config,
                        process,
                        pid,
                        memory_usage,
                        bytes_of_mb(process.memory_limit_mb->0),
                        stamp,
                    )
                } else {
                    measured
                }
            },
        }
    }

    /// The process was asked to stop, or was stopping or stopped.
    pub open spec fn stop_expected(self, process_id: Seq<char>, process_group_id: u32) -> bool {
        self.stop_requested(process_id, process_group_id) || self.state_of(
            process_id,
        ).current_status is Stopping || (self.states.contains_key(process_id)
            && self.states[process_id].current_status is Stopped)
    }

    /// A process could not be measured. Where its group has a live process, that one is
    /// watched from now on. Otherwise the process is gone: it has stopped if that was to be
    /// expected, and has crashed if not.
    pub open spec fn with_unmeasured(
        self,
        config: ConfigView,
        project_id: Seq<char>,
        process_id: Seq<char>,
        process_group_id: u32,
        live_pid: Option<u32>,
        now: Timestamp,
        stamp: StampView,
        restart_stamp: StampView,
    ) -> RuntimeView {
        match live_pid {
            Some(pid) => self.with_tracked_pid(
                process_id,
                pid,
                process_group_id,
            ).with_records_stored(),
            None => {
                let gone = self.without_tracked(process_id).with_records_stored();
                let stopped = ProcessRuntimeStateView {
                    stopped_at: Some(now),
                    ..ProcessRuntimeStateView::stopped(process_id)
                };
                match config.pair(project_id, process_id) {
                    None => gone,
                    Some((project, process)) => if self.stop_expected(
                        process_id,
                        process_group_id,
                    ) {
                        gone.with_state(config, stopped, RuntimeEvent::Stopped).with_note(
                            config,
                            process,
                            LogLevel::Info,
                            "Recovered process group "@ + decimal(process_group_id as nat)
                                + " exited"@,
                            stamp,
                        )
                    } else {
                        gone.with_state(
                            config,
                            ProcessRuntimeStateView {
                                current_status: ProcessStatus::Crashed,
                                last_error: Some("Recovered process group exited unexpectedly"@),
                                ..stopped
                            },
                            RuntimeEvent::Failed,
                        ).with_note(
                            config,
                            process,
                            LogLevel::Error,
                            "Recovered process group "@ + decimal(process_group_id as nat)
                                + " crashed"@,
                            stamp,
                        ).with_restart_scheduled(config, process, now, restart_stamp)
                    },
                }
            },
        }
    }
}

impl Runtime {
    /// What the watch of a process looks at, as long as the process is tracked.
    pub fn watch_target(&self, process_id: &str) -> (r: Option<WatchTarget>)
        ensures
            r == self.deep_view().watch_target(process_id@),
    {
        match self.process_records.get(process_id) {
            Some(record) => Some(
                WatchTarget {
                    pid: record.pid,
                    process_group_id: normalized_process_group_id(record),
                },
            ),
            None => None,
        }
    }

    /// Takes in a measurement, and says whether and how the watch goes on.
    pub fn measured(
        &mut self,
        config: &Config,
        project_id: &str,
        process_id: &str,
        pid: u32,
        memory_usage: u64,
        cpu_usage: Option<u64>,
        cpu_moved: bool,
        now: Timestamp,
        stamp: Stamp,
    ) -> (r: WatchStep)
        requires
            has_window(now),
        ensures
            r.deep_view() == watch_step(config.deep_view(), project_id@, process_id@, memory_usage),
            final(self).deep_view() == old(self).deep_view().with_measurement(
                config.deep_view(),
                project_id@,
                process_id@,
                pid,
                memory_usage,
                cpu_usage,
                cpu_moved,
                now,
                stamp.deep_view(),
            ),
    {
        let (project, process) = match config.config_project_process_pair(project_id, process_id) {
            Some(pair) => pair,
            None => {
                return WatchStep::Done;
            },
        };
        self.update_process_metrics(config, process_id, memory_usage, cpu_usage, cpu_moved);
        self.append_metric_sample(process_id, memory_usage, cpu_usage, now);
        if let Some(limit_mb) = process.memory_limit_mb {
            let limit = mb_to_bytes(limit_mb);
            if memory_usage > limit {
                self.fail_process_for_memory_limit(
                    config,
                    &process,
                    pid,
                    memory_usage,
                    limit,
                    stamp,
                );
                return WatchStep::Done;
            }
        }
        match project.memory_limit_mb {
            Some(limit_mb) => WatchStep::ProjectLimit { project, limit: mb_to_bytes(limit_mb) },
            None => WatchStep::Continue,
        }
    }

    /// Compares the memory of a project with its limit, and says whether the watch goes on;
    /// there is a stamp for each process of the project.
    pub fn project_measured(
        &mut self,
        config: &Config,
        project: &Project,
        usage: u64,
        limit: u64,
        stamps: Vec<Stamp>,
    ) -> (r: bool)
        requires
            stamps@.len() == config.deep_view().processes_of(project.id@).len(),
        ensures
            r == (usage <= limit),
            final(self).deep_view() == (if usage > limit {
                old(self).deep_view().with_project_over_limit(
                    config.deep_view(),
                    project.deep_view(),
                    usage,
                    limit,
                    stamps.deep_view(),
                )
            } else {
                old(self).deep_view()
            }),
    {
        if usage > limit {
            self.fail_project_for_memory_limit(config, project, usage, limit, stamps);
            return false;
        }
        true
    }

    /// Takes in that a process could not be measured, and says whether the watch goes on;
    /// `live_pid` is a live process of its group, if there is one.
    pub fn unmeasured(
        &mut self,
        config: &Config,
        project_id: &str,
        process_id: &str,
        process_group_id: u32,
        live_pid: Option<u32>,
        now: Timestamp,
        stamp: Stamp,
        restart_stamp: Stamp,
    ) -> (r: bool)
        ensures
            r == (live_pid is Some),
            final(self).deep_view() == old(self).deep_view().with_unmeasured(
                config.deep_view(),
                project_id@,
                process_id@,
                process_group_id,
                live_pid,
                now,
                stamp.deep_view(),
                restart_stamp.deep_view(),
            ),
    {
        if let Some(pid) = live_pid {
            let _ = self.update_tracked_process_pid(process_id, pid, process_group_id);
            self.persist_runtime_processes();
            return true;
        }
        let stopping = match self.states.get(process_id) {
            Some(runtime) => matches!(
                runtime.current_status,
                ProcessStatus::Stopping | ProcessStatus::Stopped
            ),
            None => false,
        };
        let operator_stop = self.stop_was_requested(process_id, process_group_id) || stopping;
        assert(operator_stop == old(self).deep_view().stop_expected(process_id@, process_group_id));
        self.untrack_runtime_process(process_id);
        self.persist_runtime_processes();
        if let Some((_, process)) = config.config_project_process_pair(project_id, process_id) {
            let mut runtime = ProcessRuntimeState::stopped(process_id.to_string());
            runtime.stopped_at = Some(now);
            if operator_stop {
                assert(runtime.deep_view() =~= (ProcessRuntimeStateView {
                    stopped_at: Some(now),
                    ..ProcessRuntimeStateView::stopped(process_id@)
                }));
                self.set_runtime(config, &runtime, RuntimeEvent::Stopped);
                let message = around_number(
                    "Recovered process group ",
                    process_group_id as u64,
                    " exited",
                );
                self.note(config, &process, LogLevel::Info, message, stamp);
            } else {
                runtime.current_status = ProcessStatus::Crashed;
                runtime.last_error = Some(
                    "Recovered process group exited unexpectedly".to_string(),
                );
                assert(runtime.deep_view() =~= (ProcessRuntimeStateView {
                    current_status: ProcessStatus::Crashed,
                    last_error: Some("Recovered process group exited unexpectedly"@),
                    stopped_at: Some(now),
                    ..ProcessRuntimeStateView::stopped(process_id@)
                }));
                self.set_runtime(config, &runtime, RuntimeEvent::Failed);
                let message = around_number(
                    "Recovered process group ",
                    process_group_id as u64,
                    " crashed",
                );
                self.note(config, &process, LogLevel::Error, message, stamp);
                self.schedule_auto_restart_if_eligible(config, &process, now, restart_stamp);
            }
        }
        false
    }
}

} // verus!
