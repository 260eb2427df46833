//! How memory is measured and limited.
use vstd::prelude::*;

use crate::bytes::bytes_of_mb;
use crate::clock::Timestamp;
use crate::laws::frames::{same_tracking, shows};
use crate::laws::lookups::law_process_found_by_id;
use crate::laws::restarting::asks_for_restart;
use crate::laws::stopping::follows_group;
use crate::lookup::lemma_kept_contains;
use crate::memory::{
    limit_details, memory_moved, memory_sum, watch_step, with_sample, without_old, WatchStepView,
};
use crate::models::{
    ConfigView, HealthStatus, LogLevel, MetricSample, ProcessDefinitionView,
    ProcessRuntimeStateView, ProcessStatus, ProjectView, RestartPolicyKind,
};
use crate::runtime::{EffectView, RuntimeEvent, RuntimeView, StampView};
use crate::text::{decimal, has_prefix};

verus! {

/// A megabyte is 1048576 bytes; a limit that no number holds is the greatest number.
pub proof fn law_megabytes(mb: u64)
    ensures
        mb * 1_048_576 <= u64::MAX ==> bytes_of_mb(mb) == mb * 1_048_576,
        mb * 1_048_576 > u64::MAX ==> bytes_of_mb(mb) == u64::MAX,
{
}

/// A process uses no more than its own limit, if it has one.
pub open spec fn within_own_limit(process: ProcessDefinitionView, usage: u64) -> bool {
    process.memory_limit_mb matches Some(mb) ==> usage <= mb * 1_048_576
}

/// The limit of a project is looked at whenever the process does not exceed its own, whether or
/// not it has one; only a project without a limit leaves nothing to look at.
pub proof fn law_project_limit_is_looked_at(
    config: ConfigView,
    project_id: Seq<char>,
    process_id: Seq<char>,
    usage: u64,
)
    requires
        config.project(project_id) is Some,
        config.process(process_id) is Some,
        within_own_limit(config.process(process_id)->0, usage),
    ensures
        match config.project(project_id)->0.memory_limit_mb {
            Some(mb) => watch_step(config, project_id, process_id, usage)
                matches WatchStepView::ProjectLimit { project, limit } && Some(project)
                == config.project(project_id) && (limit == mb * 1_048_576 || (limit == u64::MAX
                && mb * 1_048_576 > u64::MAX)),
            None => watch_step(config, project_id, process_id, usage) is Continue,
        },
{
}

/// The watch over a process ends exactly if it exceeds its own limit, or it or its project is not
/// configured any more.
pub proof fn law_watch_ends(
    config: ConfigView,
    project_id: Seq<char>,
    process_id: Seq<char>,
    usage: u64,
)
    ensures
        watch_step(config, project_id, process_id, usage) is Done <==> config.project(
            project_id,
        ) is None || config.process(process_id) is None || !within_own_limit(
            config.process(process_id)->0,
            usage,
        ),
{
}

/// Memory has moved enough to tell where nothing was known, or where it moved by a megabyte and
/// by a hundredth of what was known.
pub proof fn law_when_memory_moved(known: u64, new: u64)
    ensures
        memory_moved(None, new),
        memory_moved(Some(known), new) <==> (new >= known + 1_048_576 && new >= known + known / 100)
            || (known >= new + 1_048_576 && known >= new + known / 100),
{
}

/// The process is configured in the project.
pub open spec fn belongs(config: ConfigView, project_id: Seq<char>, process_id: Seq<char>) -> bool {
    exists|k: int|
        #![trigger config.processes[k]]
        0 <= k < config.processes.len() && config.processes[k].id == process_id
            && config.processes[k].project_id == project_id
}

/// The memory of a project is that of its processes that run or start, one by one.
pub proof fn law_memory_of_a_project(
    config: ConfigView,
    project_id: Seq<char>,
    list: Seq<(Seq<char>, ProcessRuntimeStateView)>,
    id: Seq<char>,
    state: ProcessRuntimeStateView,
)
    ensures
        memory_sum(config, project_id, Seq::empty()) == 0,
        memory_sum(config, project_id, list.push((id, state))) == memory_sum(
            config,
            project_id,
            list,
        ) + (if belongs(config, project_id, state.process_id) && (state.current_status
            == ProcessStatus::Running || state.current_status == ProcessStatus::Starting)
            && state.memory_usage is Some {
            state.memory_usage->0 as int
        } else {
            0
        }),
{
    assert(list.push((id, state)).drop_last() =~= list);
    if config.in_project(project_id, state.process_id) {
        let k = choose|k: int|
            0 <= k < config.processes.len() && (#[trigger] config.processes[k]).project_id
                == project_id && config.processes[k].id == state.process_id;
        assert(belongs(config, project_id, state.process_id));
    }
    if belongs(config, project_id, state.process_id) {
        let k = choose|k: int|
            #![trigger config.processes[k]]
            0 <= k < config.processes.len() && config.processes[k].id == state.process_id
                && config.processes[k].project_id == project_id;
        assert(config.in_project(project_id, state.process_id));
    }
}

/// What is measured of a process that runs or starts becomes its state where it moved; of others
/// nothing does. Every measurement of a configured process is kept, and no other state changes.
pub proof fn law_what_a_measurement_leaves(
    rt: RuntimeView,
    config: ConfigView,
    project_id: Seq<char>,
    process_id: Seq<char>,
    pid: u32,
    usage: u64,
    cpu: Option<u64>,
    cpu_moved: bool,
    now: Timestamp,
    stamp: StampView,
)
    requires
        config.project(project_id) is Some,
        config.process(process_id) is Some,
        within_own_limit(config.process(process_id)->0, usage),
        rt.states.contains_key(process_id),
        rt.states[process_id].process_id == process_id,
    ensures
        ({
            let before = rt.states[process_id];
            let after = rt.with_measurement(
                config,
                project_id,
                process_id,
                pid,
                usage,
                cpu,
                cpu_moved,
                now,
                stamp,
            );
            let live = before.current_status == ProcessStatus::Running || before.current_status
                == ProcessStatus::Starting;
            let told = live && (memory_moved(before.memory_usage, usage) || (
            before.cpu_usage is Some && cpu is Some && cpu_moved) || before.cpu_usage is Some
                != cpu is Some);
            &&& !told ==> after.states == rt.states && after.effects == rt.effects
            &&& told ==> {
                &&& after.states == rt.states.insert(process_id, after.states[process_id])
                &&& after.states[process_id].memory_usage == Some(usage)
                &&& after.states[process_id].cpu_usage == (if cpu is Some {
                    cpu
                } else {
                    before.cpu_usage
                })
                &&& after.states[process_id] == (ProcessRuntimeStateView {
                    memory_usage: after.states[process_id].memory_usage,
                    cpu_usage: after.states[process_id].cpu_usage,
                    ..before
                })
                &&& after.effects == rt.effects.push(
                    EffectView::Emit {
                        event: RuntimeEvent::MetricsChanged,
                        runtime: after.states[process_id],
                    },
                )
            }
            &&& after.metrics_history.contains_key(process_id)
            &&& after.metrics_history == rt.metrics_history.insert(
                process_id,
                with_sample(
                    if rt.metrics_history.contains_key(process_id) {
                        rt.metrics_history[process_id]
                    } else {
                        Seq::empty()
                    },
                    MetricSample { timestamp: now, cpu_usage: cpu, memory_usage: Some(usage) },
                ),
            )
            &&& after.pids == rt.pids && after.process_records == rt.process_records
            &&& after.logs == rt.logs
        }),
{
}

/// A process over its own limit has failed, says by how much, and its group is killed as the last
/// thing; nobody else's state changes.
pub proof fn law_process_over_its_limit(
    rt: RuntimeView,
    config: ConfigView,
    project_id: Seq<char>,
    process_id: Seq<char>,
    pid: u32,
    usage: u64,
    cpu: Option<u64>,
    cpu_moved: bool,
    now: Timestamp,
    stamp: StampView,
    other: Seq<char>,
)
    requires
        config.project(project_id) is Some,
        config.process(process_id) is Some,
        !within_own_limit(config.process(process_id)->0, usage),
        rt.state_of(process_id).process_id == process_id,
    ensures
        ({
            let after = rt.with_measurement(
                config,
                project_id,
                process_id,
                pid,
                usage,
                cpu,
                cpu_moved,
                now,
                stamp,
            );
            let state = after.states[process_id];
            let mb = config.process(process_id)->0.memory_limit_mb->0;
            &&& after.states.contains_key(process_id)
            &&& state.current_status == ProcessStatus::Failed
            &&& state.memory_usage == Some(usage)
            &&& state.health_status == Some(HealthStatus::Unknown)
            &&& state == (ProcessRuntimeStateView {
                current_status: state.current_status,
                memory_usage: state.memory_usage,
                health_status: state.health_status,
                last_error: state.last_error,
                cpu_usage: state.cpu_usage,
                ..rt.state_of(process_id)
            })
            &&& state.cpu_usage == rt.state_of(process_id).cpu_usage || state.cpu_usage == cpu
            &&& state.last_error == Some(
                limit_details("Process"@, usage, (mb * 1_048_576) as u64),
            )
            &&& after.effects.last() == (EffectView::ForceKill { process_group_id: pid })
            &&& exists|k: int|
                #![trigger after.effects[k]]
                rt.effects.len() <= k && shows(
                    after,
                    k,
                    config.process(process_id)->0,
                    LogLevel::Error,
                    state.last_error->0,
                ) && k + 1 < after.effects.len() && after.effects[k + 1] == (EffectView::Emit {
                    event: RuntimeEvent::Failed,
                    runtime: state,
                })
            &&& after.metrics_history == rt.metrics_history.insert(
                process_id,
                with_sample(
                    if rt.metrics_history.contains_key(process_id) {
                        rt.metrics_history[process_id]
                    } else {
                        Seq::empty()
                    },
                    MetricSample { timestamp: now, cpu_usage: cpu, memory_usage: Some(usage) },
                ),
            )
            &&& other != process_id ==> after.states.contains_key(other) == rt.states.contains_key(
                other,
            ) && after.states[other] == rt.states[other]
            &&& after.pids == rt.pids && after.process_records == rt.process_records
        }),
{
    law_process_found_by_id(config, process_id);
    let process = config.process(process_id)->0;
    let measured = rt.with_metrics(
        config,
        process_id,
        usage,
        cpu,
        cpu_moved,
    ).with_metric_sample(process_id, usage, cpu, now);
    let after = rt.with_measurement(
        config,
        project_id,
        process_id,
        pid,
        usage,
        cpu,
        cpu_moved,
        now,
        stamp,
    );
    let k = measured.effects.len() as int;
    assert(after.effects[k] is Log);
    assert(shows(after, k, process, LogLevel::Error, after.states[process_id].last_error->0));
}

/// A process whose project is over its limit fails with what it used, nought where nothing is
/// known, which is told, and what it runs is killed where it is tracked.
pub proof fn law_member_of_a_project_over_its_limit(
    rt: RuntimeView,
    config: ConfigView,
    process: ProcessDefinitionView,
    details: Seq<char>,
    stamp: StampView,
)
    requires
        rt.state_of(process.id).process_id == process.id,
    ensures
        ({
            let after = rt.with_member_over_limit(config, process, details, stamp);
            let before = rt.state_of(process.id);
            let state = after.states[process.id];
            let n = rt.effects.len() as int;
            &&& after.states == rt.states.insert(process.id, state)
            &&& state.current_status == ProcessStatus::Failed
            &&& state.last_error == Some(details)
            &&& state.health_status == Some(HealthStatus::Unknown)
            &&& state.memory_usage == Some(
                match before.memory_usage {
                    Some(usage) => usage,
                    None => 0,
                },
            )
            &&& state == (ProcessRuntimeStateView {
                current_status: state.current_status,
                last_error: state.last_error,
                health_status: state.health_status,
                memory_usage: state.memory_usage,
                ..before
            })
            &&& shows(after, n, process, LogLevel::Error, details)
            &&& after.effects[n + 1] == (EffectView::Emit {
                event: RuntimeEvent::Failed,
                runtime: state,
            })
            &&& rt.pids.contains_key(process.id) ==> after.effects.last() == (
            EffectView::ForceKill { process_group_id: rt.pids[process.id] })
            &&& !rt.pids.contains_key(process.id) ==> !(after.effects.last() is ForceKill)
            &&& same_tracking(rt, after)
        }),
{
}

proof fn lemma_members_before(
    rt: RuntimeView,
    config: ConfigView,
    processes: Seq<ProcessDefinitionView>,
    details: Seq<char>,
    a: Seq<StampView>,
    b: Seq<StampView>,
)
    requires
        forall|i: int| 0 <= i < processes.len() ==> #[trigger] a[i] == b[i],
    ensures
        rt.with_members_over_limit(config, processes, details, a) == rt.with_members_over_limit(
            config,
            processes,
            details,
            b,
        ),
    decreases processes.len(),
{
    if processes.len() > 0 {
        lemma_members_before(rt, config, processes.drop_last(), details, a, b);
        assert(a[processes.len() - 1] == b[processes.len() - 1]);
    }
}

/// The processes of a project over its limit fail one after the other.
pub proof fn law_members_fail_one_by_one(
    rt: RuntimeView,
    config: ConfigView,
    processes: Seq<ProcessDefinitionView>,
    process: ProcessDefinitionView,
    details: Seq<char>,
    stamps: Seq<StampView>,
    stamp: StampView,
)
    requires
        stamps.len() == processes.len(),
    ensures
        rt.with_members_over_limit(config, Seq::empty(), details, stamps) == rt,
        rt.with_members_over_limit(config, processes.push(process), details, stamps.push(stamp))
            == rt.with_members_over_limit(
            config,
            processes,
            details,
            stamps,
        ).with_member_over_limit(config, process, details, stamp),
{
    assert(processes.push(process).drop_last() =~= processes);
    lemma_members_before(rt, config, processes, details, stamps, stamps.push(stamp));
}

/// A project over its limit fails each of its processes and kills what they run, but only once:
/// not again while one of its processes still tells of it.
pub proof fn law_project_over_its_limit(
    rt: RuntimeView,
    config: ConfigView,
    project: ProjectView,
    usage: u64,
    limit: u64,
    stamps: Seq<StampView>,
    id: Seq<char>,
)
    requires
        forall|id: Seq<char>| #[trigger]
            rt.states.contains_key(id) ==> rt.states[id].process_id == id,
    ensures
        ({
            let after = rt.with_project_over_limit(config, project, usage, limit, stamps);
            let told = exists|other: Seq<char>| #[trigger]
                rt.states.contains_key(other) && belongs(config, project.id, other)
                    && rt.states[other].last_error is Some && has_prefix(
                    rt.states[other].last_error->0,
                    "Project memory limit exceeded"@,
                );
            &&& told ==> after == rt
            &&& forall|other: Seq<char>| #[trigger]
                after.states.contains_key(other) ==> after.states[other].process_id == other
            &&& !told ==> {
                &&& belongs(config, project.id, id) ==> {
                    &&& after.states.contains_key(id)
                    &&& after.states[id].current_status == ProcessStatus::Failed
                    &&& after.states[id].health_status == Some(HealthStatus::Unknown)
                    &&& after.states[id].last_error == Some(limit_details("Project"@, usage, limit))
                    &&& rt.pids.contains_key(id) ==> exists|k: int|
                        #![trigger after.effects[k]]
                        rt.effects.len() <= k < after.effects.len() && after.effects[k] == (
                        EffectView::ForceKill { process_group_id: rt.pids[id] })
                }
                &&& !belongs(config, project.id, id) ==> after.states.contains_key(id)
                    == rt.states.contains_key(id) && after.states[id] == rt.states[id]
                &&& after.pids == rt.pids && after.process_records == rt.process_records
                &&& after.stopping_processes == rt.stopping_processes
            }
        }),
{
    let told = exists|other: Seq<char>| #[trigger]
        rt.states.contains_key(other) && belongs(config, project.id, other)
            && rt.states[other].last_error is Some && has_prefix(
            rt.states[other].last_error->0,
            "Project memory limit exceeded"@,
        );
    assert forall|other: Seq<char>| config.in_project(project.id, other) == #[trigger] belongs(
        config,
        project.id,
        other,
    ) by {
        lemma_belongs(config, project.id, other);
    }
    if told {
        let other = choose|other: Seq<char>| #[trigger]
            rt.states.contains_key(other) && belongs(config, project.id, other)
                && rt.states[other].last_error is Some && has_prefix(
                rt.states[other].last_error->0,
                "Project memory limit exceeded"@,
            );
        assert(rt.states[other].process_id == other);
        assert(config.in_project(project.id, rt.states[other].process_id));
    } else {
        if rt.project_failed_before(config, project.id) {
            let other = choose|other: Seq<char>| #[trigger]
                rt.states.contains_key(other) && config.in_project(
                    project.id,
                    rt.states[other].process_id,
                ) && (rt.states[other].last_error matches Some(error) && has_prefix(
                    error,
                    "Project memory limit exceeded"@,
                ));
            assert(rt.states[other].process_id == other);
            assert(belongs(config, project.id, other));
        }
        lemma_processes_of_project(config, project.id);
        lemma_members(
            rt,
            config,
            config.processes_of(project.id),
            limit_details("Project"@, usage, limit),
            stamps,
            id,
        );
    }
}

pub proof fn lemma_belongs(config: ConfigView, project_id: Seq<char>, id: Seq<char>)
    ensures
        config.in_project(project_id, id) == belongs(config, project_id, id),
{
    if config.in_project(project_id, id) {
        let k = choose|k: int|
            0 <= k < config.processes.len() && (#[trigger] config.processes[k]).project_id
                == project_id && config.processes[k].id == id;
        assert(config.processes[k].id == id);
    }
    if belongs(config, project_id, id) {
        let k = choose|k: int|
            #![trigger config.processes[k]]
            0 <= k < config.processes.len() && config.processes[k].id == id
                && config.processes[k].project_id == project_id;
        assert(config.processes[k].project_id == project_id);
    }
}

proof fn lemma_processes_of_project(config: ConfigView, project_id: Seq<char>)
    ensures
        forall|id: Seq<char>| #[trigger]
            belongs(config, project_id, id) ==> exists|k: int|
                #![trigger config.processes_of(project_id)[k]]
                0 <= k < config.processes_of(project_id).len() && config.processes_of(
                    project_id,
                )[k].id == id,
        forall|k: int|
            #![trigger config.processes_of(project_id)[k]]
            0 <= k < config.processes_of(project_id).len() ==> belongs(
                config,
                project_id,
                config.processes_of(project_id)[k].id,
            ),
{
    let wanted = |process: ProcessDefinitionView| process.project_id == project_id;
    let kept = config.processes_of(project_id);
    assert forall|id: Seq<char>| #[trigger] belongs(config, project_id, id) implies exists|k: int|
        #![trigger kept[k]]
        0 <= k < kept.len() && kept[k].id == id by {
        let k = choose|k: int|
            #![trigger config.processes[k]]
            0 <= k < config.processes.len() && config.processes[k].id == id
                && config.processes[k].project_id == project_id;
        lemma_kept_contains(config.processes, wanted, config.processes[k]);
        assert(config.processes.contains(config.processes[k]));
        assert(kept.contains(config.processes[k]));
    }
    assert forall|k: int| #![trigger kept[k]] 0 <= k < kept.len() implies belongs(
        config,
        project_id,
        kept[k].id,
    ) by {
        lemma_kept_contains(config.processes, wanted, kept[k]);
        assert(kept.contains(kept[k]));
        assert(config.processes.contains(kept[k]));
    }
}

proof fn lemma_members(
    rt: RuntimeView,
    config: ConfigView,
    processes: Seq<ProcessDefinitionView>,
    details: Seq<char>,
    stamps: Seq<StampView>,
    id: Seq<char>,
)
    requires
        forall|id: Seq<char>| #[trigger]
            rt.states.contains_key(id) ==> rt.states[id].process_id == id,
    ensures
        ({
            let after = rt.with_members_over_limit(config, processes, details, stamps);
            let member = exists|k: int|
                0 <= k < processes.len() && (#[trigger] processes[k]).id == id;
            &&& forall|id: Seq<char>| #[trigger]
                after.states.contains_key(id) ==> after.states[id].process_id == id
            &&& rt.effects.len() <= after.effects.len()
            &&& member ==> {
                &&& after.states.contains_key(id)
                &&& after.states[id].current_status == ProcessStatus::Failed
                &&& after.states[id].health_status == Some(HealthStatus::Unknown)
                &&& after.states[id].last_error == Some(details)
                &&& rt.pids.contains_key(id) ==> exists|k: int|
                    #![trigger after.effects[k]]
                    rt.effects.len() <= k < after.effects.len() && after.effects[k] == (
                    EffectView::ForceKill { process_group_id: rt.pids[id] })
            }
            &&& !member ==> after.states.contains_key(id) == rt.states.contains_key(id)
                && after.states[id] == rt.states[id]
            &&& after.pids == rt.pids && after.process_records == rt.process_records
            &&& after.stopping_processes == rt.stopping_processes
        }),
    decreases processes.len(),
{
    if processes.len() > 0 {
        let front = processes.drop_last();
        let last = processes.last();
        assert(processes[processes.len() - 1] == last);
        lemma_members(rt, config, front, details, stamps, id);
        let before = rt.with_members_over_limit(config, front, details, stamps);
        let after = rt.with_members_over_limit(config, processes, details, stamps);
        assert(after == before.with_member_over_limit(
            config,
            last,
            details,
            stamps[processes.len() - 1],
        ));
        assert(before.effects.is_prefix_of(after.effects));
        if exists|k: int| 0 <= k < processes.len() && (#[trigger] processes[k]).id == id {
            if last.id != id {
                let k = choose|k: int|
                    0 <= k < processes.len() && (#[trigger] processes[k]).id == id;
                assert(front[k].id == id);
                if rt.pids.contains_key(id) {
                    let j = choose|j: int|
                        #![trigger before.effects[j]]
                        rt.effects.len() <= j < before.effects.len() && before.effects[j] == (
                        EffectView::ForceKill { process_group_id: rt.pids[id] });
                    assert(after.effects[j] == before.effects[j]);
                }
            } else if rt.pids.contains_key(id) {
                assert(after.effects[after.effects.len() - 1] == (EffectView::ForceKill {
                    process_group_id: rt.pids[id],
                }));
            }
        } else {
            assert forall|k: int| 0 <= k < front.len() implies (#[trigger] front[k]).id != id by {
                assert(processes[k].id != id);
            }
        }
    }
}

/// The measurements that are kept of a process are the latest: a new one comes last, and only
/// ones at the front go: those of more than ten minutes before it, and all beyond four hundred.
pub proof fn law_kept_measurements(samples: Seq<MetricSample>, sample: MetricSample)
    ensures
        ({
            let kept = with_sample(samples, sample);
            let all = samples.push(sample);
            let gone = all.len() - kept.len();
            &&& 0 < kept.len() <= 400
            &&& kept == all.skip(gone)
            &&& kept.len() < 400 ==> forall|i: int|
                0 <= i < gone ==> (#[trigger] all[i]).timestamp.total_nanos()
                    < sample.timestamp.total_nanos() - 600_000_000_000
            &&& kept.len() < 400 ==> kept[0].timestamp.total_nanos()
                >= sample.timestamp.total_nanos() - 600_000_000_000
        }),
{
    let all = samples.push(sample);
    lemma_old_go(all, sample.timestamp.total_nanos() - 600_000_000_000);
    let young = without_old(all, sample.timestamp.total_nanos() - 600_000_000_000);
    let kept = with_sample(samples, sample);
    assert(kept =~= all.skip(all.len() - kept.len()));
}

proof fn lemma_old_go(all: Seq<MetricSample>, cutoff: int)
    requires
        all.len() > 0,
        all.last().timestamp.total_nanos() >= cutoff,
    ensures
        ({
            let young = without_old(all, cutoff);
            let gone = all.len() - young.len();
            &&& 0 < young.len() <= all.len()
            &&& young == all.skip(gone)
            &&& forall|i: int|
                0 <= i < gone ==> (#[trigger] all[i]).timestamp.total_nanos() < cutoff
            &&& young[0].timestamp.total_nanos() >= cutoff
        }),
    decreases all.len(),
{
    if all[0].timestamp.total_nanos() < cutoff {
        let rest = all.drop_first();
        assert(all.len() > 1);
        lemma_old_go(rest, cutoff);
        let young = without_old(rest, cutoff);
        let gone = all.len() - young.len();
        assert(rest.skip(gone - 1) =~= all.skip(gone));
        assert forall|i: int| 0 <= i < gone implies (#[trigger] all[i]).timestamp.total_nanos()
            < cutoff by {
            if i > 0 {
                assert(all[i] == rest[i - 1]);
            }
        }
    } else {
        assert(all.skip(0) =~= all);
    }
}

/// A recovered process whose memory cannot be measured any more is tracked under another live
/// number of its group where there is one. Otherwise nothing of it is tracked, and it has stopped
/// where that was asked for, and crashed where it was not.
pub proof fn law_process_that_cannot_be_measured(
    rt: RuntimeView,
    config: ConfigView,
    project_id: Seq<char>,
    process_id: Seq<char>,
    group: u32,
    live_pid: Option<u32>,
    now: Timestamp,
    stamp: StampView,
    restart_stamp: StampView,
)
    requires
        config.project(project_id) is Some,
        config.process(process_id) is Some,
    ensures
        ({
            let after = rt.with_unmeasured(
                config,
                project_id,
                process_id,
                group,
                live_pid,
                now,
                stamp,
                restart_stamp,
            );
            let wanted = rt.stopping_processes.contains(
                process_id + ":"@ + decimal(group as nat),
            ) || (rt.states.contains_key(process_id) && (rt.states[process_id].current_status
                == ProcessStatus::Stopping || rt.states[process_id].current_status
                == ProcessStatus::Stopped));
            match live_pid {
                Some(pid) => {
                    &&& after.states == rt.states
                    &&& after.effects == rt.effects.push(
                        EffectView::StoreRecords { records: after.process_records },
                    )
                    &&& follows_group(rt, process_id, group) ==> after.pids.contains_key(process_id)
                        && after.pids[process_id] == group && after.process_records.contains_key(
                        process_id,
                    ) && after.process_records[process_id].pid == pid
                    &&& !follows_group(rt, process_id, group) ==> after.process_records
                        == rt.process_records
                },
                None => {
                    &&& !after.pids.contains_key(process_id)
                    &&& !after.process_records.contains_key(process_id)
                    &&& after.states.contains_key(process_id)
                    &&& after.states == rt.states.insert(process_id, after.states[process_id])
                    &&& after.states[process_id] == (ProcessRuntimeStateView {
                        current_status: after.states[process_id].current_status,
                        last_error: after.states[process_id].last_error,
                        stopped_at: Some(now),
                        ..ProcessRuntimeStateView::stopped(process_id)
                    })
                    &&& after.process_records == rt.process_records.remove(process_id)
                    &&& after.stopping_processes == rt.stopping_processes
                    &&& after.effects[rt.effects.len() as int] == (EffectView::StoreRecords {
                        records: after.process_records,
                    })
                    &&& after.effects[rt.effects.len() as int + 1] == (EffectView::Emit {
                        event: if wanted {
                            RuntimeEvent::Stopped
                        } else {
                            RuntimeEvent::Failed
                        },
                        runtime: after.states[process_id],
                    })
                    &&& wanted ==> after.effects.len() == rt.effects.len() + 3 && shows(
                        after,
                        rt.effects.len() as int + 2,
                        config.process(process_id)->0,
                        LogLevel::Info,
                        "Recovered process group "@ + decimal(group as nat) + " exited"@,
                    )
                    &&& !wanted ==> shows(
                        after,
                        rt.effects.len() as int + 2,
                        config.process(process_id)->0,
                        LogLevel::Error,
                        "Recovered process group "@ + decimal(group as nat) + " crashed"@,
                    ) || shows(
                        after,
                        rt.effects.len() as int + 3,
                        config.process(process_id)->0,
                        LogLevel::Error,
                        "Recovered process group "@ + decimal(group as nat) + " crashed"@,
                    )
                    &&& wanted ==> after.states[process_id].current_status
                        == ProcessStatus::Stopped && after.states[process_id].last_error is None
                    &&& !wanted ==> after.states[process_id].current_status
                        == ProcessStatus::Crashed && after.states[process_id].last_error == Some(
                        "Recovered process group exited unexpectedly"@,
                    )
                    &&& wanted ==> !(after.effects.last() is RestartLater)
                    &&& !wanted && config.process(process_id)->0.restart_policy.kind
                        == RestartPolicyKind::Always ==> asks_for_restart(after, process_id)
                },
            }
        }),
{
    law_process_found_by_id(config, process_id);
}

} // verus!
