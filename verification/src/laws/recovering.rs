//! How processes are found again, and how they are left.
use vstd::prelude::*;

use crate::clock::Timestamp;
use crate::laws::frames::shows;
use crate::models::{
    ConfigView, HealthStatus, LogLevel, ProcessDefinitionView, ProcessRuntimeStateView,
    ProcessStatus, RuntimeProcessRecordView,
};
use crate::order::{by_id, last_where};
use crate::platform::Platform;
use crate::ports::expected_ports;
use crate::recovery::{candidates, live_pid, recovered_records, surviving_records, CandidateView};
use crate::runtime::{EffectView, RuntimeEvent, RuntimeView, StampView};
use crate::text::{decimal, is_space};

verus! {

/// A process is still the one recorded if the system lists it in its group and, where the system
/// tells, not as a zombie; otherwise any live process of the group stands for it.
pub proof fn law_who_is_alive(
    platform: Platform,
    record: RuntimeProcessRecordView,
    info: Option<(u32, Seq<char>)>,
    in_group: Option<u32>,
)
    ensures
        ({
            let group = if record.process_group_id == 0 {
                record.pid
            } else {
                record.process_group_id
            };
            let same = info matches Some((listed, stat)) && listed == group && (platform
                == Platform::Windows || forall|i: int|
                0 <= i < stat.len() ==> #[trigger] stat[i] != 'Z');
            &&& same ==> live_pid(platform, record, info, in_group) == Some(record.pid)
            &&& !same ==> live_pid(platform, record, info, in_group) == in_group
        }),
{
    if let Some((listed, stat)) = info {
        if !stat.contains('Z') {
            assert forall|i: int| 0 <= i < stat.len() implies #[trigger] stat[i] != 'Z' by {
                assert(stat.contains(stat[i]));
            }
        }
    }
}

proof fn lemma_last_at<T>(list: Seq<T>, wanted: spec_fn(T) -> bool)
    ensures
        match last_where(list, wanted) {
            Some(item) => exists|k: int|
                #![trigger list[k]]
                0 <= k < list.len() && list[k] == item && wanted(item) && forall|m: int|
                    k < m < list.len() ==> !wanted(#[trigger] list[m]),
            None => forall|m: int| 0 <= m < list.len() ==> !wanted(#[trigger] list[m]),
        },
    decreases list.len(),
{
    if list.len() > 0 {
        if wanted(list.last()) {
            assert(list[list.len() - 1] == list.last());
        } else {
            let front = list.drop_last();
            lemma_last_at(front, wanted);
            match last_where(front, wanted) {
                Some(item) => {
                    let k = choose|k: int|
                        #![trigger front[k]]
                        0 <= k < front.len() && front[k] == item && wanted(item) && forall|m: int|
                            k < m < front.len() ==> !wanted(#[trigger] front[m]);
                    assert(list[k] == item);
                    assert forall|m: int| k < m < list.len() implies !wanted(
                        #[trigger] list[m],
                    ) by {
                        if m < front.len() {
                            assert(list[m] == front[m]);
                        }
                    }
                },
                None => {
                    assert forall|m: int| 0 <= m < list.len() implies !wanted(
                        #[trigger] list[m],
                    ) by {
                        if m < front.len() {
                            assert(list[m] == front[m]);
                        }
                    }
                },
            }
        }
    }
}

/// Among processes with the same id the last one counts.
pub proof fn law_last_with_an_id_counts(list: Seq<ProcessDefinitionView>, id: Seq<char>)
    ensures
        match by_id(list, id) {
            Some(process) => process.id == id && exists|k: int|
                #![trigger list[k]]
                0 <= k < list.len() && list[k] == process && forall|m: int|
                    k < m < list.len() ==> (#[trigger] list[m]).id != id,
            None => forall|m: int| 0 <= m < list.len() ==> (#[trigger] list[m]).id != id,
        },
{
    let wanted = |process: ProcessDefinitionView| process.id == id;
    lemma_last_at(list, wanted);
    match by_id(list, id) {
        Some(process) => {
            let k = choose|k: int|
                #![trigger list[k]]
                0 <= k < list.len() && list[k] == process && wanted(process) && forall|m: int|
                    k < m < list.len() ==> !wanted(#[trigger] list[m]);
            assert forall|m: int| k < m < list.len() implies (#[trigger] list[m]).id != id by {
                assert(!wanted(list[m]));
            }
        },
        None => {
            assert forall|m: int| 0 <= m < list.len() implies (#[trigger] list[m]).id != id by {
                assert(!wanted(list[m]));
            }
        },
    }
}

/// Among processes with the same key the last one counts.
pub proof fn law_last_with_a_key_counts(list: Seq<ProcessDefinitionView>, key: Seq<char>)
    ensures
        match crate::order::by_key(list, key) {
            Some(process) => process.key == key && exists|k: int|
                #![trigger list[k]]
                0 <= k < list.len() && list[k] == process && forall|m: int|
                    k < m < list.len() ==> (#[trigger] list[m]).key != key,
            None => forall|m: int| 0 <= m < list.len() ==> (#[trigger] list[m]).key != key,
        },
{
    let wanted = |process: ProcessDefinitionView| process.key == key;
    lemma_last_at(list, wanted);
    match crate::order::by_key(list, key) {
        Some(process) => {
            let k = choose|k: int|
                #![trigger list[k]]
                0 <= k < list.len() && list[k] == process && wanted(process) && forall|m: int|
                    k < m < list.len() ==> !wanted(#[trigger] list[m]);
            assert forall|m: int| k < m < list.len() implies (#[trigger] list[m]).key != key by {
                assert(!wanted(list[m]));
            }
        },
        None => {
            assert forall|m: int| 0 <= m < list.len() implies (#[trigger] list[m]).key != key by {
                assert(!wanted(list[m]));
            }
        },
    }
}

/// A record is looked into exactly if its process is configured and launchd does not supervise
/// it.
pub proof fn law_records_looked_into(
    config: ConfigView,
    list: Seq<(Seq<char>, RuntimeProcessRecordView)>,
    id: Seq<char>,
    record: RuntimeProcessRecordView,
)
    ensures
        candidates(config, Seq::empty()).len() == 0,
        candidates(config, list.push((id, record))) == (if by_id(config.processes, id) is Some
            && by_id(config.processes, id)->0.launchd is None {
            candidates(config, list).push(
                CandidateView { process: by_id(config.processes, id)->0, record },
            )
        } else {
            candidates(config, list)
        }),
{
    assert(list.push((id, record)).drop_last() =~= list);
}

/// A process that is found alive runs, since when its record says, is tracked with its group and
/// watched; one that is not has stopped.
pub proof fn law_found_or_gone(
    rt: RuntimeView,
    config: ConfigView,
    candidate: CandidateView,
    live_pid: Option<u32>,
    now: Timestamp,
    stamp: StampView,
)
    requires
        rt.state_of(candidate.process.id).process_id == candidate.process.id,
    ensures
        ({
            let id = candidate.process.id;
            let old_record = candidate.record;
            let group = if old_record.process_group_id == 0 {
                old_record.pid
            } else {
                old_record.process_group_id
            };
            let after = rt.with_candidate(config, candidate, live_pid, now, stamp);
            let state = after.states[id];
            &&& after.states == rt.states.insert(id, state)
            &&& match live_pid {
                Some(pid) => {
                    let record = after.process_records[id];
                    &&& state.current_status == ProcessStatus::Running
                    &&& state.pid == Some(pid)
                    &&& state.started_at == Some(old_record.started_at)
                    &&& state.stopped_at is None && state.exit_code is None
                    &&& state.last_error is None && state.memory_usage is None
                    &&& state.health_status == Some(HealthStatus::Unknown)
                    &&& state == (ProcessRuntimeStateView {
                        current_status: state.current_status,
                        pid: state.pid,
                        started_at: state.started_at,
                        stopped_at: state.stopped_at,
                        exit_code: state.exit_code,
                        last_error: state.last_error,
                        memory_usage: state.memory_usage,
                        health_status: state.health_status,
                        port_bindings: state.port_bindings,
                        ..rt.state_of(id)
                    })
                    &&& state.port_bindings == expected_ports(candidate.process)
                    &&& after.process_records == rt.process_records.insert(id, record)
                    &&& after.pids == rt.pids.insert(id, group)
                    &&& record.process_id == id && record.project_id
                        == candidate.process.project_id
                    &&& record.pid == pid && record.process_group_id == group
                    &&& record.started_at == old_record.started_at
                    &&& (exists|i: int|
                        0 <= i < old_record.command.len() && !is_space(
                            #[trigger] old_record.command[i],
                        )) ==> record.command == old_record.command
                    &&& (forall|i: int|
                        0 <= i < old_record.command.len() ==> is_space(
                            #[trigger] old_record.command[i],
                        )) ==> record.command == candidate.process.command
                    &&& after.effects.last() == (EffectView::WatchMemory {
                        project_id: candidate.process.project_id,
                        process_id: id,
                        pid,
                    })
                    &&& after.effects[rt.effects.len() as int] == (EffectView::Emit {
                        event: RuntimeEvent::Started,
                        runtime: state,
                    })
                    &&& shows(
                        after,
                        rt.effects.len() as int + 1,
                        candidate.process,
                        LogLevel::Info,
                        "Recovered running process group "@ + decimal(group as nat),
                    )
                },
                None => {
                    &&& state.current_status == ProcessStatus::Stopped
                    &&& state == (ProcessRuntimeStateView {
                        stopped_at: Some(now),
                        ..ProcessRuntimeStateView::stopped(id)
                    })
                    &&& after.effects[rt.effects.len() as int] == (EffectView::Emit {
                        event: RuntimeEvent::Stopped,
                        runtime: state,
                    })
                    &&& after.pids == rt.pids && after.process_records == rt.process_records
                    &&& after.effects.len() == rt.effects.len() + 2
                    &&& shows(
                        after,
                        rt.effects.len() as int + 1,
                        candidate.process,
                        LogLevel::Info,
                        "Previous process group "@ + decimal(group as nat)
                            + " is no longer running"@,
                    )
                },
            }
        }),
{
    crate::laws::starting::lemma_blank_iff(candidate.record.command);
}

proof fn lemma_candidates_before(
    rt: RuntimeView,
    config: ConfigView,
    list: Seq<CandidateView>,
    a: Seq<Option<u32>>,
    b: Seq<Option<u32>>,
    now: Timestamp,
    x: Seq<StampView>,
    y: Seq<StampView>,
)
    requires
        forall|i: int| 0 <= i < list.len() ==> #[trigger] a[i] == b[i],
        forall|i: int| 0 <= i < list.len() ==> #[trigger] x[i] == y[i],
    ensures
        rt.with_candidates(config, list, a, now, x) == rt.with_candidates(config, list, b, now, y),
    decreases list.len(),
{
    if list.len() > 0 {
        lemma_candidates_before(rt, config, list.drop_last(), a, b, now, x, y);
        assert(a[list.len() - 1] == b[list.len() - 1]);
        assert(x[list.len() - 1] == y[list.len() - 1]);
    }
}

/// Records are looked into one after the other, each with its own answer, and the states after a
/// recovery are those that this leaves.
pub proof fn law_recovery_goes_by_order(
    rt: RuntimeView,
    config: ConfigView,
    list: Seq<CandidateView>,
    candidate: CandidateView,
    live_pids: Seq<Option<u32>>,
    live: Option<u32>,
    now: Timestamp,
    stamps: Seq<StampView>,
    stamp: StampView,
)
    requires
        list.len() == live_pids.len(),
        list.len() == stamps.len(),
    ensures
        rt.with_candidates(config, Seq::empty(), live_pids, now, stamps) == rt,
        rt.with_candidates(
            config,
            list.push(candidate),
            live_pids.push(live),
            now,
            stamps.push(stamp),
        ) == rt.with_candidates(config, list, live_pids, now, stamps).with_candidate(
            config,
            candidate,
            live,
            now,
            stamp,
        ),
        rt.process_records != Map::<Seq<char>, RuntimeProcessRecordView>::empty()
            ==> rt.with_recovery(config, list, live_pids, now, stamps).states == rt.with_candidates(
            config,
            list,
            live_pids,
            now,
            stamps,
        ).states,
{
    assert(list.push(candidate).drop_last() =~= list);
    lemma_candidates_before(
        rt,
        config,
        list,
        live_pids,
        live_pids.push(live),
        now,
        stamps,
        stamps.push(stamp),
    );
}

/// What is tracked after a recovery are those found alive, each with its number and group, and
/// no others. Nothing is done where nothing was recorded.
pub proof fn law_recovered_are_those_alive(
    rt: RuntimeView,
    config: ConfigView,
    list: Seq<CandidateView>,
    live_pids: Seq<Option<u32>>,
    now: Timestamp,
    stamps: Seq<StampView>,
    id: Seq<char>,
)
    ensures
        ({
            let after = rt.with_recovery(config, list, live_pids, now, stamps);
            &&& rt.process_records == Map::<Seq<char>, RuntimeProcessRecordView>::empty() ==> after
                == rt
            &&& rt.process_records != Map::<Seq<char>, RuntimeProcessRecordView>::empty() ==> {
                &&& after.process_records.contains_key(id) <==> exists|i: int|
                    0 <= i < list.len() && (#[trigger] list[i]).process.id == id
                        && live_pids[i] is Some
                &&& after.process_records.contains_key(id) ==> {
                    &&& after.pids.contains_key(id)
                    &&& after.process_records[id].process_id == id
                    &&& exists|i: int|
                        0 <= i < list.len() && (#[trigger] list[i]).process.id == id
                            && live_pids[i] == Some(after.process_records[id].pid) && (
                        list[i].record.process_group_id != 0 ==> after.pids[id]
                            == list[i].record.process_group_id)
                }
                &&& after.pids.contains_key(id) == after.process_records.contains_key(id)
                &&& after.effects.last() == (EffectView::StoreRecords {
                    records: after.process_records,
                })
            }
        }),
{
    lemma_recovered_ids(list, live_pids, id);
}

proof fn lemma_recovered_ids(list: Seq<CandidateView>, live_pids: Seq<Option<u32>>, id: Seq<char>)
    ensures
        ({
            let records = recovered_records(list, live_pids);
            &&& records.contains_key(id) <==> exists|i: int|
                0 <= i < list.len() && (#[trigger] list[i]).process.id == id
                    && live_pids[i] is Some
            &&& records.contains_key(id) ==> {
                &&& records[id].process_id == id
                &&& exists|i: int|
                    0 <= i < list.len() && (#[trigger] list[i]).process.id == id && live_pids[i]
                        == Some(records[id].pid) && records[id].process_group_id
                        == crate::tracking::group_of(list[i].record)
            }
        }),
    decreases list.len(),
{
    if list.len() > 0 {
        let front = list.drop_last();
        let n = list.len() - 1;
        lemma_recovered_ids(front, live_pids, id);
        let before = recovered_records(front, live_pids);
        let records = recovered_records(list, live_pids);
        assert(list[n] == list.last());
        if before.contains_key(id) && !(list[n].process.id == id && live_pids[n] is Some) {
            let i = choose|i: int|
                0 <= i < front.len() && (#[trigger] front[i]).process.id == id && live_pids[i]
                    == Some(before[id].pid) && before[id].process_group_id
                    == crate::tracking::group_of(front[i].record);
            assert(list[i] == front[i]);
            assert(records[id] == before[id]);
        }
        if exists|i: int|
            0 <= i < list.len() && (#[trigger] list[i]).process.id == id && live_pids[i] is Some {
            let i = choose|i: int|
                0 <= i < list.len() && (#[trigger] list[i]).process.id == id
                    && live_pids[i] is Some;
            if i < n {
                assert(front[i] == list[i]);
            }
        }
    }
}

/// What is left of a process when the application goes: one that survived runs on under the
/// number that was found of it; one that was tracked and did not has stopped; others are as they
/// were. What is tracked are the survivors.
pub proof fn law_what_is_left_behind(
    rt: RuntimeView,
    records: Map<Seq<char>, RuntimeProcessRecordView>,
    survivors: Map<Seq<char>, RuntimeProcessRecordView>,
    now: Timestamp,
    id: Seq<char>,
)
    requires
        records != Map::<Seq<char>, RuntimeProcessRecordView>::empty(),
        rt.states.contains_key(id),
        rt.states[id].process_id == id,
    ensures
        ({
            let after = rt.with_shutdown(records, survivors, now);
            let before = rt.states[id];
            let state = after.states[id];
            &&& after.states.dom() == rt.states.dom()
            &&& survivors.contains_key(id) ==> state.current_status == ProcessStatus::Running
                && state.pid == Some(survivors[id].pid) && state.stopped_at is None
            &&& !survivors.contains_key(id) && records.contains_key(id) ==> state.current_status
                == ProcessStatus::Stopped && state.pid is None && state.stopped_at == Some(now)
                && state.memory_usage is None
            &&& !survivors.contains_key(id) && !records.contains_key(id) ==> state == before
            &&& state == (ProcessRuntimeStateView {
                current_status: state.current_status,
                pid: state.pid,
                stopped_at: state.stopped_at,
                memory_usage: state.memory_usage,
                ..before
            })
            &&& survivors.contains_key(id) ==> state.memory_usage == before.memory_usage
            &&& after.logs == rt.logs && after.stopping_processes == rt.stopping_processes
            &&& after.remote_pids == rt.remote_pids
            &&& after.process_records == survivors
            &&& after.pids.contains_key(id) <==> survivors.contains_key(id)
            &&& after.effects == rt.effects.push(EffectView::StoreRecords { records: survivors })
        }),
{
    let after = rt.with_shutdown(records, survivors, now);
    assert(after.states.dom() =~= rt.states.dom());
}

/// A group that was signalled and still has a live process survives under its number, as far as
/// the list of records goes; others do not.
pub proof fn law_survivors(
    list: Seq<(Seq<char>, RuntimeProcessRecordView)>,
    live_pids: Seq<Option<u32>>,
    id: Seq<char>,
)
    ensures
        ({
            let left = surviving_records(list, live_pids);
            &&& left.contains_key(id) <==> exists|i: int|
                0 <= i < list.len() && (#[trigger] list[i]).0 == id && live_pids[i] is Some
            &&& left.contains_key(id) ==> exists|i: int|
                0 <= i < list.len() && (#[trigger] list[i]).0 == id && live_pids[i] == Some(
                    left[id].pid,
                ) && left[id].command == list[i].1.command && left[id].started_at
                    == list[i].1.started_at && left[id].process_id == list[i].1.process_id
                    && left[id].project_id == list[i].1.project_id && (if list[i].1.process_group_id
                    == 0 {
                    left[id].process_group_id == list[i].1.pid
                } else {
                    left[id].process_group_id == list[i].1.process_group_id
                })
        }),
    decreases list.len(),
{
    if list.len() > 0 {
        let front = list.drop_last();
        let n = list.len() - 1;
        law_survivors(front, live_pids, id);
        let before = surviving_records(front, live_pids);
        let left = surviving_records(list, live_pids);
        assert(list[n] == list.last());
        assert(forall|i: int| 0 <= i < n ==> list[i] == #[trigger] front[i]);
        if before.contains_key(id) && !(list[n].0 == id && live_pids[n] is Some) {
            assert(left[id] == before[id]);
            let i = choose|i: int|
                0 <= i < front.len() && (#[trigger] front[i]).0 == id && live_pids[i] == Some(
                    before[id].pid,
                ) && before[id].command == front[i].1.command && before[id].started_at
                    == front[i].1.started_at && before[id].process_id == front[i].1.process_id
                    && before[id].project_id == front[i].1.project_id && (
                if front[i].1.process_group_id == 0 {
                    before[id].process_group_id == front[i].1.pid
                } else {
                    before[id].process_group_id == front[i].1.process_group_id
                });
            assert(list[i] == front[i]);
        }
        if exists|i: int|
            0 <= i < list.len() && (#[trigger] list[i]).0 == id && live_pids[i] is Some {
            let i = choose|i: int|
                0 <= i < list.len() && (#[trigger] list[i]).0 == id && live_pids[i] is Some;
            if i < n {
                assert(front[i] == list[i]);
            }
        }
    }
}

} // verus!
