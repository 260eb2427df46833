//! How processes and the requests to stop them are kept track of.
use vstd::prelude::*;

use crate::laws::stopping::follows_group;
use crate::models::{ConfigView, HealthStatus, ProcessRuntimeStateView, RuntimeProcessRecordView};
use crate::platform::unix::{reply_error, signed, GroupReplyView};
use crate::platform::{group_error_text, GroupErrorView};
use crate::runtime::{event_name, notification, EffectView, RuntimeEvent, RuntimeView};
use crate::signals::real_group;
use crate::text::decimal;
use crate::tracking::{group_of, tracked_groups};

verus! {

/// A record is of the group that it names, or of its process's own where it names none.
pub proof fn law_group_of_a_record(record: RuntimeProcessRecordView)
    ensures
        record.process_group_id != 0 ==> group_of(record) == record.process_group_id,
        record.process_group_id == 0 ==> group_of(record) == record.pid,
{
}

/// A process that is tracked has its record and the number of its group, and no other changes.
pub proof fn law_tracking_reads_back(
    rt: RuntimeView,
    record: RuntimeProcessRecordView,
    other: Seq<char>,
)
    ensures
        ({
            let after = rt.with_tracked(record);
            let id = record.process_id;
            &&& after.process_records.contains_key(id) && after.process_records[id] == record
            &&& after.pids.contains_key(id) && after.pids[id] == record.process_group_id
            &&& record.process_group_id != 0 ==> after.tracked_group(id) == Some(
                record.process_group_id,
            )
            &&& other != id ==> after.tracked_group(other) == rt.tracked_group(other)
                && after.pids.contains_key(other) == rt.pids.contains_key(other)
                && after.pids[other] == rt.pids[other]
            &&& after.states == rt.states && after.effects == rt.effects
        }),
{
}

/// The group of a process that is tracked.
pub proof fn law_group_that_is_followed(rt: RuntimeView, process_id: Seq<char>, group: u32)
    ensures
        rt.tracked_group(process_id) == Some(group) <==> follows_group(rt, process_id, group),
        rt.tracked_group(process_id) is None <==> !rt.process_records.contains_key(process_id),
{
}

/// The number of a process is replaced only where its group is the one tracked.
pub proof fn law_number_replaced(rt: RuntimeView, process_id: Seq<char>, pid: u32, group: u32)
    ensures
        !follows_group(rt, process_id, group) ==> rt.with_tracked_pid(process_id, pid, group) == rt,
        follows_group(rt, process_id, group) ==> {
            let after = rt.with_tracked_pid(process_id, pid, group);
            &&& after.process_records == rt.process_records.insert(
                process_id,
                after.process_records[process_id],
            )
            &&& after.process_records[process_id].pid == pid
            &&& after.process_records[process_id].process_group_id == group
            &&& after.process_records[process_id].started_at
                == rt.process_records[process_id].started_at
            &&& after.process_records[process_id].command == rt.process_records[process_id].command
            &&& after.process_records[process_id].project_id
                == rt.process_records[process_id].project_id
            &&& after.process_records[process_id].process_id
                == rt.process_records[process_id].process_id
            &&& after.pids == rt.pids.insert(process_id, group)
            &&& after.states == rt.states && after.effects == rt.effects
        },
{
}

/// A process that is not tracked any more has neither record nor number, and no other changes. By
/// its group it is let go only where that group is the one tracked.
pub proof fn law_letting_go(rt: RuntimeView, process_id: Seq<char>, group: u32)
    ensures
        rt.without_tracked(process_id).process_records == rt.process_records.remove(process_id),
        rt.without_tracked(process_id).pids == rt.pids.remove(process_id),
        !follows_group(rt, process_id, group) ==> rt.without_tracked_group(process_id, group) == rt,
        follows_group(rt, process_id, group) ==> {
            let after = rt.without_tracked_group(process_id, group);
            &&& after.process_records == rt.process_records.remove(process_id)
            &&& after.pids == (if rt.pids.contains_key(process_id) && rt.pids[process_id] != group {
                rt.pids
            } else {
                rt.pids.remove(process_id)
            })
            &&& after.states == rt.states && after.effects == rt.effects
        },
{
    if follows_group(rt, process_id, group) {
        let after = rt.without_tracked_group(process_id, group);
        assert(rt.pids.contains_key(process_id) || rt.pids.remove(process_id) =~= rt.pids);
    }
}

/// Records that are taken over give every process the number of its group, and no other process
/// is tracked.
pub proof fn law_records_taken_over(
    rt: RuntimeView,
    records: Map<Seq<char>, RuntimeProcessRecordView>,
    id: Seq<char>,
)
    ensures
        ({
            let after = rt.with_records(records);
            &&& after.process_records == records
            &&& after.pids.contains_key(id) <==> records.contains_key(id)
            &&& records.contains_key(id) ==> after.pids[id] == (if records[id].process_group_id
                == 0 {
                records[id].pid
            } else {
                records[id].process_group_id
            })
            &&& after.states == rt.states && after.effects == rt.effects
        }),
{
}

/// A group is tracked exactly if some record is of it.
pub proof fn law_followed_groups(records: Map<Seq<char>, RuntimeProcessRecordView>, group: u32)
    ensures
        tracked_groups(records).contains(group) <==> exists|id: Seq<char>| #[trigger]
            records.contains_key(id) && (records[id].process_group_id == group && group != 0
                || records[id].process_group_id == 0 && records[id].pid == group),
{
    if tracked_groups(records).contains(group) {
        let id = choose|id: Seq<char>| #[trigger]
            records.contains_key(id) && group_of(records[id]) == group;
        assert(records.contains_key(id));
    }
    if exists|id: Seq<char>| #[trigger]
        records.contains_key(id) && (records[id].process_group_id == group && group != 0
            || records[id].process_group_id == 0 && records[id].pid == group) {
        let id = choose|id: Seq<char>| #[trigger]
            records.contains_key(id) && (records[id].process_group_id == group && group != 0
                || records[id].process_group_id == 0 && records[id].pid == group);
        assert(records.contains_key(id) && group_of(records[id]) == group);
    }
}

/// A request to stop is remembered under the process's id and the number of the group, with a
/// colon between.
pub proof fn law_request_remembered(
    rt: RuntimeView,
    process_id: Seq<char>,
    group: u32,
    key: Seq<char>,
)
    ensures
        rt.stop_requested(process_id, group) <==> rt.stopping_processes.contains(
            process_id + ":"@ + decimal(group as nat),
        ),
        rt.with_stop_requested(process_id, group).stopping_processes.contains(key)
            <==> rt.stopping_processes.contains(key) || key == process_id + ":"@ + decimal(
            group as nat,
        ),
        rt.without_stop_requested(process_id, group).stopping_processes.contains(key)
            <==> rt.stopping_processes.contains(key) && key != process_id + ":"@ + decimal(
            group as nat,
        ),
        rt.with_stop_requested(process_id, group).states == rt.states,
        rt.without_stop_requested(process_id, group).states == rt.states,
{
}

/// A state that is set is that of its process from then on, whoever listens is told of it, and
/// no other state changes.
pub proof fn law_state_set_is_told(
    rt: RuntimeView,
    config: ConfigView,
    state: ProcessRuntimeStateView,
    event: RuntimeEvent,
    other: Seq<char>,
)
    ensures
        ({
            let after = rt.with_state(config, state, event);
            let n = rt.effects.len() as int;
            &&& after.states.contains_key(state.process_id)
            &&& after.states[state.process_id] == state
            &&& other != state.process_id ==> after.states.contains_key(other)
                == rt.states.contains_key(other) && after.states[other] == rt.states[other]
            &&& n < after.effects.len() <= n + 2
            &&& after.effects.take(n) == rt.effects
            &&& after.effects[n] == (EffectView::Emit { event, runtime: state })
            &&& after.effects.len() == n + 2 <==> notification(config, event, state) is Some
            &&& notification(config, event, state) matches Some((title, body)) ==> after.effects[n
                + 1] == (EffectView::Notify { title, body })
            &&& after.pids == rt.pids && after.process_records == rt.process_records
            &&& after.logs == rt.logs
        }),
{
    let after = rt.with_state(config, state, event);
    assert(after.effects.take(rt.effects.len() as int) =~= rt.effects);
}

/// What happens to processes is announced under these names.
pub proof fn law_names_of_events(event: RuntimeEvent)
    ensures
        event == RuntimeEvent::Started ==> event_name(event) == "process_started"@,
        event == RuntimeEvent::Stopped ==> event_name(event) == "process_stopped"@,
        event == RuntimeEvent::Failed ==> event_name(event) == "process_failed"@,
        event == RuntimeEvent::HealthChanged ==> event_name(event) == "process_health_changed"@,
        event == RuntimeEvent::MetricsChanged ==> event_name(event) == "process_metrics_changed"@,
{
}

/// The watch over a process looks at the number and the group that its record has, as long as it
/// has one.
pub proof fn law_what_is_watched(rt: RuntimeView, process_id: Seq<char>)
    ensures
        match rt.watch_target(process_id) {
            Some(target) => rt.process_records.contains_key(process_id) && target.pid
                == rt.process_records[process_id].pid && follows_group(
                rt,
                process_id,
                target.process_group_id,
            ),
            None => !rt.process_records.contains_key(process_id),
        },
{
}

/// A group can be signalled exactly if its number is neither nought nor one.
pub proof fn law_real_groups(group: u32)
    ensures
        real_group(group) <==> group != 0 && group != 1,
{
}

/// The number of a group is handed to the system as a signed one with the same bits.
pub proof fn law_signed_numbers(group: u32)
    ensures
        i32::MIN <= signed(group) <= i32::MAX,
        signed(group) % 0x1_0000_0000 == group,
        group <= i32::MAX ==> signed(group) == group,
{
}

/// A signal that was delivered went well; the other replies are errors of their kind.
pub proof fn law_replies_to_signals(message: Seq<char>)
    ensures
        reply_error(GroupReplyView::Delivered) is None,
        reply_error(GroupReplyView::NoSuchGroup) == Some(GroupErrorView::NotFound),
        reply_error(GroupReplyView::Refused { message }) == Some(GroupErrorView::Other(message)),
        group_error_text(GroupErrorView::Other(message)) == message,
        group_error_text(GroupErrorView::NotFound) == "no such process group"@,
{
}

/// People are told of a failure, and of a health that is bad or degraded, of a configured
/// process, where they want to be, and of nothing else. They are told the name of the process,
/// what happened, its project, and the last error where there is one.
pub proof fn law_what_people_are_told(
    config: ConfigView,
    event: RuntimeEvent,
    state: ProcessRuntimeStateView,
)
    ensures
        notification(config, event, state) is Some <==> config.settings.notifications_enabled
            && config.process(state.process_id) is Some && (event == RuntimeEvent::Failed || (event
            == RuntimeEvent::HealthChanged && (state.health_status == Some(HealthStatus::Unhealthy)
            || state.health_status == Some(HealthStatus::Degraded)))),
        notification(config, event, state) matches Some((title, body)) ==> {
            let process = config.process(state.process_id)->0;
            &&& event == RuntimeEvent::Failed ==> title == process.name + " failed"@
            &&& event == RuntimeEvent::HealthChanged ==> title == process.name
                + " health degraded"@
            &&& config.project(process.project_id) is Some && state.last_error is Some ==> body
                == config.project(process.project_id)->0.name + ": "@ + state.last_error->0
            &&& config.project(process.project_id) is Some && state.last_error is None ==> body
                == config.project(process.project_id)->0.name + ": status changed"@
            &&& config.project(process.project_id) is None && state.last_error is Some ==> body
                == "Project: "@ + state.last_error->0
            &&& config.project(process.project_id) is None && state.last_error is None ==> body
                == "Project: status changed"@
        },
{
    reveal_strlit("Project");
    reveal_strlit(": ");
    reveal_strlit("Project: ");
    reveal_strlit(": status changed");
    reveal_strlit("Project: status changed");
    assert("Project"@ + ": "@ =~= "Project: "@);
    assert("Project"@ + ": status changed"@ =~= "Project: status changed"@);
}

} // verus!
