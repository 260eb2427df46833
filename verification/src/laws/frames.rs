//! What an operation on one process leaves alone.
use vstd::prelude::*;

use crate::models::{LogEntryView, LogLevel, ProcessDefinitionView, ProcessStatus, StreamType};
use crate::runtime::{EffectView, RuntimeView};

verus! {

/// Of all processes but one, the state and what is tracked are as they were, and so are the
/// measurements and the errors of the interface.
pub open spec fn only_touches(
    before: RuntimeView,
    after: RuntimeView,
    process_id: Seq<char>,
) -> bool {
    &&& before.states.remove(process_id) == after.states.remove(process_id)
    &&& before.pids.remove(process_id) == after.pids.remove(process_id)
    &&& before.remote_pids.remove(process_id) == after.remote_pids.remove(process_id)
    &&& before.process_records.remove(process_id) == after.process_records.remove(process_id)
    &&& before.metrics_history == after.metrics_history
    &&& before.frontend_errors == after.frontend_errors
}

/// Nothing that is tracked changed.
pub open spec fn same_tracking(before: RuntimeView, after: RuntimeView) -> bool {
    &&& before.pids == after.pids
    &&& before.remote_pids == after.remote_pids
    &&& before.process_records == after.process_records
}

/// An entry is a line of the application itself about a process.
pub open spec fn says(
    entry: LogEntryView,
    process: ProcessDefinitionView,
    level: LogLevel,
    message: Seq<char>,
) -> bool {
    &&& entry.process_id == process.id
    &&& entry.project_id == process.project_id
    &&& entry.stream == StreamType::System
    &&& entry.level == level
    &&& entry.message == message
    &&& entry.raw == Some(message)
}

/// A line of the application about a process is shown at a place of what is to be done.
pub open spec fn shows(
    rt: RuntimeView,
    k: int,
    process: ProcessDefinitionView,
    level: LogLevel,
    message: Seq<char>,
) -> bool {
    0 <= k < rt.effects.len() && (rt.effects[k] matches EffectView::Log { entry } && says(
        entry,
        process,
        level,
        message,
    ))
}

/// A process of which nothing is known has stopped, and nothing else is said of it.
pub proof fn law_unknown_processes_are_stopped(rt: RuntimeView, process_id: Seq<char>)
    requires
        !rt.states.contains_key(process_id),
    ensures
        ({
            let state = rt.state_of(process_id);
            &&& state.process_id == process_id
            &&& state.current_status == ProcessStatus::Stopped
            &&& state.restart_count == 0
            &&& state.pid is None && state.exit_code is None && state.last_error is None
            &&& state.started_at is None && state.stopped_at is None
            &&& state.memory_usage is None && state.cpu_usage is None
            &&& state.health_status is None && state.last_heartbeat is None
            &&& state.port_bindings.len() == 0
        }),
{
}

/// What is known of a process is its latest state.
pub proof fn law_known_processes_have_their_state(rt: RuntimeView, process_id: Seq<char>)
    requires
        rt.states.contains_key(process_id),
    ensures
        rt.state_of(process_id) == rt.states[process_id],
{
}

} // verus!
