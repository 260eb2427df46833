//! What is shown of projects.
use vstd::prelude::*;

use crate::models::{ProcessRuntimeStateView, ProcessStatus, ProjectStatus};
use crate::status::{active, failing, launching, project_status, resting};

verus! {

/// A project with a process that failed, crashed, is blocked or waits has failed where all of
/// its processes are like that, and is degraded where others are not.
pub proof fn law_failures_are_never_hidden(states: Seq<ProcessRuntimeStateView>, i: int)
    requires
        0 <= i < states.len(),
        states[i].current_status == ProcessStatus::Failed || states[i].current_status
            == ProcessStatus::Crashed || states[i].current_status == ProcessStatus::Blocked
            || states[i].current_status == ProcessStatus::WaitingDependency,
    ensures
        project_status(states) == ProjectStatus::Failed || project_status(states)
            == ProjectStatus::Degraded,
        project_status(states) == ProjectStatus::Failed <==> forall|k: int|
            0 <= k < states.len() ==> (#[trigger] states[k]).current_status == ProcessStatus::Failed
                || states[k].current_status == ProcessStatus::Crashed || states[k].current_status
                == ProcessStatus::Blocked || states[k].current_status
                == ProcessStatus::WaitingDependency,
{
    assert(failing(states[i].current_status));
    if project_status(states) == ProjectStatus::Failed {
        assert forall|k: int| 0 <= k < states.len() implies failing(
            (#[trigger] states[k]).current_status,
        ) by {
        }
    }
}

/// A project is stopped exactly if every process is stopped or idle.
pub proof fn law_stopped_means_all_at_rest(states: Seq<ProcessRuntimeStateView>)
    ensures
        project_status(states) == ProjectStatus::Stopped <==> forall|k: int|
            0 <= k < states.len() ==> (#[trigger] states[k]).current_status
                == ProcessStatus::Stopped || states[k].current_status == ProcessStatus::Idle,
{
    if states.len() > 0 {
        if project_status(states) == ProjectStatus::Stopped {
            assert forall|k: int| 0 <= k < states.len() implies resting(
                (#[trigger] states[k]).current_status,
            ) by {
            }
        }
        if forall|k: int|
            0 <= k < states.len() ==> (#[trigger] states[k]).current_status
                == ProcessStatus::Stopped || states[k].current_status == ProcessStatus::Idle {
            assert(resting(states[0].current_status));
            assert forall|k: int| 0 <= k < states.len() implies resting(
                (#[trigger] states[k]).current_status,
            ) && !failing(states[k].current_status) && !launching(states[k].current_status) by {
            }
        }
    }
}

/// A project runs exactly if it has processes and all of them run.
pub proof fn law_running_means_all_run(states: Seq<ProcessRuntimeStateView>)
    ensures
        project_status(states) == ProjectStatus::Running <==> states.len() > 0 && forall|k: int|
            0 <= k < states.len() ==> (#[trigger] states[k]).current_status
                == ProcessStatus::Running,
{
    if states.len() > 0 {
        if forall|k: int|
            0 <= k < states.len() ==> (#[trigger] states[k]).current_status
                == ProcessStatus::Running {
            assert(!failing(states[0].current_status));
            assert forall|k: int| 0 <= k < states.len() implies !failing(
                (#[trigger] states[k]).current_status,
            ) && !launching(states[k].current_status) by {
            }
        }
    }
}

/// A project is starting exactly if a process is starting or queued and none failed, crashed, is
/// blocked or waits.
pub proof fn law_starting_means_one_starts(states: Seq<ProcessRuntimeStateView>)
    ensures
        project_status(states) == ProjectStatus::Starting <==> (exists|k: int|
            0 <= k < states.len() && ((#[trigger] states[k]).current_status
                == ProcessStatus::Starting || states[k].current_status == ProcessStatus::Queued))
            && forall|k: int|
            0 <= k < states.len() ==> (#[trigger] states[k]).current_status != ProcessStatus::Failed
                && states[k].current_status != ProcessStatus::Crashed && states[k].current_status
                != ProcessStatus::Blocked && states[k].current_status
                != ProcessStatus::WaitingDependency,
{
    if exists|k: int|
        0 <= k < states.len() && ((#[trigger] states[k]).current_status == ProcessStatus::Starting
            || states[k].current_status == ProcessStatus::Queued) {
        let k = choose|k: int|
            0 <= k < states.len() && ((#[trigger] states[k]).current_status
                == ProcessStatus::Starting || states[k].current_status == ProcessStatus::Queued);
        assert(!failing(states[k].current_status));
    }
}

/// A process is busy exactly if it runs, starts, is queued or is being stopped.
pub proof fn law_active_statuses(status: ProcessStatus)
    ensures
        active(status) <==> status == ProcessStatus::Running || status == ProcessStatus::Starting
            || status == ProcessStatus::Queued || status == ProcessStatus::Stopping,
        failing(status) <==> status == ProcessStatus::Failed || status == ProcessStatus::Crashed
            || status == ProcessStatus::Blocked || status == ProcessStatus::WaitingDependency,
{
}

} // verus!
