//! What the states of processes say of them and of their project.
use vstd::prelude::*;

use crate::models::{ProcessRuntimeState, ProcessRuntimeStateView, ProcessStatus, ProjectStatus};

verus! {

/// Being started, running, or being stopped.
pub open spec fn active(status: ProcessStatus) -> bool {
    status is Running || status is Starting || status is Queued || status is Stopping
}

/// In need of attention.
pub open spec fn failing(status: ProcessStatus) -> bool {
    status is Failed || status is Crashed || status is Blocked || status is WaitingDependency
}

/// About to run.
pub open spec fn launching(status: ProcessStatus) -> bool {
    status is Starting || status is Queued
}

/// At rest.
pub open spec fn resting(status: ProcessStatus) -> bool {
    status is Stopped || status is Idle
}

/// Whether a process is being started, runs, or is being stopped.
pub fn is_active(status: ProcessStatus) -> (r: bool)
    ensures
        r == active(status),
{
    matches!(
        status,
        ProcessStatus::Running | ProcessStatus::Starting | ProcessStatus::Queued
            | ProcessStatus::Stopping
    )
}

/// Whether a process needs attention.
pub fn is_failing(status: ProcessStatus) -> (r: bool)
    ensures
        r == failing(status),
{
    matches!(
        status,
        ProcessStatus::Failed | ProcessStatus::Crashed | ProcessStatus::Blocked
            | ProcessStatus::WaitingDependency
    )
}

/// The status of a project whose processes have the given states.
pub open spec fn project_status(states: Seq<ProcessRuntimeStateView>) -> ProjectStatus {
    let all = |held: spec_fn(ProcessStatus) -> bool|
        forall|i: int| 0 <= i < states.len() ==> held((#[trigger] states[i]).current_status);
    let any = |held: spec_fn(ProcessStatus) -> bool|
        exists|i: int| 0 <= i < states.len() && held((#[trigger] states[i]).current_status);
    if states.len() == 0 {
        ProjectStatus::Stopped
    } else if all(|status: ProcessStatus| failing(status)) {
        ProjectStatus::Failed
    } else if any(|status: ProcessStatus| failing(status)) {
        ProjectStatus::Degraded
    } else if any(|status: ProcessStatus| launching(status)) {
        ProjectStatus::Starting
    } else if all(|status: ProcessStatus| status is Running) {
        ProjectStatus::Running
    } else if all(|status: ProcessStatus| resting(status)) {
        ProjectStatus::Stopped
    } else {
        ProjectStatus::Partial
    }
}

/// The status of a project whose processes have the given states.
pub fn derive_project_status(states: &[ProcessRuntimeState]) -> (r: ProjectStatus)
    ensures
        r == project_status(states.deep_view()),
{
    let mut all_failing = true;
    let mut any_failing = false;
    let mut any_launching = false;
    let mut all_running = true;
    let mut all_resting = true;
    let ghost views = states.deep_view();
    let mut i: usize = 0;
    while i < states.len()
        invariant
            i <= states@.len(),
            views == states.deep_view(),
            all_failing == (forall|k: int|
                0 <= k < i ==> failing((#[trigger] views[k]).current_status)),
            any_failing == (exists|k: int|
                0 <= k < i && failing((#[trigger] views[k]).current_status)),
            any_launching == (exists|k: int|
                0 <= k < i && launching((#[trigger] views[k]).current_status)),
            all_running == (forall|k: int|
                0 <= k < i ==> (#[trigger] views[k]).current_status is Running),
            all_resting == (forall|k: int|
                0 <= k < i ==> resting((#[trigger] views[k]).current_status)),
        decreases states@.len() - i,
    {
        let status = states[i].current_status;
        assert(views[i as int].current_status == status);
        if is_failing(status) {
            any_failing = true;
        } else {
            all_failing = false;
        }
        if matches!(status, ProcessStatus::Starting | ProcessStatus::Queued) {
            any_launching = true;
        }
        if !matches!(status, ProcessStatus::Running) {
            all_running = false;
        }
        if !matches!(status, ProcessStatus::Stopped | ProcessStatus::Idle) {
            all_resting = false;
        }
        i += 1;
    }
    if states.len() == 0 {
        ProjectStatus::Stopped
    } else if all_failing {
        ProjectStatus::Failed
    } else if any_failing {
        ProjectStatus::Degraded
    } else if any_launching {
        ProjectStatus::Starting
    } else if all_running {
        ProjectStatus::Running
    } else if all_resting {
        ProjectStatus::Stopped
    } else {
        ProjectStatus::Partial
    }
}

/// A process among the states has the status.
pub open spec fn has_status(states: Seq<ProcessRuntimeStateView>, status: ProcessStatus) -> bool {
    exists|i: int| 0 <= i < states.len() && (#[trigger] states[i]).current_status == status
}

/// The status of a project depends only on which statuses its processes have: neither on their
/// order, nor on how many have the same, nor on anything else in their states.
pub proof fn law_project_status_orderless(
    a: Seq<ProcessRuntimeStateView>,
    b: Seq<ProcessRuntimeStateView>,
)
    requires
        forall|status: ProcessStatus| #[trigger] has_status(a, status) == has_status(b, status),
    ensures
        project_status(a) == project_status(b),
{
    if a.len() > 0 {
        assert(has_status(a, a[0].current_status));
        assert(has_status(b, a[0].current_status));
    }
    if b.len() > 0 {
        assert(has_status(b, b[0].current_status));
        assert(has_status(a, b[0].current_status));
    }
    lemma_all_orderless(a, b, |status: ProcessStatus| failing(status));
    lemma_all_orderless(a, b, |status: ProcessStatus| !failing(status));
    lemma_all_orderless(a, b, |status: ProcessStatus| !launching(status));
    lemma_all_orderless(a, b, |status: ProcessStatus| status is Running);
    lemma_all_orderless(a, b, |status: ProcessStatus| resting(status));
}

proof fn lemma_all_orderless(
    a: Seq<ProcessRuntimeStateView>,
    b: Seq<ProcessRuntimeStateView>,
    held: spec_fn(ProcessStatus) -> bool,
)
    requires
        forall|status: ProcessStatus| #[trigger] has_status(a, status) == has_status(b, status),
    ensures
        (forall|i: int| 0 <= i < a.len() ==> held((#[trigger] a[i]).current_status)) == (forall|
            i: int,
        |
            0 <= i < b.len() ==> held((#[trigger] b[i]).current_status)),
{
    if forall|i: int| 0 <= i < a.len() ==> held((#[trigger] a[i]).current_status) {
        assert forall|i: int| 0 <= i < b.len() implies held(
            (#[trigger] b[i]).current_status,
        ) by {
            assert(has_status(b, b[i].current_status));
            assert(has_status(a, b[i].current_status));
        }
    }
    if forall|i: int| 0 <= i < b.len() ==> held((#[trigger] b[i]).current_status) {
        assert forall|i: int| 0 <= i < a.len() implies held(
            (#[trigger] a[i]).current_status,
        ) by {
            assert(has_status(a, a[i].current_status));
            assert(has_status(b, a[i].current_status));
        }
    }
}

} // verus!
