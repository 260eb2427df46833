//! Signalling process groups, with a guard: group 0 is the orchestrator's own and group 1 is
//! that of the first process of the system. A number like that means that the group is not
//! known, so it counts as gone and is never signalled.
use vstd::prelude::*;

use crate::platform::unix::{force_kill_group, group_exists, terminate_group};
use crate::platform::{error_of, GroupError, GroupErrorView};

verus! {

/// A process group that may be signalled.
pub open spec fn real_group(process_group_id: u32) -> bool {
    process_group_id > 1
}

/// Whether a process group may be signalled.
pub fn is_real_group(process_group_id: u32) -> (r: bool)
    ensures
        r == real_group(process_group_id),
{
    process_group_id > 1
}

/// Asks a process group to end.
pub fn term_process_group(process_group_id: u32) -> (r: Result<(), GroupError>)
    ensures
        !real_group(process_group_id) ==> error_of(r) == Some(GroupErrorView::NotFound),
{
    if !is_real_group(process_group_id) {
        return Err(GroupError::NotFound);
    }
    terminate_group(process_group_id)
}

/// Kills a process group.
pub fn force_kill_process_group(process_group_id: u32) -> (r: Result<(), GroupError>)
    ensures
        !real_group(process_group_id) ==> error_of(r) == Some(GroupErrorView::NotFound),
{
    if !is_real_group(process_group_id) {
        return Err(GroupError::NotFound);
    }
    force_kill_group(process_group_id)
}

/// Whether a process group is there.
pub fn process_group_exists(process_group_id: u32) -> (r: bool)
    ensures
        !real_group(process_group_id) ==> !r,
{
    if !is_real_group(process_group_id) {
        return false;
    }
    group_exists(process_group_id)
}

/// Whether there is something to wait for after a group was asked to end: not where it was gone
/// already.
pub fn waits_after_term(result: &Result<(), GroupError>) -> (r: bool)
    ensures
        r == (error_of(*result) != Some(GroupErrorView::NotFound)),
{
    match result {
        Ok(_) => true,
        Err(GroupError::NotFound) => false,
        Err(_) => true,
    }
}

} // verus!
