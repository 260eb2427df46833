//! What is found in the configuration.
use vstd::prelude::*;

use crate::lookup::first_where;
use crate::models::{ConfigView, MachineView, ProcessDefinitionView, ProjectView};

verus! {

/// An item that is wanted stands at a position, and none before it is wanted.
pub open spec fn first_at<T>(list: Seq<T>, wanted: spec_fn(T) -> bool, k: int) -> bool {
    &&& 0 <= k < list.len()
    &&& wanted(list[k])
    &&& forall|m: int| 0 <= m < k ==> !wanted(#[trigger] list[m])
}

pub proof fn lemma_first_at<T>(list: Seq<T>, wanted: spec_fn(T) -> bool)
    ensures
        match first_where(list, wanted) {
            Some(item) => exists|k: int| #[trigger] first_at(list, wanted, k) && list[k] == item,
            None => forall|m: int| 0 <= m < list.len() ==> !wanted(#[trigger] list[m]),
        },
    decreases list.len(),
{
    if list.len() > 0 {
        if wanted(list[0]) {
            assert(first_at(list, wanted, 0));
        } else {
            let rest = list.drop_first();
            lemma_first_at(rest, wanted);
            match first_where(rest, wanted) {
                Some(item) => {
                    let k = choose|k: int| #[trigger] first_at(rest, wanted, k) && rest[k] == item;
                    assert forall|m: int| 0 <= m < k + 1 implies !wanted(#[trigger] list[m]) by {
                        if m > 0 {
                            assert(!wanted(rest[m - 1]));
                        }
                    }
                    assert(first_at(list, wanted, k + 1));
                    assert(list[k + 1] == item);
                },
                None => {
                    assert forall|m: int| 0 <= m < list.len() implies !wanted(
                        #[trigger] list[m],
                    ) by {
                        if m > 0 {
                            assert(!wanted(rest[m - 1]));
                        }
                    }
                },
            }
        }
    }
}

/// The process with an id is the first that has it, and there is none where none has it.
pub proof fn law_process_found_by_id(config: ConfigView, id: Seq<char>)
    ensures
        match config.process(id) {
            Some(process) => process.id == id && exists|k: int|
                #![trigger config.processes[k]]
                0 <= k < config.processes.len() && config.processes[k] == process && forall|m: int|
                    0 <= m < k ==> (#[trigger] config.processes[m]).id != id,
            None => forall|m: int|
                0 <= m < config.processes.len() ==> (#[trigger] config.processes[m]).id != id,
        },
{
    let wanted = |process: ProcessDefinitionView| process.id == id;
    lemma_first_at(config.processes, wanted);
    if let Some(process) = config.process(id) {
        let k = choose|k: int| #[trigger]
            first_at(config.processes, wanted, k) && config.processes[k] == process;
        assert forall|m: int| 0 <= m < k implies (#[trigger] config.processes[m]).id != id by {
            assert(!wanted(config.processes[m]));
        }
    } else {
        assert forall|m: int| 0 <= m < config.processes.len() implies (
        #[trigger] config.processes[m]).id != id by {
            assert(!wanted(config.processes[m]));
        }
    }
}

/// The project with an id is the first that has it, and there is none where none has it.
pub proof fn law_project_found_by_id(config: ConfigView, id: Seq<char>)
    ensures
        match config.project(id) {
            Some(project) => project.id == id && exists|k: int|
                #![trigger config.projects[k]]
                0 <= k < config.projects.len() && config.projects[k] == project && forall|m: int|
                    0 <= m < k ==> (#[trigger] config.projects[m]).id != id,
            None => forall|m: int|
                0 <= m < config.projects.len() ==> (#[trigger] config.projects[m]).id != id,
        },
{
    let wanted = |project: ProjectView| project.id == id;
    lemma_first_at(config.projects, wanted);
    if let Some(project) = config.project(id) {
        let k = choose|k: int| #[trigger]
            first_at(config.projects, wanted, k) && config.projects[k] == project;
        assert forall|m: int| 0 <= m < k implies (#[trigger] config.projects[m]).id != id by {
            assert(!wanted(config.projects[m]));
        }
    } else {
        assert forall|m: int| 0 <= m < config.projects.len() implies (
        #[trigger] config.projects[m]).id != id by {
            assert(!wanted(config.projects[m]));
        }
    }
}

/// The process of a project that has a key is the first of that project with that key.
pub proof fn law_process_found_by_key(config: ConfigView, project_id: Seq<char>, key: Seq<char>)
    ensures
        match config.process_by_key(project_id, key) {
            Some(process) => process.project_id == project_id && process.key == key && exists|
                k: int,
            |
                #![trigger config.processes[k]]
                0 <= k < config.processes.len() && config.processes[k] == process && forall|m: int|
                    0 <= m < k ==> (#[trigger] config.processes[m]).project_id != project_id
                        || config.processes[m].key != key,
            None => forall|m: int|
                0 <= m < config.processes.len() ==> (#[trigger] config.processes[m]).project_id
                    != project_id || config.processes[m].key != key,
        },
{
    let wanted = |process: ProcessDefinitionView|
        process.project_id == project_id && process.key == key;
    lemma_first_at(config.processes, wanted);
    if let Some(process) = config.process_by_key(project_id, key) {
        let k = choose|k: int| #[trigger]
            first_at(config.processes, wanted, k) && config.processes[k] == process;
        assert forall|m: int| 0 <= m < k implies (#[trigger] config.processes[m]).project_id
            != project_id || config.processes[m].key != key by {
            assert(!wanted(config.processes[m]));
        }
    } else {
        assert forall|m: int| 0 <= m < config.processes.len() implies (
        #[trigger] config.processes[m]).project_id != project_id || config.processes[m].key
            != key by {
            assert(!wanted(config.processes[m]));
        }
    }
}

/// A process runs on another machine exactly if it names a machine, and the first one of that
/// name is not this machine.
pub proof fn law_remote_machine_is_the_named_one(config: ConfigView, process: ProcessDefinitionView)
    ensures
        match config.remote_machine(process) {
            Some(machine) => process.machine_id == Some(machine.id) && !machine.is_default_local
                && exists|k: int|
                #![trigger config.machines[k]]
                0 <= k < config.machines.len() && config.machines[k] == machine && forall|m: int|
                    0 <= m < k ==> (#[trigger] config.machines[m]).id != machine.id,
            None => forall|k: int|
                #![trigger config.machines[k]]
                0 <= k < config.machines.len() && process.machine_id == Some(config.machines[k].id)
                    && (forall|m: int|
                    0 <= m < k ==> (#[trigger] config.machines[m]).id != config.machines[k].id)
                    ==> config.machines[k].is_default_local,
        },
{
    if let Some(id) = process.machine_id {
        let wanted = |machine: MachineView| machine.id == id;
        lemma_first_at(config.machines, wanted);
        match config.machine(id) {
            Some(machine) => {
                let k = choose|k: int| #[trigger]
                    first_at(config.machines, wanted, k) && config.machines[k] == machine;
                assert forall|m: int| 0 <= m < k implies (#[trigger] config.machines[m]).id
                    != id by {
                    assert(!wanted(config.machines[m]));
                }
                assert(wanted(config.machines[k]));
                assert forall|j: int|
                    #![trigger config.machines[j]]
                    0 <= j < config.machines.len() && process.machine_id == Some(
                        config.machines[j].id,
                    ) && (forall|m: int|
                        0 <= m < j ==> (#[trigger] config.machines[m]).id
                            != config.machines[j].id) implies j == k by {
                    if j < k {
                        assert(config.machines[j].id != id);
                    }
                    if k < j {
                        assert(config.machines[k].id != config.machines[j].id);
                    }
                }
            },
            None => {
                assert forall|m: int| 0 <= m < config.machines.len() implies (
                #[trigger] config.machines[m]).id != id by {
                    assert(!wanted(config.machines[m]));
                }
            },
        }
    }
}

/// One more process comes last among those of its project and is none of another's.
pub proof fn law_processes_of_a_project(
    config: ConfigView,
    process: ProcessDefinitionView,
    project_id: Seq<char>,
)
    ensures
        (ConfigView { processes: Seq::empty(), ..config }).processes_of(project_id).len() == 0,
        (ConfigView { processes: config.processes.push(process), ..config }).processes_of(
            project_id,
        ) == (if process.project_id == project_id {
            config.processes_of(project_id).push(process)
        } else {
            config.processes_of(project_id)
        }),
{
    assert(config.processes.push(process).drop_last() =~= config.processes);
}

/// The project and the process are those of their ids.
pub proof fn law_pair_is_both(config: ConfigView, project_id: Seq<char>, process_id: Seq<char>)
    ensures
        match config.pair(project_id, process_id) {
            Some((project, process)) => config.project(project_id) == Some(project)
                && config.process(process_id) == Some(process),
            None => config.project(project_id) is None || config.process(process_id) is None,
        },
{
}

} // verus!
