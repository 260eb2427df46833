//! Finding configured projects, processes and machines.
use vstd::prelude::*;

use crate::models::{
    ApiError, ApiErrorView, Config, ConfigView, Duplicate, Machine, MachineView, ProcessDefinition,
    ProcessDefinitionView, Project, ProjectView,
};
use crate::text::same_text;

verus! {

// ---------------------------------------------------------------------------
// Lists
// ---------------------------------------------------------------------------

/// The first item that is wanted.
pub open spec fn first_where<T>(list: Seq<T>, wanted: spec_fn(T) -> bool) -> Option<T>
    decreases list.len(),
{
    if list.len() == 0 {
        None
    } else if wanted(list[0]) {
        Some(list[0])
    } else {
        first_where(list.drop_first(), wanted)
    }
}

/// An item that is wanted, none before it being wanted, is the first.
pub proof fn lemma_first_is<T>(list: Seq<T>, wanted: spec_fn(T) -> bool, i: int)
    requires
        0 <= i < list.len(),
        wanted(list[i]),
        forall|k: int| 0 <= k < i ==> !wanted(#[trigger] list[k]),
    ensures
        first_where(list, wanted) == Some(list[i]),
    decreases list.len(),
{
    if i > 0 {
        assert(!wanted(list[0]));
        let rest = list.drop_first();
        assert forall|k: int| 0 <= k < i - 1 implies !wanted(#[trigger] rest[k]) by {
            assert(!wanted(list[k + 1]));
        }
        lemma_first_is(rest, wanted, i - 1);
    }
}

/// Where no item is wanted there is no first.
pub proof fn lemma_first_none<T>(list: Seq<T>, wanted: spec_fn(T) -> bool)
    requires
        forall|k: int| 0 <= k < list.len() ==> !wanted(#[trigger] list[k]),
    ensures
        first_where(list, wanted) is None,
    decreases list.len(),
{
    if list.len() > 0 {
        assert(!wanted(list[0]));
        let rest = list.drop_first();
        assert forall|k: int| 0 <= k < rest.len() implies !wanted(#[trigger] rest[k]) by {
            assert(!wanted(list[k + 1]));
        }
        lemma_first_none(rest, wanted);
    }
}

/// What the first item that is wanted has: it is in the list and it is wanted.
pub proof fn lemma_first_found<T>(list: Seq<T>, wanted: spec_fn(T) -> bool)
    ensures
        first_where(list, wanted) matches Some(item) ==> wanted(item) && list.contains(item),
        first_where(list, wanted) is None ==> forall|k: int|
            0 <= k < list.len() ==> !wanted(#[trigger] list[k]),
    decreases list.len(),
{
    if list.len() > 0 {
        if wanted(list[0]) {
            assert(list.contains(list[0]));
        } else {
            let rest = list.drop_first();
            lemma_first_found(rest, wanted);
            match first_where(rest, wanted) {
                Some(item) => {
                    let k = choose|k: int| 0 <= k < rest.len() && rest[k] == item;
                    assert(list[k + 1] == item);
                },
                None => {
                    assert forall|k: int| 0 <= k < list.len() implies !wanted(
                        #[trigger] list[k],
                    ) by {
                        if k > 0 {
                            assert(!wanted(rest[k - 1]));
                        }
                    }
                },
            }
        }
    }
}

/// The items that are kept, in their order.
pub open spec fn kept_where<T>(list: Seq<T>, kept: spec_fn(T) -> bool) -> Seq<T>
    decreases list.len(),
{
    if list.len() == 0 {
        Seq::empty()
    } else if kept(list.last()) {
        kept_where(list.drop_last(), kept).push(list.last())
    } else {
        kept_where(list.drop_last(), kept)
    }
}

/// An item is among the kept ones exactly if it is in the list and kept.
pub proof fn lemma_kept_contains<T>(list: Seq<T>, kept: spec_fn(T) -> bool, item: T)
    ensures
        kept_where(list, kept).contains(item) <==> list.contains(item) && kept(item),
    decreases list.len(),
{
    if list.len() > 0 {
        let front = list.drop_last();
        lemma_kept_contains(front, kept, item);
        assert(list =~= front.push(list.last()));
        if list.contains(item) && !front.contains(item) {
            let k = choose|k: int| 0 <= k < list.len() && list[k] == item;
            if k < front.len() {
                assert(front[k] == item);
            }
        }
        if front.contains(item) {
            let k = choose|k: int| 0 <= k < front.len() && front[k] == item;
            assert(list[k] == item);
        }
        assert(list[list.len() - 1] == list.last());
        let rest = kept_where(front, kept);
        if kept(list.last()) {
            let all = rest.push(list.last());
            assert(all[rest.len() as int] == list.last());
            if rest.contains(item) {
                let k = choose|k: int| 0 <= k < rest.len() && rest[k] == item;
                assert(all[k] == item);
            }
            if all.contains(item) && item != list.last() {
                let k = choose|k: int| 0 <= k < all.len() && all[k] == item;
                assert(rest[k] == item);
            }
        }
    } else {
        assert(!kept_where(list, kept).contains(item));
    }
}

/// No more items are kept than there are.
pub proof fn lemma_kept_len<T>(list: Seq<T>, kept: spec_fn(T) -> bool)
    ensures
        kept_where(list, kept).len() <= list.len(),
    decreases list.len(),
{
    if list.len() > 0 {
        lemma_kept_len(list.drop_last(), kept);
    }
}

/// Puts an item at the end.
pub fn push_item<T: DeepView>(list: &mut Vec<T>, item: T)
    ensures
        final(list).deep_view() == old(list).deep_view().push(item.deep_view()),
{
    list.push(item);
    assert(list.deep_view() =~= old(list).deep_view().push(item.deep_view()));
}

/// The items from the last to the first.
pub fn reverse_items<T: Duplicate>(list: &Vec<T>) -> (r: Vec<T>)
    ensures
        r.deep_view() == list.deep_view().reverse(),
{
    let mut r: Vec<T> = Vec::new();
    let mut i: usize = list.len();
    while i > 0
        invariant
            i <= list@.len(),
            r.deep_view() =~= list.deep_view().reverse().take(list@.len() - i),
        decreases i,
    {
        i -= 1;
        push_item(&mut r, list[i].duplicate());
    }
    assert(list.deep_view().reverse().take(list@.len() as int) =~= list.deep_view().reverse());
    r
}

/// Whether a number is in a list.
pub fn contains_number(list: &Vec<u32>, n: u32) -> (r: bool)
    ensures
        r == list@.contains(n),
{
    let mut i: usize = 0;
    while i < list.len()
        invariant
            i <= list@.len(),
            forall|k: int| 0 <= k < i ==> list@[k] != n,
        decreases list@.len() - i,
    {
        if list[i] == n {
            return true;
        }
        i += 1;
    }
    false
}

// ---------------------------------------------------------------------------
// The configuration
// ---------------------------------------------------------------------------

impl ConfigView {
    /// The process with an id.
    pub open spec fn process(self, id: Seq<char>) -> Option<ProcessDefinitionView> {
        first_where(self.processes, |process: ProcessDefinitionView| process.id == id)
    }

    /// The project with an id.
    pub open spec fn project(self, id: Seq<char>) -> Option<ProjectView> {
        first_where(self.projects, |project: ProjectView| project.id == id)
    }

    /// The machine with an id.
    pub open spec fn machine(self, id: Seq<char>) -> Option<MachineView> {
        first_where(self.machines, |machine: MachineView| machine.id == id)
    }

    /// The process of a project that has a key.
    pub open spec fn process_by_key(
        self,
        project_id: Seq<char>,
        key: Seq<char>,
    ) -> Option<ProcessDefinitionView> {
        first_where(
            self.processes,
            |process: ProcessDefinitionView| process.project_id == project_id && process.key == key,
        )
    }

    /// The processes of a project.
    pub open spec fn processes_of(self, project_id: Seq<char>) -> Seq<ProcessDefinitionView> {
        kept_where(
            self.processes,
            |process: ProcessDefinitionView| process.project_id == project_id,
        )
    }

    /// The machine other than this one that a process runs on.
    pub open spec fn remote_machine(self, process: ProcessDefinitionView) -> Option<MachineView> {
        match process.machine_id {
            Some(id) => match self.machine(id) {
                Some(machine) if !machine.is_default_local => Some(machine),
                _ => None,
            },
            None => None,
        }
    }

    /// The project and the process with the given ids, where both are configured.
    pub open spec fn pair(self, project_id: Seq<char>, process_id: Seq<char>) -> Option<
        (ProjectView, ProcessDefinitionView),
    > {
        match (self.project(project_id), self.process(process_id)) {
            (Some(project), Some(process)) => Some((project, process)),
            _ => None,
        }
    }
}

pub open spec fn process_not_found() -> ApiErrorView {
    ApiErrorView::new("PROCESS_NOT_FOUND"@, "Process not found"@, false)
}

pub open spec fn project_not_found() -> ApiErrorView {
    ApiErrorView::new("PROJECT_NOT_FOUND"@, "Project not found"@, false)
}

/// The error for an id that no process has.
pub fn process_not_found_error() -> (r: ApiError)
    ensures
        r.deep_view() == process_not_found(),
{
    ApiError::new("PROCESS_NOT_FOUND", "Process not found", false)
}

/// The error for an id that no project has.
pub fn project_not_found_error() -> (r: ApiError)
    ensures
        r.deep_view() == project_not_found(),
{
    ApiError::new("PROJECT_NOT_FOUND", "Project not found", false)
}

impl Config {
    /// The process with an id.
    pub fn find_process(&self, id: &str) -> (r: Option<&ProcessDefinition>)
        ensures
            r.deep_view() == self.deep_view().process(id@),
    {
        let ghost all = self.processes.deep_view();
        let ghost wanted = |process: ProcessDefinitionView| process.id == id@;
        let mut i: usize = 0;
        while i < self.processes.len()
            invariant
                i <= self.processes@.len(),
                all == self.processes.deep_view(),
                wanted == (|process: ProcessDefinitionView| process.id == id@),
                forall|k: int| 0 <= k < i ==> !wanted(#[trigger] all[k]),
            decreases self.processes@.len() - i,
        {
            if same_text(self.processes[i].id.as_str(), id) {
                proof {
                    lemma_first_is(all, wanted, i as int);
                }
                return Some(&self.processes[i]);
            }
            i += 1;
        }
        proof {
            lemma_first_none(all, wanted);
        }
        None
    }

    /// The project with an id.
    pub fn find_project(&self, id: &str) -> (r: Option<&Project>)
        ensures
            r.deep_view() == self.deep_view().project(id@),
    {
        let ghost all = self.projects.deep_view();
        let ghost wanted = |project: ProjectView| project.id == id@;
        let mut i: usize = 0;
        while i < self.projects.len()
            invariant
                i <= self.projects@.len(),
                all == self.projects.deep_view(),
                wanted == (|project: ProjectView| project.id == id@),
                forall|k: int| 0 <= k < i ==> !wanted(#[trigger] all[k]),
            decreases self.projects@.len() - i,
        {
            if same_text(self.projects[i].id.as_str(), id) {
                proof {
                    lemma_first_is(all, wanted, i as int);
                }
                return Some(&self.projects[i]);
            }
            i += 1;
        }
        proof {
            lemma_first_none(all, wanted);
        }
        None
    }

    /// The machine with an id.
    pub fn find_machine(&self, id: &str) -> (r: Option<&Machine>)
        ensures
            r.deep_view() == self.deep_view().machine(id@),
    {
        let ghost all = self.machines.deep_view();
        let ghost wanted = |machine: MachineView| machine.id == id@;
        let mut i: usize = 0;
        while i < self.machines.len()
            invariant
                i <= self.machines@.len(),
                all == self.machines.deep_view(),
                wanted == (|machine: MachineView| machine.id == id@),
                forall|k: int| 0 <= k < i ==> !wanted(#[trigger] all[k]),
            decreases self.machines@.len() - i,
        {
            if same_text(self.machines[i].id.as_str(), id) {
                proof {
                    lemma_first_is(all, wanted, i as int);
                }
                return Some(&self.machines[i]);
            }
            i += 1;
        }
        proof {
            lemma_first_none(all, wanted);
        }
        None
    }

    /// The process of a project that has a key.
    pub fn find_process_by_key(&self, project_id: &str, key: &str) -> (r: Option<
        &ProcessDefinition,
    >)
        ensures
            r.deep_view() == self.deep_view().process_by_key(project_id@, key@),
    {
        let ghost all = self.processes.deep_view();
        let ghost wanted = |process: ProcessDefinitionView|
            process.project_id == project_id@ && process.key == key@;
        let mut i: usize = 0;
        while i < self.processes.len()
            invariant
                i <= self.processes@.len(),
                all == self.processes.deep_view(),
                wanted == (|process: ProcessDefinitionView|
                    process.project_id == project_id@ && process.key == key@),
                forall|k: int| 0 <= k < i ==> !wanted(#[trigger] all[k]),
            decreases self.processes@.len() - i,
        {
            let candidate = &self.processes[i];
            if same_text(candidate.project_id.as_str(), project_id) && same_text(
                candidate.key.as_str(),
                key,
            ) {
                proof {
                    lemma_first_is(all, wanted, i as int);
                }
                return Some(candidate);
            }
            i += 1;
        }
        proof {
            lemma_first_none(all, wanted);
        }
        None
    }

    /// The processes of a project.
    pub fn processes_of(&self, project_id: &str) -> (r: Vec<ProcessDefinition>)
        ensures
            r.deep_view() == self.deep_view().processes_of(project_id@),
    {
        let ghost all = self.processes.deep_view();
        let ghost kept = |process: ProcessDefinitionView| process.project_id == project_id@;
        let mut r: Vec<ProcessDefinition> = Vec::new();
        let mut i: usize = 0;
        assert(r.deep_view() =~= kept_where(all.take(0), kept));
        while i < self.processes.len()
            invariant
                i <= self.processes@.len(),
                all == self.processes.deep_view(),
                kept == (|process: ProcessDefinitionView| process.project_id == project_id@),
                r.deep_view() == kept_where(all.take(i as int), kept),
            decreases self.processes@.len() - i,
        {
            assert(all.take(i + 1).drop_last() =~= all.take(i as int));
            if same_text(self.processes[i].project_id.as_str(), project_id) {
                push_item(&mut r, self.processes[i].duplicate());
            }
            i += 1;
        }
        assert(all.take(i as int) =~= all);
        r
    }

    /// The machine other than this one that a process runs on.
    pub fn resolve_remote_machine(&self, process: &ProcessDefinition) -> (r: Option<Machine>)
        ensures
            r.deep_view() == self.deep_view().remote_machine(process.deep_view()),
    {
        match &process.machine_id {
            Some(id) => match self.find_machine(id.as_str()) {
                Some(machine) => {
                    if machine.is_default_local {
                        None
                    } else {
                        Some(machine.duplicate())
                    }
                },
                None => None,
            },
            None => None,
        }
    }

    /// The project and the process with the given ids, where both are configured.
    pub fn config_project_process_pair(&self, project_id: &str, process_id: &str) -> (r: Option<
        (Project, ProcessDefinition),
    >)
        ensures
            r.deep_view() == self.deep_view().pair(project_id@, process_id@),
    {
        match self.find_project(project_id) {
            Some(project) => match self.find_process(process_id) {
                Some(process) => Some((project.duplicate(), process.duplicate())),
                None => None,
            },
            None => None,
        }
    }
}

} // verus!
