//! The order in which the processes of a project are started: dependencies first.
use vstd::prelude::*;

use crate::lookup::push_item;
use crate::models::{Config, Duplicate, ProcessDefinition, ProcessDefinitionView};
use crate::text::same_text;
use crate::text_set::TextSet;

verus! {

/// The last item that is wanted.
pub open spec fn last_where<T>(list: Seq<T>, wanted: spec_fn(T) -> bool) -> Option<T>
    decreases list.len(),
{
    if list.len() == 0 {
        None
    } else if wanted(list.last()) {
        Some(list.last())
    } else {
        last_where(list.drop_last(), wanted)
    }
}

/// The process that a key stands for: the last one that has it.
pub open spec fn by_key(list: Seq<ProcessDefinitionView>, key: Seq<char>) -> Option<
    ProcessDefinitionView,
> {
    last_where(list, |process: ProcessDefinitionView| process.key == key)
}

/// The process that an id stands for: the last one that has it.
pub open spec fn by_id(list: Seq<ProcessDefinitionView>, id: Seq<char>) -> Option<
    ProcessDefinitionView,
> {
    last_where(list, |process: ProcessDefinitionView| process.id == id)
}

/// How far a walk along the dependencies has come.
#[verifier::ext_equal]
pub struct Walk {
    pub visited: Set<Seq<char>>,
    pub output: Seq<ProcessDefinitionView>,
}

/// Walking to a process: first to what it depends on, then to itself, and nowhere twice. `None`
/// where more than `depth` processes would be entered one inside the other.
pub open spec fn walk_to(
    list: Seq<ProcessDefinitionView>,
    process: ProcessDefinitionView,
    walk: Walk,
    depth: nat,
) -> Option<Walk>
    decreases depth, 0nat,
{
    if walk.visited.contains(process.id) {
        Some(walk)
    } else if depth == 0 {
        None
    } else {
        match walk_to_keys(list, process.depends_on, walk, (depth - 1) as nat) {
            None => None,
            Some(done) => match by_id(list, process.id) {
                None => Some(done),
                Some(found) => Some(
                    Walk {
                        visited: done.visited.insert(found.id),
                        output: done.output.push(found),
                    },
                ),
            },
        }
    }
}

/// Walking to the processes that keys stand for, one after the other.
pub open spec fn walk_to_keys(
    list: Seq<ProcessDefinitionView>,
    keys: Seq<Seq<char>>,
    walk: Walk,
    depth: nat,
) -> Option<Walk>
    decreases depth, keys.len() + 1,
{
    if keys.len() == 0 {
        Some(walk)
    } else {
        match walk_to_keys(list, keys.drop_last(), walk, depth) {
            None => None,
            Some(done) => match by_key(list, keys.last()) {
                None => Some(done),
                Some(dependency) => walk_to(list, dependency, done, depth),
            },
        }
    }
}

/// Walking to all of `processes`, one after the other.
pub open spec fn walk_to_all(
    list: Seq<ProcessDefinitionView>,
    processes: Seq<ProcessDefinitionView>,
    depth: nat,
) -> Option<Walk>
    decreases processes.len(),
{
    if processes.len() == 0 {
        Some(Walk { visited: Set::empty(), output: Seq::empty() })
    } else {
        match walk_to_all(list, processes.drop_last(), depth) {
            None => None,
            Some(done) => walk_to(list, processes.last(), done, depth),
        }
    }
}

/// The walk to all the processes comes to an end.
pub open spec fn orderable(list: Seq<ProcessDefinitionView>) -> bool {
    exists|depth: nat| (#[trigger] walk_to_all(list, list, depth)) is Some
}

/// The processes in the order of the walk.
pub open spec fn start_order(list: Seq<ProcessDefinitionView>) -> Seq<ProcessDefinitionView> {
    let depth = choose|depth: nat| (#[trigger] walk_to_all(list, list, depth)) is Some;
    walk_to_all(list, list, depth)->0.output
}

/// Every process ranks above those that it depends on.
pub open spec fn ranked(
    list: Seq<ProcessDefinitionView>,
    rank: spec_fn(ProcessDefinitionView) -> nat,
) -> bool {
    forall|i: int, k: int|
        #![trigger list[i].depends_on[k]]
        0 <= i < list.len() && 0 <= k < list[i].depends_on.len() ==> (by_key(
            list,
            list[i].depends_on[k],
        ) matches Some(dependency) ==> rank(dependency) < rank(list[i]))
}

/// No process depends on itself, directly or through others.
pub open spec fn acyclic(list: Seq<ProcessDefinitionView>) -> bool {
    exists|rank: spec_fn(ProcessDefinitionView) -> nat| ranked(list, rank)
}

// ---------------------------------------------------------------------------
// Lemmas on the walk
// ---------------------------------------------------------------------------

/// What the last item that is wanted has: it is in the list and it is wanted.
pub proof fn lemma_last_found<T>(list: Seq<T>, wanted: spec_fn(T) -> bool)
    ensures
        last_where(list, wanted) matches Some(item) ==> wanted(item) && list.contains(item),
        last_where(list, wanted) is None ==> forall|k: int|
            0 <= k < list.len() ==> !wanted(#[trigger] list[k]),
    decreases list.len(),
{
    if list.len() > 0 {
        assert(list[list.len() - 1] == list.last());
        if !wanted(list.last()) {
            let front = list.drop_last();
            lemma_last_found(front, wanted);
            match last_where(front, wanted) {
                Some(item) => {
                    let k = choose|k: int| 0 <= k < front.len() && front[k] == item;
                    assert(list[k] == item);
                },
                None => {
                    assert forall|k: int| 0 <= k < list.len() implies !wanted(
                        #[trigger] list[k],
                    ) by {
                        if k < front.len() {
                            assert(!wanted(front[k]));
                        }
                    }
                },
            }
        }
    }
}

/// More room for the walk does not change it.
proof fn lemma_walk_deeper(
    list: Seq<ProcessDefinitionView>,
    process: ProcessDefinitionView,
    walk: Walk,
    depth: nat,
    deeper: nat,
)
    requires
        depth <= deeper,
        walk_to(list, process, walk, depth) is Some,
    ensures
        walk_to(list, process, walk, deeper) == walk_to(list, process, walk, depth),
    decreases depth, 0nat,
{
    if !walk.visited.contains(process.id) {
        lemma_walk_keys_deeper(
            list,
            process.depends_on,
            walk,
            (depth - 1) as nat,
            (deeper - 1) as nat,
        );
    }
}

proof fn lemma_walk_keys_deeper(
    list: Seq<ProcessDefinitionView>,
    keys: Seq<Seq<char>>,
    walk: Walk,
    depth: nat,
    deeper: nat,
)
    requires
        depth <= deeper,
        walk_to_keys(list, keys, walk, depth) is Some,
    ensures
        walk_to_keys(list, keys, walk, deeper) == walk_to_keys(list, keys, walk, depth),
    decreases depth, keys.len() + 1,
{
    if keys.len() > 0 {
        lemma_walk_keys_deeper(list, keys.drop_last(), walk, depth, deeper);
        let done = walk_to_keys(list, keys.drop_last(), walk, depth)->0;
        match by_key(list, keys.last()) {
            Some(dependency) => {
                lemma_walk_deeper(list, dependency, done, depth, deeper);
            },
            None => {},
        }
    }
}

proof fn lemma_walk_all_deeper(
    list: Seq<ProcessDefinitionView>,
    processes: Seq<ProcessDefinitionView>,
    depth: nat,
    deeper: nat,
)
    requires
        depth <= deeper,
        walk_to_all(list, processes, depth) is Some,
    ensures
        walk_to_all(list, processes, deeper) == walk_to_all(list, processes, depth),
    decreases processes.len(),
{
    if processes.len() > 0 {
        lemma_walk_all_deeper(list, processes.drop_last(), depth, deeper);
        let done = walk_to_all(list, processes.drop_last(), depth)->0;
        lemma_walk_deeper(list, processes.last(), done, depth, deeper);
    }
}

/// However deep the walk may go, where it ends it gives the same order.
pub proof fn law_order_is_unique(list: Seq<ProcessDefinitionView>, depth: nat)
    requires
        walk_to_all(list, list, depth) is Some,
    ensures
        orderable(list),
        start_order(list) == walk_to_all(list, list, depth)->0.output,
{
    let chosen = choose|depth: nat| (#[trigger] walk_to_all(list, list, depth)) is Some;
    if chosen <= depth {
        lemma_walk_all_deeper(list, list, chosen, depth);
    } else {
        lemma_walk_all_deeper(list, list, depth, chosen);
    }
}

// ---------------------------------------------------------------------------
// The walk
// ---------------------------------------------------------------------------

fn find_by_key<'a>(list: &'a Vec<ProcessDefinition>, key: &str) -> (r: Option<
    &'a ProcessDefinition,
>)
    ensures
        r.deep_view() == by_key(list.deep_view(), key@),
{
    let ghost all = list.deep_view();
    let ghost wanted = |process: ProcessDefinitionView| process.key == key@;
    let mut i: usize = list.len();
    assert(all.take(i as int) =~= all);
    while i > 0
        invariant
            i <= list@.len(),
            all == list.deep_view(),
            wanted == (|process: ProcessDefinitionView| process.key == key@),
            last_where(all.take(i as int), wanted) == last_where(all, wanted),
        decreases i,
    {
        assert(all.take(i as int).drop_last() =~= all.take(i - 1));
        i -= 1;
        if same_text(list[i].key.as_str(), key) {
            return Some(&list[i]);
        }
    }
    None
}

/// The process that an id stands for: the last one that has it.
pub fn find_by_id<'a>(list: &'a Vec<ProcessDefinition>, id: &str) -> (r: Option<
    &'a ProcessDefinition,
>)
    ensures
        r.deep_view() == by_id(list.deep_view(), id@),
{
    let ghost all = list.deep_view();
    let ghost wanted = |process: ProcessDefinitionView| process.id == id@;
    let mut i: usize = list.len();
    assert(all.take(i as int) =~= all);
    while i > 0
        invariant
            i <= list@.len(),
            all == list.deep_view(),
            wanted == (|process: ProcessDefinitionView| process.id == id@),
            last_where(all.take(i as int), wanted) == last_where(all, wanted),
        decreases i,
    {
        assert(all.take(i as int).drop_last() =~= all.take(i - 1));
        i -= 1;
        if same_text(list[i].id.as_str(), id) {
            return Some(&list[i]);
        }
    }
    None
}

/// Walks to a process, after what it depends on.
fn visit_process(
    process: &ProcessDefinition,
    list: &Vec<ProcessDefinition>,
    visited: &mut TextSet,
    output: &mut Vec<ProcessDefinition>,
    Ghost(depth): Ghost<nat>,
)
    requires
        walk_to(
            list.deep_view(),
            process.deep_view(),
            (Walk { visited: old(visited).deep_view(), output: old(output).deep_view() }),
            depth,
        ) is Some,
    ensures
        walk_to(
            list.deep_view(),
            process.deep_view(),
            (Walk { visited: old(visited).deep_view(), output: old(output).deep_view() }),
            depth,
        ) == Some(
            (Walk { visited: final(visited).deep_view(), output: final(output).deep_view() }),
        ),
    decreases depth,
{
    if visited.contains(process.id.as_str()) {
        return;
    }
    let ghost start = Walk { visited: visited.deep_view(), output: output.deep_view() };
    let ghost below = (depth - 1) as nat;
    let ghost keys = process.depends_on.deep_view();
    let mut i: usize = 0;
    assert(keys.take(keys.len() as int) =~= keys);
    while i < process.depends_on.len()
        invariant
            i <= process.depends_on@.len(),
            keys == process.depends_on.deep_view(),
            depth > 0,
            below == depth - 1,
            keys.take(keys.len() as int) == keys,
            walk_to_keys(list.deep_view(), keys, start, below) is Some,
            walk_to_keys(list.deep_view(), keys.take(i as int), start, below) == Some(
                (Walk { visited: visited.deep_view(), output: output.deep_view() }),
            ),
        decreases process.depends_on@.len() - i,
    {
        proof {
            assert(keys.take(i + 1).drop_last() =~= keys.take(i as int));
            lemma_walk_prefix(list.deep_view(), keys, start, below, i + 1);
        }
        match find_by_key(list, process.depends_on[i].as_str()) {
            Some(dependency) => {
                visit_process(dependency, list, visited, output, Ghost(below));
            },
            None => {},
        }
        i += 1;
    }
    match find_by_id(list, process.id.as_str()) {
        Some(found) => {
            visited.insert(found.id.clone());
            push_item(output, found.duplicate());
        },
        None => {},
    }
}

/// A walk that comes to its end came past all the keys before.
proof fn lemma_walk_prefix(
    list: Seq<ProcessDefinitionView>,
    keys: Seq<Seq<char>>,
    walk: Walk,
    depth: nat,
    i: int,
)
    requires
        0 <= i <= keys.len(),
        walk_to_keys(list, keys, walk, depth) is Some,
    ensures
        walk_to_keys(list, keys.take(i), walk, depth) is Some,
    decreases keys.len(),
{
    if i == keys.len() {
        assert(keys.take(i) =~= keys);
    } else {
        assert(keys.drop_last().take(i) =~= keys.take(i));
        lemma_walk_prefix(list, keys.drop_last(), walk, depth, i);
    }
}

proof fn lemma_walk_all_prefix(
    list: Seq<ProcessDefinitionView>,
    processes: Seq<ProcessDefinitionView>,
    depth: nat,
    i: int,
)
    requires
        0 <= i <= processes.len(),
        walk_to_all(list, processes, depth) is Some,
    ensures
        walk_to_all(list, processes.take(i), depth) is Some,
    decreases processes.len(),
{
    if i == processes.len() {
        assert(processes.take(i) =~= processes);
    } else {
        assert(processes.drop_last().take(i) =~= processes.take(i));
        lemma_walk_all_prefix(list, processes.drop_last(), depth, i);
    }
}

/// The processes of a project, each after those that it depends on. Processes that depend on
/// each other in a circle have no order.
pub fn ordered_processes(config: &Config, project_id: &str) -> (r: Vec<ProcessDefinition>)
    requires
        orderable(config.deep_view().processes_of(project_id@)),
    ensures
        r.deep_view() == start_order(config.deep_view().processes_of(project_id@)),
{
    let list = config.processes_of(project_id);
    let ghost all = list.deep_view();
    let ghost depth = choose|depth: nat| (#[trigger] walk_to_all(all, all, depth)) is Some;
    let mut visited = TextSet::new();
    let mut output: Vec<ProcessDefinition> = Vec::new();
    let mut i: usize = 0;
    assert(all.take(all.len() as int) =~= all);
    assert(output.deep_view() =~= Seq::<ProcessDefinitionView>::empty());
    while i < list.len()
        invariant
            i <= list@.len(),
            all == list.deep_view(),
            walk_to_all(all, all, depth) is Some,
            walk_to_all(all, all.take(i as int), depth) == Some(
                (Walk { visited: visited.deep_view(), output: output.deep_view() }),
            ),
        decreases list@.len() - i,
    {
        proof {
            assert(all.take(i + 1).drop_last() =~= all.take(i as int));
            lemma_walk_all_prefix(all, all, depth, i + 1);
        }
        visit_process(&list[i], &list, &mut visited, &mut output, Ghost(depth));
        i += 1;
    }
    assert(all.take(i as int) =~= all);
    output
}

/// Walks to a process where that enters at most `depth` processes one inside the other.
fn visit_within(
    process: &ProcessDefinition,
    list: &Vec<ProcessDefinition>,
    visited: &mut TextSet,
    output: &mut Vec<ProcessDefinition>,
    depth: usize,
) -> (r: bool)
    ensures
        walk_to(
            list.deep_view(),
            process.deep_view(),
            (Walk { visited: old(visited).deep_view(), output: old(output).deep_view() }),
            depth as nat,
        ) == (if r {
            Some(Walk { visited: final(visited).deep_view(), output: final(output).deep_view() })
        } else {
            None
        }),
    decreases depth,
{
    if visited.contains(process.id.as_str()) {
        return true;
    }
    if depth == 0 {
        return false;
    }
    let ghost start = Walk { visited: visited.deep_view(), output: output.deep_view() };
    let ghost keys = process.depends_on.deep_view();
    let mut i: usize = 0;
    while i < process.depends_on.len()
        invariant
            i <= process.depends_on@.len(),
            keys == process.depends_on.deep_view(),
            depth > 0,
            walk_to_keys(list.deep_view(), keys.take(i as int), start, (depth - 1) as nat) == Some(
                (Walk { visited: visited.deep_view(), output: output.deep_view() }),
            ),
            start == (Walk {
                visited: old(visited).deep_view(),
                output: old(output).deep_view(),
            }),
            !start.visited.contains(process.id@),
        decreases process.depends_on@.len() - i,
    {
        assert(keys.take(i + 1).drop_last() =~= keys.take(i as int));
        match find_by_key(list, process.depends_on[i].as_str()) {
            Some(dependency) => {
                if !visit_within(dependency, list, visited, output, depth - 1) {
                    proof {
                        if walk_to_keys(list.deep_view(), keys, start, (depth - 1) as nat) is Some {
                            lemma_walk_prefix(
                                list.deep_view(),
                                keys,
                                start,
                                (depth - 1) as nat,
                                i + 1,
                            );
                        }
                    }
                    return false;
                }
            },
            None => {},
        }
        i += 1;
    }
    assert(keys.take(i as int) =~= keys);
    match find_by_id(list, process.id.as_str()) {
        Some(found) => {
            visited.insert(found.id.clone());
            push_item(output, found.duplicate());
        },
        None => {},
    }
    true
}

/// Whether the processes of a project can be put in order. Where no process depends on itself,
/// directly or through others, they can; where no two have the same id, only then.
pub fn order_exists(config: &Config, project_id: &str) -> (r: bool)
    ensures
        r ==> orderable(config.deep_view().processes_of(project_id@)),
        acyclic(config.deep_view().processes_of(project_id@)) ==> r,
        distinct_ids(config.deep_view().processes_of(project_id@)) ==> r == orderable(
            config.deep_view().processes_of(project_id@),
        ),
{
    let list = config.processes_of(project_id);
    let ghost all = list.deep_view();
    let mut visited = TextSet::new();
    let mut output: Vec<ProcessDefinition> = Vec::new();
    let depth: usize = list.len();
    let mut i: usize = 0;
    assert(output.deep_view() =~= Seq::<ProcessDefinitionView>::empty());
    while i < list.len()
        invariant
            i <= list@.len(),
            all == list.deep_view(),
            all == config.deep_view().processes_of(project_id@),
            depth == all.len(),
            walk_to_all(all, all.take(i as int), depth as nat) == Some(
                (Walk { visited: visited.deep_view(), output: output.deep_view() }),
            ),
        decreases list@.len() - i,
    {
        assert(all.take(i + 1).drop_last() =~= all.take(i as int));
        if !visit_within(&list[i], &list, &mut visited, &mut output, depth) {
            proof {
                if distinct_ids(all) && orderable(all) {
                    law_order_means_acyclic(all);
                }
                if acyclic(all) {
                    lemma_acyclic_depth(all);
                    lemma_walk_all_prefix(all, all, depth as nat, i + 1);
                }
            }
            return false;
        }
        i += 1;
    }
    assert(all.take(i as int) =~= all);
    true
}

// ---------------------------------------------------------------------------
// Laws
// ---------------------------------------------------------------------------

/// How many processes rank below `bound`.
spec fn ranks_below(
    list: Seq<ProcessDefinitionView>,
    rank: spec_fn(ProcessDefinitionView) -> nat,
    bound: nat,
) -> nat
    decreases list.len(),
{
    if list.len() == 0 {
        0
    } else {
        ranks_below(list.drop_last(), rank, bound) + if rank(list.last()) < bound {
            1nat
        } else {
            0nat
        }
    }
}

proof fn lemma_ranks_below(
    list: Seq<ProcessDefinitionView>,
    rank: spec_fn(ProcessDefinitionView) -> nat,
    low: nat,
    high: nat,
)
    requires
        low <= high,
    ensures
        ranks_below(list, rank, low) <= ranks_below(list, rank, high) <= list.len(),
        forall|item: ProcessDefinitionView| #[trigger]
            list.contains(item) && rank(item) >= low ==> ranks_below(list, rank, low) + 1
                <= list.len(),
        forall|item: ProcessDefinitionView| #[trigger]
            list.contains(item) && low <= rank(item) < high ==> ranks_below(list, rank, low) + 1
                <= ranks_below(list, rank, high),
    decreases list.len(),
{
    if list.len() > 0 {
        let front = list.drop_last();
        lemma_ranks_below(front, rank, low, high);
        assert forall|item: ProcessDefinitionView| #[trigger] list.contains(item) implies item
            == list.last() || front.contains(item) by {
            let k = choose|k: int| 0 <= k < list.len() && list[k] == item;
            if k < front.len() {
                assert(front[k] == item);
            }
        }
    }
}

proof fn lemma_ranked_walk(
    list: Seq<ProcessDefinitionView>,
    rank: spec_fn(ProcessDefinitionView) -> nat,
    process: ProcessDefinitionView,
    walk: Walk,
    depth: nat,
)
    requires
        ranked(list, rank),
        list.contains(process),
        depth > ranks_below(list, rank, rank(process)),
    ensures
        walk_to(list, process, walk, depth) is Some,
    decreases depth, 0nat,
{
    let at = choose|k: int| 0 <= k < list.len() && list[k] == process;
    lemma_ranked_walk_keys(
        list,
        rank,
        at,
        process.depends_on.len() as int,
        walk,
        (depth - 1) as nat,
    );
    assert(process.depends_on.take(process.depends_on.len() as int) =~= process.depends_on);
}

proof fn lemma_ranked_walk_keys(
    list: Seq<ProcessDefinitionView>,
    rank: spec_fn(ProcessDefinitionView) -> nat,
    at: int,
    i: int,
    walk: Walk,
    depth: nat,
)
    requires
        ranked(list, rank),
        0 <= at < list.len(),
        0 <= i <= list[at].depends_on.len(),
        depth >= ranks_below(list, rank, rank(list[at])),
    ensures
        walk_to_keys(list, list[at].depends_on.take(i), walk, depth) is Some,
    decreases depth, i + 1,
{
    let keys = list[at].depends_on.take(i);
    if i > 0 {
        assert(keys.drop_last() =~= list[at].depends_on.take(i - 1));
        lemma_ranked_walk_keys(list, rank, at, i - 1, walk, depth);
        let done = walk_to_keys(list, keys.drop_last(), walk, depth)->0;
        let key = list[at].depends_on[i - 1];
        assert(keys.last() == key);
        match by_key(list, key) {
            Some(dependency) => {
                lemma_last_found(list, |process: ProcessDefinitionView| process.key == key);
                assert(rank(dependency) < rank(list[at]));
                lemma_ranks_below(list, rank, rank(dependency), rank(list[at]));
                lemma_ranked_walk(list, rank, dependency, done, depth);
            },
            None => {},
        }
    }
}

proof fn lemma_acyclic_all(
    list: Seq<ProcessDefinitionView>,
    rank: spec_fn(ProcessDefinitionView) -> nat,
    i: int,
)
    requires
        ranked(list, rank),
        0 <= i <= list.len(),
    ensures
        walk_to_all(list, list.take(i), list.len()) is Some,
    decreases i,
{
    if i > 0 {
        lemma_acyclic_all(list, rank, i - 1);
        assert(list.take(i).drop_last() =~= list.take(i - 1));
        let done = walk_to_all(list, list.take(i - 1), list.len())->0;
        let process = list[i - 1];
        assert(list.contains(process));
        lemma_ranks_below(list, rank, rank(process), rank(process));
        lemma_ranked_walk(list, rank, process, done, list.len());
    }
}

proof fn lemma_acyclic_depth(list: Seq<ProcessDefinitionView>)
    requires
        acyclic(list),
    ensures
        walk_to_all(list, list, list.len()) is Some,
{
    let rank = choose|rank: spec_fn(ProcessDefinitionView) -> nat| ranked(list, rank);
    lemma_acyclic_all(list, rank, list.len() as int);
    assert(list.take(list.len() as int) =~= list);
}

/// Where no process depends on itself, directly or through others, there is an order.
pub proof fn law_acyclic_has_order(list: Seq<ProcessDefinitionView>)
    requires
        acyclic(list),
    ensures
        orderable(list),
{
    lemma_acyclic_depth(list);
}

/// No two processes have the same id.
pub open spec fn distinct_ids(list: Seq<ProcessDefinitionView>) -> bool {
    forall|i: int, j: int|
        #![trigger list[i], list[j]]
        0 <= i < list.len() && 0 <= j < list.len() && i != j ==> list[i].id != list[j].id
}

spec fn listed_before(output: Seq<ProcessDefinitionView>, end: int, id: Seq<char>) -> bool {
    exists|j: int| 0 <= j < end && (#[trigger] output[j]).id == id
}

/// Every dependency of every process of the output stands before it.
spec fn dependencies_before(
    list: Seq<ProcessDefinitionView>,
    output: Seq<ProcessDefinitionView>,
) -> bool {
    forall|i: int, k: int|
        #![trigger output[i].depends_on[k]]
        0 <= i < output.len() && 0 <= k < output[i].depends_on.len() ==> (by_key(
            list,
            output[i].depends_on[k],
        ) matches Some(dependency) ==> listed_before(output, i, dependency.id))
}

spec fn sound(list: Seq<ProcessDefinitionView>, walk: Walk) -> bool {
    &&& forall|id: Seq<char>| #[trigger]
        walk.visited.contains(id) <==> listed_before(walk.output, walk.output.len() as int, id)
    &&& distinct_ids(walk.output)
    &&& forall|i: int| 0 <= i < walk.output.len() ==> list.contains(#[trigger] walk.output[i])
    &&& dependencies_before(list, walk.output)
}

/// A set of ids that holds, with a process, all that it depends on.
spec fn closed_under(list: Seq<ProcessDefinitionView>, ids: Set<Seq<char>>) -> bool {
    forall|i: int, k: int|
        #![trigger list[i].depends_on[k]]
        0 <= i < list.len() && ids.contains(list[i].id) && 0 <= k < list[i].depends_on.len() ==> (
        by_key(list, list[i].depends_on[k]) matches Some(dependency) ==> ids.contains(
            dependency.id,
        ))
}

/// A walk to a process of a closed set stays in the set.
proof fn lemma_walk_stays(
    list: Seq<ProcessDefinitionView>,
    ids: Set<Seq<char>>,
    process: ProcessDefinitionView,
    walk: Walk,
    depth: nat,
)
    requires
        closed_under(list, ids),
        walk.visited.subset_of(ids),
        list.contains(process),
        ids.contains(process.id),
        walk_to(list, process, walk, depth) is Some,
    ensures
        walk_to(list, process, walk, depth)->0.visited.subset_of(ids),
    decreases depth, 0nat,
{
    if !walk.visited.contains(process.id) {
        let at = choose|k: int| 0 <= k < list.len() && list[k] == process;
        assert(process.depends_on.take(process.depends_on.len() as int) =~= process.depends_on);
        assert forall|k: int| 0 <= k < process.depends_on.len() implies (by_key(
            list,
            #[trigger] process.depends_on[k],
        ) matches Some(dependency) ==> ids.contains(dependency.id)) by {
            assert(list[at].depends_on[k] == process.depends_on[k]);
        }
        lemma_walk_keys_stay(list, ids, process.depends_on, walk, (depth - 1) as nat);
        lemma_last_found(list, |other: ProcessDefinitionView| other.id == process.id);
    }
}

proof fn lemma_walk_keys_stay(
    list: Seq<ProcessDefinitionView>,
    ids: Set<Seq<char>>,
    keys: Seq<Seq<char>>,
    walk: Walk,
    depth: nat,
)
    requires
        closed_under(list, ids),
        walk.visited.subset_of(ids),
        forall|k: int|
            0 <= k < keys.len() ==> (by_key(list, #[trigger] keys[k]) matches Some(dependency)
                ==> ids.contains(dependency.id)),
        walk_to_keys(list, keys, walk, depth) is Some,
    ensures
        walk_to_keys(list, keys, walk, depth)->0.visited.subset_of(ids),
    decreases depth, keys.len() + 1,
{
    if keys.len() > 0 {
        let front = keys.drop_last();
        assert forall|k: int| 0 <= k < front.len() implies (by_key(
            list,
            #[trigger] front[k],
        ) matches Some(dependency) ==> ids.contains(dependency.id)) by {
            assert(front[k] == keys[k]);
        }
        lemma_walk_keys_stay(list, ids, front, walk, depth);
        let done = walk_to_keys(list, front, walk, depth)->0;
        let key = keys[keys.len() - 1];
        match by_key(list, key) {
            Some(dependency) => {
                lemma_last_found(list, |process: ProcessDefinitionView| process.key == key);
                lemma_walk_stays(list, ids, dependency, done, depth);
            },
            None => {},
        }
    }
}

/// A walk keeps what was walked before, stays sound, and ends with its process visited.
proof fn lemma_walk_sound(
    list: Seq<ProcessDefinitionView>,
    process: ProcessDefinitionView,
    walk: Walk,
    depth: nat,
)
    requires
        distinct_ids(list),
        sound(list, walk),
        list.contains(process),
        walk_to(list, process, walk, depth) is Some,
    ensures
        sound(list, walk_to(list, process, walk, depth)->0),
        walk.visited.subset_of(walk_to(list, process, walk, depth)->0.visited),
        walk_to(list, process, walk, depth)->0.visited.contains(process.id),
    decreases depth, 0nat,
{
    if !walk.visited.contains(process.id) {
        let at = choose|k: int| 0 <= k < list.len() && list[k] == process;
        let below = (depth - 1) as nat;
        let keys = process.depends_on;
        lemma_walk_keys_sound(list, keys, walk, below);
        let done = walk_to_keys(list, keys, walk, below)->0;
        lemma_last_found(list, |other: ProcessDefinitionView| other.id == process.id);
        let found = by_id(list, process.id)->0;
        assert(found == process) by {
            assert(list[at].id == process.id);
            let other = choose|k: int| 0 <= k < list.len() && list[k] == found;
            assert(list[other].id == list[at].id);
        }
        if done.visited.contains(process.id) {
            let end = choose|j: int|
                0 <= j < done.output.len() && (#[trigger] done.output[j]).id == process.id;
            let ids = Set::new(|id: Seq<char>| listed_before(done.output, end, id));
            assert(done.output[end] == process) by {
                assert(list.contains(done.output[end]));
                let other = choose|k: int| 0 <= k < list.len() && list[k] == done.output[end];
                assert(list[other].id == list[at].id);
            }
            assert(closed_under(list, ids)) by {
                assert forall|i: int, k: int|
                    #![trigger list[i].depends_on[k]]
                    0 <= i < list.len() && ids.contains(list[i].id) && 0 <= k
                        < list[i].depends_on.len() implies (by_key(
                    list,
                    list[i].depends_on[k],
                ) matches Some(dependency) ==> ids.contains(dependency.id)) by {
                    let j = choose|j: int|
                        0 <= j < end && (#[trigger] done.output[j]).id == list[i].id;
                    assert(list.contains(done.output[j]));
                    let other = choose|k: int| 0 <= k < list.len() && list[k] == done.output[j];
                    assert(list[other].id == list[i].id);
                    assert(done.output[j] == list[i]);
                    assert(done.output[j].depends_on[k] == list[i].depends_on[k]);
                    match by_key(list, list[i].depends_on[k]) {
                        Some(dependency) => {
                            assert(listed_before(done.output, j, dependency.id));
                            let m = choose|m: int|
                                0 <= m < j && (#[trigger] done.output[m]).id == dependency.id;
                            assert(listed_before(done.output, end, dependency.id));
                        },
                        None => {},
                    }
                }
            }
            assert forall|k: int| 0 <= k < keys.len() implies (by_key(
                list,
                #[trigger] keys[k],
            ) matches Some(dependency) ==> ids.contains(dependency.id)) by {
                assert(done.output[end].depends_on[k] == keys[k]);
            }
            lemma_walk_output_grows_keys(list, keys, walk, below);
            assert(walk.visited.subset_of(ids)) by {
                assert forall|id: Seq<char>| walk.visited.contains(id) implies ids.contains(id) by {
                    let j = choose|j: int|
                        0 <= j < walk.output.len() && (#[trigger] walk.output[j]).id == id;
                    assert(done.output[j] == walk.output[j]);
                    assert(listed_before(
                        walk.output,
                        walk.output.len() as int,
                        done.output[j].id,
                    ));
                    if end <= j {
                        assert(done.output[end] == walk.output[end]);
                        assert(listed_before(
                            walk.output,
                            walk.output.len() as int,
                            process.id,
                        ));
                    }
                }
            }
            lemma_walk_keys_stay(list, ids, keys, walk, below);
            assert(ids.contains(process.id));
            let j = choose|j: int|
                0 <= j < end && (#[trigger] done.output[j]).id == process.id;
            assert(done.output[j].id == done.output[end].id);
            assert(false);
        }
        let after = Walk {
            visited: done.visited.insert(found.id),
            output: done.output.push(found),
        };
        let n = done.output.len() as int;
        assert(after.output[n] == process);
        assert forall|id: Seq<char>| #[trigger] after.visited.contains(id) <==> listed_before(
            after.output,
            after.output.len() as int,
            id,
        ) by {
            if done.visited.contains(id) {
                let j = choose|j: int| 0 <= j < n && (#[trigger] done.output[j]).id == id;
                assert(after.output[j].id == id);
            }
            if listed_before(after.output, after.output.len() as int, id) {
                let j = choose|j: int| 0 <= j < n + 1 && (#[trigger] after.output[j]).id == id;
                if j < n {
                    assert(done.output[j].id == id);
                    assert(listed_before(done.output, n, id));
                }
            }
        }
        assert forall|i: int, j: int|
            #![trigger after.output[i], after.output[j]]
            0 <= i < n + 1 && 0 <= j < n + 1 && i != j implies after.output[i].id
            != after.output[j].id by {
            if i < n {
                assert(after.output[i] == done.output[i]);
                assert(listed_before(done.output, n, done.output[i].id));
            }
            if j < n {
                assert(after.output[j] == done.output[j]);
                assert(listed_before(done.output, n, done.output[j].id));
            }
        }
        assert forall|i: int, k: int|
            #![trigger after.output[i].depends_on[k]]
            0 <= i < n + 1 && 0 <= k < after.output[i].depends_on.len() implies (by_key(
            list,
            after.output[i].depends_on[k],
        ) matches Some(dependency) ==> listed_before(after.output, i, dependency.id)) by {
            match by_key(list, after.output[i].depends_on[k]) {
                Some(dependency) => {
                    if i < n {
                        assert(done.output[i].depends_on[k] == after.output[i].depends_on[k]);
                        let j = choose|j: int|
                            0 <= j < i && (#[trigger] done.output[j]).id == dependency.id;
                        assert(after.output[j].id == dependency.id);
                    } else {
                        assert(keys[k] == after.output[i].depends_on[k]);
                        assert(done.visited.contains(dependency.id));
                        let j = choose|j: int|
                            0 <= j < n && (#[trigger] done.output[j]).id == dependency.id;
                        assert(after.output[j].id == dependency.id);
                    }
                },
                None => {},
            }
        }
        assert forall|i: int| 0 <= i < n + 1 implies list.contains(#[trigger] after.output[i]) by {
            if i < n {
                assert(list.contains(done.output[i]));
            }
        }
        assert(sound(list, after));
    }
}

proof fn lemma_walk_keys_sound(
    list: Seq<ProcessDefinitionView>,
    keys: Seq<Seq<char>>,
    walk: Walk,
    depth: nat,
)
    requires
        distinct_ids(list),
        sound(list, walk),
        walk_to_keys(list, keys, walk, depth) is Some,
    ensures
        sound(list, walk_to_keys(list, keys, walk, depth)->0),
        walk.visited.subset_of(walk_to_keys(list, keys, walk, depth)->0.visited),
        forall|k: int|
            0 <= k < keys.len() ==> (by_key(list, #[trigger] keys[k]) matches Some(dependency)
                ==> walk_to_keys(list, keys, walk, depth)->0.visited.contains(dependency.id)),
    decreases depth, keys.len() + 1,
{
    if keys.len() > 0 {
        let front = keys.drop_last();
        lemma_walk_keys_sound(list, front, walk, depth);
        let done = walk_to_keys(list, front, walk, depth)->0;
        let key = keys.last();
        match by_key(list, key) {
            Some(dependency) => {
                lemma_last_found(list, |process: ProcessDefinitionView| process.key == key);
                lemma_walk_sound(list, dependency, done, depth);
            },
            None => {},
        }
        let after = walk_to_keys(list, keys, walk, depth)->0;
        assert forall|k: int| 0 <= k < keys.len() implies (by_key(
            list,
            #[trigger] keys[k],
        ) matches Some(dependency) ==> after.visited.contains(dependency.id)) by {
            if k < front.len() {
                assert(front[k] == keys[k]);
            }
        }
    }
}

/// A walk only adds to the end of its output.
proof fn lemma_walk_output_grows(
    list: Seq<ProcessDefinitionView>,
    process: ProcessDefinitionView,
    walk: Walk,
    depth: nat,
)
    requires
        walk_to(list, process, walk, depth) is Some,
    ensures
        walk.output.is_prefix_of(walk_to(list, process, walk, depth)->0.output),
    decreases depth, 0nat,
{
    if !walk.visited.contains(process.id) {
        lemma_walk_output_grows_keys(list, process.depends_on, walk, (depth - 1) as nat);
    }
}

proof fn lemma_walk_output_grows_keys(
    list: Seq<ProcessDefinitionView>,
    keys: Seq<Seq<char>>,
    walk: Walk,
    depth: nat,
)
    requires
        walk_to_keys(list, keys, walk, depth) is Some,
    ensures
        walk.output.is_prefix_of(walk_to_keys(list, keys, walk, depth)->0.output),
    decreases depth, keys.len() + 1,
{
    if keys.len() > 0 {
        lemma_walk_output_grows_keys(list, keys.drop_last(), walk, depth);
        let done = walk_to_keys(list, keys.drop_last(), walk, depth)->0;
        match by_key(list, keys.last()) {
            Some(dependency) => {
                lemma_walk_output_grows(list, dependency, done, depth);
            },
            None => {},
        }
    }
}

proof fn lemma_walk_all_sound(list: Seq<ProcessDefinitionView>, i: int, depth: nat)
    requires
        distinct_ids(list),
        0 <= i <= list.len(),
        walk_to_all(list, list.take(i), depth) is Some,
    ensures
        sound(list, walk_to_all(list, list.take(i), depth)->0),
        forall|k: int|
            0 <= k < i ==> walk_to_all(list, list.take(i), depth)->0.visited.contains(
                (#[trigger] list[k]).id,
            ),
    decreases i,
{
    if i > 0 {
        assert(list.take(i).drop_last() =~= list.take(i - 1));
        lemma_walk_all_sound(list, i - 1, depth);
        let done = walk_to_all(list, list.take(i - 1), depth)->0;
        assert(list.contains(list[i - 1]));
        lemma_walk_sound(list, list[i - 1], done, depth);
    }
}

/// Where ids are distinct, the order lists exactly the processes, each once, and each after
/// everything that it depends on.
pub proof fn law_dependencies_first(list: Seq<ProcessDefinitionView>)
    requires
        distinct_ids(list),
        orderable(list),
    ensures
        distinct_ids(start_order(list)),
        forall|process: ProcessDefinitionView| #[trigger]
            start_order(list).contains(process) <==> list.contains(process),
        forall|i: int, k: int|
            #![trigger start_order(list)[i].depends_on[k]]
            0 <= i < start_order(list).len() && 0 <= k < start_order(list)[i].depends_on.len()
                ==> (by_key(list, start_order(list)[i].depends_on[k]) matches Some(dependency)
                ==> start_order(list).take(i).contains(dependency)),
{
    let depth = choose|depth: nat| (#[trigger] walk_to_all(list, list, depth)) is Some;
    let walk = walk_to_all(list, list, depth)->0;
    let order = start_order(list);
    assert(list.take(list.len() as int) =~= list);
    lemma_walk_all_sound(list, list.len() as int, depth);
    assert forall|process: ProcessDefinitionView| #[trigger]
        order.contains(process) <==> list.contains(process) by {
        if order.contains(process) {
            let i = choose|i: int| 0 <= i < order.len() && order[i] == process;
            assert(list.contains(walk.output[i]));
        }
        if list.contains(process) {
            let at = choose|k: int| 0 <= k < list.len() && list[k] == process;
            assert(walk.visited.contains(list[at].id));
            let j = choose|j: int|
                0 <= j < order.len() && (#[trigger] order[j]).id == list[at].id;
            assert(list.contains(walk.output[j]));
            let other = choose|k: int| 0 <= k < list.len() && list[k] == order[j];
            assert(list[other].id == list[at].id);
            assert(order[j] == process);
        }
    }
    assert forall|i: int, k: int|
        #![trigger order[i].depends_on[k]]
        0 <= i < order.len() && 0 <= k < order[i].depends_on.len() implies (by_key(
        list,
        order[i].depends_on[k],
    ) matches Some(dependency) ==> order.take(i).contains(dependency)) by {
        let key = order[i].depends_on[k];
        match by_key(list, key) {
            Some(dependency) => {
                assert(walk.output[i].depends_on[k] == key);
                let j = choose|j: int| 0 <= j < i && (#[trigger] order[j]).id == dependency.id;
                lemma_last_found(list, |process: ProcessDefinitionView| process.key == key);
                assert(list.contains(walk.output[j]));
                let a = choose|a: int| 0 <= a < list.len() && list[a] == order[j];
                let b = choose|b: int| 0 <= b < list.len() && list[b] == dependency;
                assert(list[a].id == list[b].id);
                assert(order.take(i)[j] == dependency);
            },
            None => {},
        }
    }
}

/// Where ids are distinct, there is an order only if no process depends on itself, directly or
/// through others.
pub proof fn law_order_means_acyclic(list: Seq<ProcessDefinitionView>)
    requires
        distinct_ids(list),
        orderable(list),
    ensures
        acyclic(list),
{
    law_dependencies_first(list);
    let order = start_order(list);
    let rank = |process: ProcessDefinitionView|
        order.index_of(process) as nat;
    assert forall|i: int, k: int|
        #![trigger list[i].depends_on[k]]
        0 <= i < list.len() && 0 <= k < list[i].depends_on.len() implies (by_key(
        list,
        list[i].depends_on[k],
    ) matches Some(dependency) ==> rank(dependency) < rank(list[i])) by {
        match by_key(list, list[i].depends_on[k]) {
            Some(dependency) => {
                assert(list.contains(list[i]));
                assert(order.contains(list[i]));
                let at = order.index_of(list[i]);
                assert(order[at].depends_on[k] == list[i].depends_on[k]);
                assert(order.take(at).contains(dependency));
                let j = choose|j: int| 0 <= j < at && order.take(at)[j] == dependency;
                assert(order[j] == dependency);
                let found = order.index_of(dependency);
                assert(order[found].id == order[j].id);
                assert(found == j);
            },
            None => {},
        }
    }
    assert(ranked(list, rank));
}

} // verus!
