//! In which order processes are started.
use vstd::prelude::*;

use crate::laws::recovering::{law_last_with_a_key_counts, law_last_with_an_id_counts};
use crate::models::ProcessDefinitionView;
use crate::order::{
    by_id, by_key, distinct_ids, law_order_is_unique, orderable, start_order, walk_to, walk_to_all,
    walk_to_keys, Walk,
};

verus! {

/// Each process depends only on processes that stand before it.
pub open spec fn in_order(list: Seq<ProcessDefinitionView>) -> bool {
    forall|i: int, k: int|
        #![trigger list[i].depends_on[k]]
        0 <= i < list.len() && 0 <= k < list[i].depends_on.len() ==> (by_key(
            list,
            list[i].depends_on[k],
        ) matches Some(dependency) ==> list.take(i).contains(dependency))
}

proof fn lemma_keys_done(list: Seq<ProcessDefinitionView>, keys: Seq<Seq<char>>, walk: Walk)
    requires
        forall|k: int|
            0 <= k < keys.len() ==> (by_key(list, #[trigger] keys[k]) matches Some(dependency)
                ==> walk.visited.contains(dependency.id)),
    ensures
        walk_to_keys(list, keys, walk, 0) == Some(walk),
    decreases keys.len(),
{
    if keys.len() > 0 {
        let front = keys.drop_last();
        assert forall|k: int| 0 <= k < front.len() implies (by_key(
            list,
            #[trigger] front[k],
        ) matches Some(dependency) ==> walk.visited.contains(dependency.id)) by {
            assert(front[k] == keys[k]);
        }
        lemma_keys_done(list, front, walk);
        assert(keys[keys.len() - 1] == keys.last());
        if let Some(dependency) = by_key(list, keys.last()) {
            assert(walk_to(list, dependency, walk, 0) == Some(walk));
        }
    }
}

proof fn lemma_walked(list: Seq<ProcessDefinitionView>, n: int)
    requires
        0 <= n <= list.len(),
        distinct_ids(list),
        in_order(list),
    ensures
        ({
            let walk = walk_to_all(list, list.take(n), 1);
            &&& walk is Some
            &&& walk->0.output == list.take(n)
            &&& forall|i: int| 0 <= i < n ==> walk->0.visited.contains((#[trigger] list[i]).id)
            &&& forall|id: Seq<char>| #[trigger]
                walk->0.visited.contains(id) ==> exists|i: int|
                    0 <= i < n && (#[trigger] list[i]).id == id
        }),
    decreases n,
{
    if n == 0 {
        assert(list.take(0) =~= Seq::<ProcessDefinitionView>::empty());
    } else {
        lemma_walked(list, n - 1);
        assert(list.take(n).drop_last() =~= list.take(n - 1));
        let process = list[n - 1];
        assert(list.take(n).last() == process);
        let before = walk_to_all(list, list.take(n - 1), 1)->0;
        if before.visited.contains(process.id) {
            let i = choose|i: int| 0 <= i < n - 1 && (#[trigger] list[i]).id == process.id;
            assert(list[i].id != list[n - 1].id);
        }
        assert forall|k: int| 0 <= k < process.depends_on.len() implies (by_key(
            list,
            #[trigger] process.depends_on[k],
        ) matches Some(dependency) ==> before.visited.contains(dependency.id)) by {
            assert(list[n - 1].depends_on[k] == process.depends_on[k]);
            if let Some(dependency) = by_key(list, process.depends_on[k]) {
                assert(list.take(n - 1).contains(dependency));
                let front = list.take(n - 1);
                let i = choose|i: int| 0 <= i < front.len() && front[i] == dependency;
                assert(list[i] == dependency);
            }
        }
        lemma_keys_done(list, process.depends_on, before);
        law_last_with_an_id_counts(list, process.id);
        match by_id(list, process.id) {
            Some(found) => {
                let i = choose|i: int| #![trigger list[i]] 0 <= i < list.len() && list[i] == found;
                if i != n - 1 {
                    assert(list[i].id != list[n - 1].id);
                }
                assert(found == process);
            },
            None => {
                assert(list[n - 1].id != process.id);
            },
        }
        let after = walk_to_all(list, list.take(n), 1)->0;
        assert(after.output == before.output.push(process));
        assert(list.take(n - 1).push(process) =~= list.take(n));
        assert forall|id: Seq<char>| #[trigger] after.visited.contains(id) implies exists|i: int|
            0 <= i < n && (#[trigger] list[i]).id == id by {
            if id == process.id {
                assert(list[n - 1].id == id);
            } else {
                assert(before.visited.contains(id));
                let i = choose|i: int| 0 <= i < n - 1 && (#[trigger] list[i]).id == id;
                assert(list[i].id == id);
            }
        }
    }
}

/// Processes that stand in order already are started as they stand: nothing moves that does not
/// have to.
pub proof fn law_order_is_kept(list: Seq<ProcessDefinitionView>)
    requires
        distinct_ids(list),
        in_order(list),
    ensures
        orderable(list),
        start_order(list) == list,
{
    lemma_walked(list, list.len() as int);
    assert(list.take(list.len() as int) =~= list);
    law_order_is_unique(list, 1);
}

/// The first process of a list, where its dependencies depend on nothing themselves, is started
/// right behind them, and they are started in the order in which it names them.
pub proof fn law_dependencies_start_as_named(
    list: Seq<ProcessDefinitionView>,
    dependencies: Seq<ProcessDefinitionView>,
)
    requires
        distinct_ids(list),
        orderable(list),
        list.len() > 0,
        dependencies.len() == list[0].depends_on.len(),
        distinct_ids(dependencies),
        forall|k: int|
            0 <= k < dependencies.len() ==> by_key(list, #[trigger] list[0].depends_on[k]) == Some(
                dependencies[k],
            ),
        forall|k: int|
            #![trigger dependencies[k]]
            0 <= k < dependencies.len() ==> dependencies[k].depends_on.len() == 0
                && dependencies[k].id != list[0].id,
    ensures
        dependencies.push(list[0]).is_prefix_of(start_order(list)),
{
    let first = list[0];
    let depth = choose|depth: nat| (#[trigger] walk_to_all(list, list, depth)) is Some;
    let start = Walk { visited: Set::empty(), output: Seq::empty() };
    assert(list.take(list.len() as int) =~= list);
    lemma_all_grow(list, 1, list.len() as int, depth);
    assert(list.take(1).drop_last() =~= Seq::<ProcessDefinitionView>::empty());
    assert(list.take(1).last() == first);
    reveal_with_fuel(walk_to_all, 2);
    assert(walk_to_all(list, list.take(1), depth) == walk_to(list, first, start, depth));
    assert(depth > 0);
    let inner = walk_to_keys(list, first.depends_on, start, (depth - 1) as nat);
    assert(inner is Some);
    assert(first.depends_on.take(first.depends_on.len() as int) =~= first.depends_on);
    assert(dependencies.take(dependencies.len() as int) =~= dependencies);
    lemma_named(list, dependencies, first.depends_on.len() as int, (depth - 1) as nat);
    lemma_own_id(list, 0);
    assert(walk_to_all(list, list.take(1), depth)->0.output == dependencies.push(first));
}

proof fn lemma_own_id(list: Seq<ProcessDefinitionView>, n: int)
    requires
        distinct_ids(list),
        0 <= n < list.len(),
    ensures
        by_id(list, list[n].id) == Some(list[n]),
{
    law_last_with_an_id_counts(list, list[n].id);
    match by_id(list, list[n].id) {
        Some(found) => {
            let i = choose|i: int| #![trigger list[i]] 0 <= i < list.len() && list[i] == found;
            if i != n {
                assert(list[i].id != list[n].id);
            }
        },
        None => {
            assert(list[n].id != list[n].id);
        },
    }
}

proof fn lemma_all_grow(list: Seq<ProcessDefinitionView>, m: int, n: int, depth: nat)
    requires
        0 <= m <= n <= list.len(),
        walk_to_all(list, list.take(n), depth) is Some,
    ensures
        walk_to_all(list, list.take(m), depth) is Some,
        walk_to_all(list, list.take(m), depth)->0.output.is_prefix_of(
            walk_to_all(list, list.take(n), depth)->0.output,
        ),
    decreases n - m,
{
    if m < n {
        assert(list.take(n).drop_last() =~= list.take(n - 1));
        lemma_all_grow(list, m, n - 1, depth);
        lemma_walk_grows(list, list[n - 1], walk_to_all(list, list.take(n - 1), depth)->0, depth);
        assert(list.take(n).last() == list[n - 1]);
        let a = walk_to_all(list, list.take(m), depth)->0.output;
        let b = walk_to_all(list, list.take(n - 1), depth)->0.output;
        let c = walk_to_all(list, list.take(n), depth)->0.output;
        assert(a =~= c.subrange(0, a.len() as int)) by {
            assert(a =~= b.subrange(0, a.len() as int));
            assert(b =~= c.subrange(0, b.len() as int));
        }
    } else {
        let a = walk_to_all(list, list.take(m), depth)->0.output;
        assert(a =~= a.subrange(0, a.len() as int));
    }
}

proof fn lemma_walk_grows(
    list: Seq<ProcessDefinitionView>,
    process: ProcessDefinitionView,
    walk: Walk,
    depth: nat,
)
    requires
        walk_to(list, process, walk, depth) is Some,
    ensures
        walk.output.is_prefix_of(walk_to(list, process, walk, depth)->0.output),
    decreases depth, 0nat,
{
    let a = walk.output;
    if walk.visited.contains(process.id) {
        assert(a =~= a.subrange(0, a.len() as int));
    } else {
        lemma_keys_grow(list, process.depends_on, walk, (depth - 1) as nat);
        let b = walk_to_keys(list, process.depends_on, walk, (depth - 1) as nat)->0.output;
        let c = walk_to(list, process, walk, depth)->0.output;
        assert(a =~= b.subrange(0, a.len() as int));
        assert(a =~= c.subrange(0, a.len() as int));
    }
}

proof fn lemma_keys_grow(
    list: Seq<ProcessDefinitionView>,
    keys: Seq<Seq<char>>,
    walk: Walk,
    depth: nat,
)
    requires
        walk_to_keys(list, keys, walk, depth) is Some,
    ensures
        walk.output.is_prefix_of(walk_to_keys(list, keys, walk, depth)->0.output),
    decreases depth, keys.len() + 1,
{
    let a = walk.output;
    if keys.len() == 0 {
        assert(a =~= a.subrange(0, a.len() as int));
    } else {
        lemma_keys_grow(list, keys.drop_last(), walk, depth);
        let done = walk_to_keys(list, keys.drop_last(), walk, depth)->0;
        let b = done.output;
        assert(a =~= b.subrange(0, a.len() as int));
        if let Some(dependency) = by_key(list, keys.last()) {
            lemma_walk_grows(list, dependency, done, depth);
            let c = walk_to(list, dependency, done, depth)->0.output;
            assert(b =~= c.subrange(0, b.len() as int));
            assert(a =~= c.subrange(0, a.len() as int));
        }
    }
}

proof fn lemma_named(
    list: Seq<ProcessDefinitionView>,
    dependencies: Seq<ProcessDefinitionView>,
    n: int,
    depth: nat,
)
    requires
        distinct_ids(list),
        list.len() > 0,
        0 <= n <= dependencies.len(),
        dependencies.len() == list[0].depends_on.len(),
        distinct_ids(dependencies),
        forall|k: int|
            0 <= k < dependencies.len() ==> by_key(list, #[trigger] list[0].depends_on[k]) == Some(
                dependencies[k],
            ),
        forall|k: int|
            #![trigger dependencies[k]]
            0 <= k < dependencies.len() ==> dependencies[k].depends_on.len() == 0
                && dependencies[k].id != list[0].id,
        walk_to_keys(
            list,
            list[0].depends_on.take(n),
            Walk { visited: Set::empty(), output: Seq::empty() },
            depth,
        ) is Some,
    ensures
        ({
            let walk = walk_to_keys(
                list,
                list[0].depends_on.take(n),
                Walk { visited: Set::empty(), output: Seq::empty() },
                depth,
            )->0;
            &&& walk.output == dependencies.take(n)
            &&& forall|id: Seq<char>| #[trigger]
                walk.visited.contains(id) ==> exists|i: int|
                    0 <= i < n && (#[trigger] dependencies[i]).id == id
        }),
    decreases n,
{
    let start = Walk { visited: Set::<Seq<char>>::empty(), output: Seq::empty() };
    let keys = list[0].depends_on.take(n);
    if n == 0 {
        assert(dependencies.take(0) =~= Seq::<ProcessDefinitionView>::empty());
    } else {
        assert(keys.drop_last() =~= list[0].depends_on.take(n - 1));
        lemma_named(list, dependencies, n - 1, depth);
        let done = walk_to_keys(list, keys.drop_last(), start, depth)->0;
        let dependency = dependencies[n - 1];
        assert(keys.last() == list[0].depends_on[n - 1]);
        assert(by_key(list, keys.last()) == Some(dependency));
        if done.visited.contains(dependency.id) {
            let i = choose|i: int|
                0 <= i < n - 1 && (#[trigger] dependencies[i]).id == dependency.id;
            assert(dependencies[i].id != dependencies[n - 1].id);
        }
        assert(dependency.depends_on.len() == 0);
        assert(depth > 0);
        law_last_with_a_key_counts(list, keys.last());
        let at = choose|i: int| #![trigger list[i]] 0 <= i < list.len() && list[i] == dependency;
        lemma_own_id(list, at);
        let walk = walk_to_keys(list, keys, start, depth)->0;
        assert(walk == walk_to(list, dependency, done, depth)->0);
        assert(walk_to_keys(list, dependency.depends_on, done, (depth - 1) as nat) == Some(done));
        assert(walk.output == done.output.push(dependency));
        assert(dependencies.take(n - 1).push(dependency) =~= dependencies.take(n));
        assert forall|id: Seq<char>| #[trigger] walk.visited.contains(id) implies exists|i: int|
            0 <= i < n && (#[trigger] dependencies[i]).id == id by {
            if id == dependency.id {
                assert(dependencies[n - 1].id == id);
            } else {
                assert(done.visited.contains(id));
                let i = choose|i: int| 0 <= i < n - 1 && (#[trigger] dependencies[i]).id == id;
                assert(dependencies[i].id == id);
            }
        }
    }
}

} // verus!
