//! Keeping track of the process groups that were started or adopted, and of those that were
//! asked to stop.
use vstd::prelude::*;

use crate::models::{Duplicate, RuntimeProcessRecord, RuntimeProcessRecordView};
use crate::runtime::{Runtime, RuntimeView};
use crate::text::{
    concat, decimal, has_prefix, is_digit, lemma_decimal_digits, lemma_decimal_injective,
    with_number,
};
use crate::text_map::{lists, TextMap};

verus! {

// ---------------------------------------------------------------------------
// Records
// ---------------------------------------------------------------------------

/// The process group of a record; a record without one stands for the group of its process.
pub open spec fn group_of(record: RuntimeProcessRecordView) -> u32 {
    if record.process_group_id == 0 {
        record.pid
    } else {
        record.process_group_id
    }
}

/// The process group of a record.
pub fn normalized_process_group_id(record: &RuntimeProcessRecord) -> (r: u32)
    ensures
        r == group_of(record.deep_view()),
{
    if record.process_group_id == 0 {
        record.pid
    } else {
        record.process_group_id
    }
}

/// The process groups of all records.
pub open spec fn tracked_groups(records: Map<Seq<char>, RuntimeProcessRecordView>) -> Set<u32> {
    Set::new(
        |group: u32|
            exists|id: Seq<char>| #[trigger]
                records.contains_key(id) && group_of(records[id]) == group,
    )
}

impl RuntimeView {
    /// The process group that a process is tracked under.
    pub open spec fn tracked_group(self, process_id: Seq<char>) -> Option<u32> {
        if self.process_records.contains_key(process_id) {
            Some(group_of(self.process_records[process_id]))
        } else {
            None
        }
    }

    /// A process is tracked from now on.
    pub open spec fn with_tracked(self, record: RuntimeProcessRecordView) -> RuntimeView {
        RuntimeView {
            pids: self.pids.insert(record.process_id, record.process_group_id),
            process_records: self.process_records.insert(record.process_id, record),
            ..self
        }
    }

    /// Another process of the tracked group stands for it from now on.
    pub open spec fn with_tracked_pid(
        self,
        process_id: Seq<char>,
        pid: u32,
        process_group_id: u32,
    ) -> RuntimeView {
        if self.tracked_group(process_id) == Some(process_group_id) {
            RuntimeView {
                pids: self.pids.insert(process_id, process_group_id),
                process_records: self.process_records.insert(
                    process_id,
                    RuntimeProcessRecordView {
                        pid,
                        process_group_id,
                        ..self.process_records[process_id]
                    },
                ),
                ..self
            }
        } else {
            self
        }
    }

    /// A process is no longer tracked.
    pub open spec fn without_tracked(self, process_id: Seq<char>) -> RuntimeView {
        RuntimeView {
            pids: self.pids.remove(process_id),
            process_records: self.process_records.remove(process_id),
            ..self
        }
    }

    /// A process is no longer tracked if it was tracked under the given group.
    pub open spec fn without_tracked_group(
        self,
        process_id: Seq<char>,
        process_group_id: u32,
    ) -> RuntimeView {
        if self.tracked_group(process_id) == Some(process_group_id) {
            RuntimeView {
                pids: if self.pids.contains_key(process_id) && self.pids[process_id]
                    == process_group_id {
                    self.pids.remove(process_id)
                } else {
                    self.pids
                },
                process_records: self.process_records.remove(process_id),
                ..self
            }
        } else {
            self
        }
    }

    /// Other processes are tracked from now on.
    pub open spec fn with_records(
        self,
        records: Map<Seq<char>, RuntimeProcessRecordView>,
    ) -> RuntimeView {
        RuntimeView {
            pids: records.map_values(|record: RuntimeProcessRecordView| group_of(record)),
            process_records: records,
            ..self
        }
    }
}

impl Runtime {
    /// Keeps track of a process.
    pub fn track_runtime_process(&mut self, record: RuntimeProcessRecord)
        ensures
            final(self).deep_view() == old(self).deep_view().with_tracked(record.deep_view()),
    {
        self.pids.insert(record.process_id.clone(), record.process_group_id);
        self.process_records.insert(record.process_id.clone(), record);
    }

    /// Lets another process of the tracked group stand for it, and says whether the process was
    /// tracked under that group.
    pub fn update_tracked_process_pid(
        &mut self,
        process_id: &str,
        pid: u32,
        process_group_id: u32,
    ) -> (r: bool)
        ensures
            r == (old(self).deep_view().tracked_group(process_id@) == Some(process_group_id)),
            final(self).deep_view() == old(self).deep_view().with_tracked_pid(
                process_id@,
                pid,
                process_group_id,
            ),
    {
        let updated = match self.process_records.get(process_id) {
            Some(record) => {
                if normalized_process_group_id(record) == process_group_id {
                    let mut next = record.duplicate();
                    next.pid = pid;
                    next.process_group_id = process_group_id;
                    Some(next)
                } else {
                    None
                }
            },
            None => None,
        };
        match updated {
            Some(next) => {
                self.process_records.insert(process_id.to_string(), next);
                self.pids.insert(process_id.to_string(), process_group_id);
                true
            },
            None => false,
        }
    }

    /// Keeps track of a process no longer.
    pub fn untrack_runtime_process(&mut self, process_id: &str)
        ensures
            final(self).deep_view() == old(self).deep_view().without_tracked(process_id@),
    {
        let _ = self.pids.remove(process_id);
        let _ = self.process_records.remove(process_id);
    }

    /// The process group that a process is tracked under.
    pub fn current_tracked_process_group(&self, process_id: &str) -> (r: Option<u32>)
        ensures
            r == self.deep_view().tracked_group(process_id@),
    {
        match self.process_records.get(process_id) {
            Some(record) => Some(normalized_process_group_id(record)),
            None => None,
        }
    }

    /// Keeps track of a process no longer if it was tracked under the given group, and says
    /// whether it was.
    pub fn untrack_runtime_process_if_group(
        &mut self,
        process_id: &str,
        process_group_id: u32,
    ) -> (r: bool)
        ensures
            r == (old(self).deep_view().tracked_group(process_id@) == Some(process_group_id)),
            final(self).deep_view() == old(self).deep_view().without_tracked_group(
                process_id@,
                process_group_id,
            ),
    {
        let removed = match self.current_tracked_process_group(process_id) {
            Some(current_group_id) => current_group_id == process_group_id,
            None => false,
        };
        if removed {
            let _ = self.process_records.remove(process_id);
            let same_group = match self.pids.get(process_id) {
                Some(group) => *group == process_group_id,
                None => false,
            };
            if same_group {
                let _ = self.pids.remove(process_id);
            }
        }
        removed
    }

    /// Keeps track of other processes.
    pub fn replace_runtime_process_records(&mut self, records: TextMap<RuntimeProcessRecord>)
        ensures
            final(self).deep_view() == old(self).deep_view().with_records(records.deep_view()),
    {
        let n = records.len();
        let ghost list = records.listing();
        let ghost map = records.deep_view();
        let mut pids: TextMap<u32> = TextMap::new();
        let mut i: usize = 0;
        while i < n
            invariant
                i <= n,
                n == list.len(),
                list == records.listing(),
                map == records.deep_view(),
                lists(list, map),
                forall|id: Seq<char>| #[trigger]
                    pids.deep_view().contains_key(id) ==> map.contains_key(id)
                        && pids.deep_view()[id] == group_of(map[id]),
                forall|k: int|
                    0 <= k < i ==> pids.deep_view().contains_key((#[trigger] list[k]).0),
            decreases n - i,
        {
            let group = normalized_process_group_id(records.value_at(i));
            pids.insert(records.key_at(i).clone(), group);
            assert(map[list[i as int].0] == list[i as int].1);
            i += 1;
        }
        proof {
            let groups = map.map_values(|record: RuntimeProcessRecordView| group_of(record));
            assert forall|id: Seq<char>| #[trigger]
                pids.deep_view().contains_key(id) <==> groups.contains_key(id) by {
                if map.contains_key(id) {
                    let k = choose|k: int| 0 <= k < list.len() && (#[trigger] list[k]).0 == id;
                    assert(pids.deep_view().contains_key(list[k].0));
                }
            }
            assert(pids.deep_view() =~= groups);
        }
        self.pids = pids;
        self.process_records = records;
    }

    /// The process groups of all tracked processes.
    pub fn tracked_process_groups(&self) -> (r: Vec<u32>)
        ensures
            r@.to_set() == tracked_groups(self.deep_view().process_records),
    {
        let n = self.process_records.len();
        let ghost list = self.process_records.listing();
        let ghost map = self.process_records.deep_view();
        let mut r: Vec<u32> = Vec::new();
        let mut i: usize = 0;
        while i < n
            invariant
                i <= n,
                n == list.len(),
                list == self.process_records.listing(),
                r@.len() == i,
                forall|k: int| 0 <= k < i ==> #[trigger] r@[k] == group_of(list[k].1),
            decreases n - i,
        {
            r.push(normalized_process_group_id(self.process_records.value_at(i)));
            i += 1;
        }
        proof {
            let groups = tracked_groups(map);
            assert forall|group: u32| r@.to_set().contains(group) <==> groups.contains(group) by {
                if r@.contains(group) {
                    let k = choose|k: int| 0 <= k < r@.len() && r@[k] == group;
                    assert(map.contains_key(list[k].0));
                }
                if groups.contains(group) {
                    let id = choose|id: Seq<char>| #[trigger]
                        map.contains_key(id) && group_of(map[id]) == group;
                    let k = choose|k: int| 0 <= k < list.len() && (#[trigger] list[k]).0 == id;
                    assert(r@[k] == group);
                }
            }
            assert(r@.to_set() =~= groups);
        }
        r
    }
}

// ---------------------------------------------------------------------------
// Requests to stop
// ---------------------------------------------------------------------------

/// What stands for a request to stop a process group of a process.
pub open spec fn request_key(process_id: Seq<char>, process_group_id: u32) -> Seq<char> {
    process_id + ":"@ + decimal(process_group_id as nat)
}

/// What stands for a request to stop a process group of a process.
pub fn stop_request_key(process_id: &str, process_group_id: u32) -> (r: String)
    ensures
        r@ == request_key(process_id@, process_group_id),
{
    let head = concat(process_id, ":");
    with_number(head.as_str(), process_group_id as u64)
}

impl RuntimeView {
    /// A process group of a process was asked to stop.
    pub open spec fn stop_requested(self, process_id: Seq<char>, process_group_id: u32) -> bool {
        self.stopping_processes.contains(request_key(process_id, process_group_id))
    }

    pub open spec fn with_stop_requested(
        self,
        process_id: Seq<char>,
        process_group_id: u32,
    ) -> RuntimeView {
        RuntimeView {
            stopping_processes: self.stopping_processes.insert(
                request_key(process_id, process_group_id),
            ),
            ..self
        }
    }

    pub open spec fn without_stop_requested(
        self,
        process_id: Seq<char>,
        process_group_id: u32,
    ) -> RuntimeView {
        RuntimeView {
            stopping_processes: self.stopping_processes.remove(
                request_key(process_id, process_group_id),
            ),
            ..self
        }
    }

    /// Nothing that begins with the process's id and a colon is left.
    pub open spec fn without_stop_requests(self, process_id: Seq<char>) -> RuntimeView {
        RuntimeView {
            stopping_processes: self.stopping_processes.filter(
                |key: Seq<char>| !has_prefix(key, process_id + ":"@),
            ),
            ..self
        }
    }
}

impl Runtime {
    /// Remembers that a process group was asked to stop.
    pub fn mark_stop_requested(&mut self, process_id: &str, process_group_id: u32)
        ensures
            final(self).deep_view() == old(self).deep_view().with_stop_requested(
                process_id@,
                process_group_id,
            ),
    {
        self.stopping_processes.insert(stop_request_key(process_id, process_group_id));
    }

    /// Whether a process group was asked to stop.
    pub fn stop_was_requested(&self, process_id: &str, process_group_id: u32) -> (r: bool)
        ensures
            r == self.deep_view().stop_requested(process_id@, process_group_id),
    {
        let key = stop_request_key(process_id, process_group_id);
        self.stopping_processes.contains(key.as_str())
    }

    /// Forgets that a process group was asked to stop.
    pub fn clear_stop_requested(&mut self, process_id: &str, process_group_id: u32)
        ensures
            final(self).deep_view() == old(self).deep_view().without_stop_requested(
                process_id@,
                process_group_id,
            ),
    {
        let key = stop_request_key(process_id, process_group_id);
        self.stopping_processes.remove(key.as_str());
    }

    /// Forgets that the process groups of a process were asked to stop.
    pub fn clear_stop_requests_for_process(&mut self, process_id: &str)
        ensures
            final(self).deep_view() == old(self).deep_view().without_stop_requests(process_id@),
    {
        let prefix = concat(process_id, ":");
        self.stopping_processes.remove_prefixed(prefix.as_str());
    }
}

// ---------------------------------------------------------------------------
// Laws
// ---------------------------------------------------------------------------

/// The process groups and the records speak of the same processes and agree on their groups.
pub open spec fn tracking_agrees(rt: RuntimeView) -> bool {
    &&& rt.pids.dom() == rt.process_records.dom()
    &&& forall|id: Seq<char>| #[trigger]
        rt.process_records.contains_key(id) ==> rt.pids[id] == group_of(rt.process_records[id])
}

/// Tracking a process that has a group keeps the groups and the records in agreement.
pub proof fn law_track_keeps_agreement(rt: RuntimeView, record: RuntimeProcessRecordView)
    requires
        tracking_agrees(rt),
        record.process_group_id != 0,
    ensures
        tracking_agrees(rt.with_tracked(record)),
        rt.with_tracked(record).tracked_group(record.process_id) == Some(record.process_group_id),
{
    assert(rt.with_tracked(record).pids.dom() =~= rt.with_tracked(record).process_records.dom());
}

/// Letting another process stand for a tracked one keeps the agreement.
pub proof fn law_update_keeps_agreement(
    rt: RuntimeView,
    process_id: Seq<char>,
    pid: u32,
    process_group_id: u32,
)
    requires
        tracking_agrees(rt),
        process_group_id != 0,
    ensures
        tracking_agrees(rt.with_tracked_pid(process_id, pid, process_group_id)),
        rt.with_tracked_pid(process_id, pid, process_group_id).tracked_group(process_id)
            == rt.tracked_group(process_id),
{
    let after = rt.with_tracked_pid(process_id, pid, process_group_id);
    assert(after.pids.dom() =~= after.process_records.dom());
}

/// Untracking a process keeps the agreement, and the process is tracked no longer.
pub proof fn law_untrack_keeps_agreement(rt: RuntimeView, process_id: Seq<char>)
    requires
        tracking_agrees(rt),
    ensures
        tracking_agrees(rt.without_tracked(process_id)),
        rt.without_tracked(process_id).tracked_group(process_id) is None,
{
    let after = rt.without_tracked(process_id);
    assert(after.pids.dom() =~= after.process_records.dom());
}

/// Untracking by group keeps the agreement. A process that was tracked under the group is
/// tracked no longer; one that was tracked under another group stays.
pub proof fn law_untrack_group_keeps_agreement(
    rt: RuntimeView,
    process_id: Seq<char>,
    process_group_id: u32,
)
    requires
        tracking_agrees(rt),
    ensures
        tracking_agrees(rt.without_tracked_group(process_id, process_group_id)),
        rt.without_tracked_group(process_id, process_group_id).tracked_group(process_id) == (
        if rt.tracked_group(process_id) == Some(process_group_id) {
            None
        } else {
            rt.tracked_group(process_id)
        }),
{
    let after = rt.without_tracked_group(process_id, process_group_id);
    assert(after.pids.dom() =~= after.process_records.dom());
}

/// Replacing the records makes the groups agree with them.
pub proof fn law_replace_makes_agreement(
    rt: RuntimeView,
    records: Map<Seq<char>, RuntimeProcessRecordView>,
)
    ensures
        tracking_agrees(rt.with_records(records)),
{
    let after = rt.with_records(records);
    assert(after.pids.dom() =~= after.process_records.dom());
}

proof fn lemma_colon()
    ensures
        ":"@ == seq![':'],
{
    reveal_strlit(":");
    assert(":"@ =~= seq![':']);
}

/// Requests for different processes or groups are different.
pub proof fn law_request_keys_differ(
    process_a: Seq<char>,
    group_a: u32,
    process_b: Seq<char>,
    group_b: u32,
)
    requires
        request_key(process_a, group_a) == request_key(process_b, group_b),
    ensures
        process_a == process_b,
        group_a == group_b,
{
    lemma_colon();
    lemma_decimal_digits(group_a as nat);
    lemma_decimal_digits(group_b as nat);
    let a = request_key(process_a, group_a);
    let b = request_key(process_b, group_b);
    let da = decimal(group_a as nat);
    let db = decimal(group_b as nat);
    assert(a.len() == process_a.len() + 1 + da.len());
    assert(b.len() == process_b.len() + 1 + db.len());
    assert(a[process_a.len() as int] == ':');
    assert(b[process_b.len() as int] == ':');
    if process_a.len() < process_b.len() {
        let i = process_b.len() - process_a.len() - 1;
        assert(0 <= i < da.len());
        assert(a[process_b.len() as int] == da[i]);
        assert(is_digit(da[i]));
    }
    if process_b.len() < process_a.len() {
        let i = process_a.len() - process_b.len() - 1;
        assert(0 <= i < db.len());
        assert(b[process_a.len() as int] == db[i]);
        assert(is_digit(db[i]));
    }
    assert(process_a =~= a.take(process_a.len() as int));
    assert(process_b =~= b.take(process_b.len() as int));
    assert(da =~= a.skip((process_a.len() + 1) as int));
    assert(db =~= b.skip((process_b.len() + 1) as int));
    lemma_decimal_injective(group_a as nat, group_b as nat);
}

/// A request that was made is found until it is taken back, and no other request is touched.
pub proof fn law_stop_requests_are_kept(
    rt: RuntimeView,
    process_id: Seq<char>,
    group: u32,
    other_process: Seq<char>,
    other_group: u32,
)
    ensures
        rt.with_stop_requested(process_id, group).stop_requested(process_id, group),
        !rt.without_stop_requested(process_id, group).stop_requested(process_id, group),
        (process_id, group) != (other_process, other_group) ==> {
            &&& rt.with_stop_requested(process_id, group).stop_requested(other_process, other_group)
                == rt.stop_requested(other_process, other_group)
            &&& rt.without_stop_requested(process_id, group).stop_requested(
                other_process,
                other_group,
            ) == rt.stop_requested(other_process, other_group)
        },
{
    if request_key(process_id, group) == request_key(other_process, other_group) {
        law_request_keys_differ(process_id, group, other_process, other_group);
    }
}

/// Taking back all requests of a process leaves none of them. The requests of another process
/// stay, unless its id begins with this one's and a colon.
pub proof fn law_all_stop_requests_taken_back(
    rt: RuntimeView,
    process_id: Seq<char>,
    other: Seq<char>,
    group: u32,
)
    ensures
        !rt.without_stop_requests(process_id).stop_requested(process_id, group),
        other != process_id && !has_prefix(other, process_id + ":"@)
            ==> rt.without_stop_requests(process_id).stop_requested(other, group)
            == rt.stop_requested(other, group),
{
    lemma_colon();
    let prefix = process_id + ":"@;
    let own = request_key(process_id, group);
    assert(own.take(prefix.len() as int) =~= prefix);
    if other != process_id && !has_prefix(other, prefix) {
        let key = request_key(other, group);
        if has_prefix(key, prefix) {
            let n = process_id.len() as int;
            assert(key.take(prefix.len() as int)[n] == ':');
            if other.len() > n {
                assert(other.take(n + 1) =~= key.take(n + 1));
            } else if other.len() == n {
                assert(other =~= key.take(n + 1).take(n));
                assert(process_id =~= prefix.take(n));
            } else {
                lemma_decimal_digits(group as nat);
                let i = n - other.len() - 1;
                assert(key[n] == decimal(group as nat)[i]);
                assert(is_digit(decimal(group as nat)[i]));
            }
        }
    }
}

} // verus!
