//! How processes that were started elsewhere are found, adopted and shown.
use vstd::prelude::*;

use crate::clock::Timestamp;
use crate::command::{command_tokens, displayed, tokens_match};
use crate::external::{
    adoptable, children_of, described, is_foreign, leaders, match_from, sync_all, sync_candidates,
    sync_one, AdoptableView, DirectoryView, Sync, SyncCandidateView,
};
use crate::laws::frames::shows;
use crate::models::{
    ConfigView, ExternalProcessChildView, HealthStatus, LogLevel, ProcessDefinitionView,
    ProcessRuntimeStateView, ProcessStatus,
};
use crate::paths::lies_within;
use crate::platform::{ExternalProcessRowView, Platform};
use crate::ports::expected_ports;
use crate::runtime::{EffectView, RuntimeEvent, RuntimeView, StampView};
use crate::start::working_directory;
use crate::text::decimal;

verus! {

/// A running process is a configured one: nobody tracks its group, its command is the configured
/// one, and it runs in the configured directory or below it, or the system does not tell where.
pub open spec fn fits(
    platform: Platform,
    row: ExternalProcessRowView,
    directory: DirectoryView,
    groups: Set<u32>,
    cwd: Seq<char>,
    tokens: Seq<Seq<char>>,
) -> bool {
    &&& !groups.contains(row.process_group_id)
    &&& tokens_match(platform, tokens, row.command)
    &&& match directory {
        DirectoryView::Known { path } => lies_within(platform, path, cwd),
        DirectoryView::Unknown => false,
        DirectoryView::Untold => true,
    }
}

/// The process that is adopted is the first that fits, and none is where none fits.
pub proof fn law_first_fit_is_found(
    platform: Platform,
    rows: Seq<ExternalProcessRowView>,
    directories: Seq<DirectoryView>,
    groups: Set<u32>,
    cwd: Seq<char>,
    tokens: Seq<Seq<char>>,
    from: int,
)
    requires
        0 <= from <= rows.len(),
    ensures
        match match_from(platform, rows, directories, groups, cwd, tokens, from) {
            Some(k) => from <= k < rows.len() && fits(
                platform,
                rows[k],
                directories[k],
                groups,
                cwd,
                tokens,
            ) && forall|m: int|
                from <= m < k ==> !fits(
                    platform,
                    #[trigger] rows[m],
                    directories[m],
                    groups,
                    cwd,
                    tokens,
                ),
            None => forall|m: int|
                from <= m < rows.len() ==> !fits(
                    platform,
                    #[trigger] rows[m],
                    directories[m],
                    groups,
                    cwd,
                    tokens,
                ),
        },
    decreases rows.len() - from,
{
    if from < rows.len() && !fits(
        platform,
        rows[from],
        directories[from],
        groups,
        cwd,
        tokens,
    ) {
        law_first_fit_is_found(platform, rows, directories, groups, cwd, tokens, from + 1);
    }
}

/// A process can be adopted exactly if its project is configured, launchd does not supervise it
/// and it runs on this machine.
pub proof fn law_who_can_be_adopted(
    config: ConfigView,
    list: Seq<ProcessDefinitionView>,
    process: ProcessDefinitionView,
)
    ensures
        adoptable(config, Seq::empty()).len() == 0,
        adoptable(config, list.push(process)) == (if config.project(process.project_id) is Some
            && process.launchd is None && config.remote_machine(process) is None {
            adoptable(config, list).push(
                AdoptableView {
                    project: config.project(process.project_id)->0,
                    process,
                    directory: working_directory(
                        config.project(process.project_id)->0,
                        process,
                    ),
                },
            )
        } else {
            adoptable(config, list)
        }),
{
    assert(list.push(process).drop_last() =~= list);
}

proof fn lemma_candidates_prefix(list: Seq<AdoptableView>, a: Seq<bool>, b: Seq<bool>)
    requires
        forall|i: int| 0 <= i < list.len() ==> #[trigger] a[i] == b[i],
    ensures
        sync_candidates(list, a) == sync_candidates(list, b),
    decreases list.len(),
{
    if list.len() > 0 {
        lemma_candidates_prefix(list.drop_last(), a, b);
        assert(a[list.len() - 1] == b[list.len() - 1]);
    }
}

/// A process is looked for exactly if its directory exists and its command can be read.
pub proof fn law_who_is_looked_for(
    list: Seq<AdoptableView>,
    exists_there: Seq<bool>,
    found: AdoptableView,
    is_there: bool,
)
    requires
        list.len() == exists_there.len(),
    ensures
        sync_candidates(Seq::empty(), exists_there).len() == 0,
        sync_candidates(list.push(found), exists_there.push(is_there)) == (if is_there
            && command_tokens(found.process) is Ok {
            sync_candidates(list, exists_there).push(
                SyncCandidateView {
                    project: found.project,
                    process: found.process,
                    cwd: working_directory(found.project, found.process),
                    tokens: command_tokens(found.process)->Ok_0,
                },
            )
        } else {
            sync_candidates(list, exists_there)
        }),
{
    assert(list.push(found).drop_last() =~= list);
    lemma_candidates_prefix(list, exists_there, exists_there.push(is_there));
}

/// A process that runs, starts, is queued or is being stopped is left alone. Any other is adopted
/// where a running process fits: it runs under that one's number, tracked with that one's group,
/// which nobody else adopts then.
pub proof fn law_adoption(
    platform: Platform,
    config: ConfigView,
    sync: Sync,
    candidate: SyncCandidateView,
    rows: Seq<ExternalProcessRowView>,
    directories: Seq<DirectoryView>,
    now: Timestamp,
    stamp: StampView,
)
    requires
        sync.rt.state_of(candidate.process.id).process_id == candidate.process.id,
    ensures
        ({
            let id = candidate.process.id;
            let rt = sync.rt;
            let after = sync_one(
                platform,
                config,
                sync,
                candidate,
                rows,
                directories,
                now,
                stamp,
            );
            let busy = rt.states.contains_key(id) && (rt.states[id].current_status
                == ProcessStatus::Running || rt.states[id].current_status
                == ProcessStatus::Starting || rt.states[id].current_status
                == ProcessStatus::Queued || rt.states[id].current_status
                == ProcessStatus::Stopping);
            let k = match_from(
                platform,
                rows,
                directories,
                sync.groups,
                candidate.cwd,
                candidate.tokens,
                0,
            );
            &&& busy || k is None ==> after == sync
            &&& !busy && k is Some ==> {
                let row = rows[k->0];
                let state = after.rt.states[id];
                let record = after.rt.process_records[id];
                &&& after.adopted
                &&& after.groups == sync.groups.insert(row.process_group_id)
                &&& after.rt.states == rt.states.insert(id, state)
                &&& state.current_status == ProcessStatus::Running
                &&& state.pid == Some(row.pid)
                &&& state.started_at == Some(now)
                &&& state.stopped_at is None && state.last_error is None
                &&& state.exit_code is None && state.memory_usage is None
                &&& state.health_status == Some(HealthStatus::Unknown)
                &&& state.port_bindings == expected_ports(candidate.process)
                &&& state == (ProcessRuntimeStateView {
                    current_status: state.current_status,
                    pid: state.pid,
                    started_at: state.started_at,
                    stopped_at: state.stopped_at,
                    exit_code: state.exit_code,
                    last_error: state.last_error,
                    memory_usage: state.memory_usage,
                    health_status: state.health_status,
                    port_bindings: state.port_bindings,
                    ..rt.state_of(id)
                })
                &&& after.rt.effects[rt.effects.len() as int] == (EffectView::Emit {
                    event: RuntimeEvent::Started,
                    runtime: state,
                })
                &&& after.rt.process_records == rt.process_records.insert(id, record)
                &&& after.rt.pids == rt.pids.insert(id, row.process_group_id)
                &&& record.process_id == id && record.project_id == candidate.project.id
                &&& record.pid == row.pid && record.process_group_id == row.process_group_id
                &&& record.started_at == now
                &&& record.command == displayed(candidate.tokens)
                &&& after.rt.effects.last() == (EffectView::WatchMemory {
                    project_id: candidate.process.project_id,
                    process_id: id,
                    pid: row.pid,
                })
                &&& shows(
                    after.rt,
                    rt.effects.len() as int + 1,
                    candidate.process,
                    LogLevel::Info,
                    "Adopted running process group "@ + decimal(row.process_group_id as nat),
                )
            }
        }),
{
}

proof fn lemma_sync_prefix(
    platform: Platform,
    config: ConfigView,
    sync: Sync,
    list: Seq<SyncCandidateView>,
    rows: Seq<ExternalProcessRowView>,
    a: Seq<Seq<DirectoryView>>,
    b: Seq<Seq<DirectoryView>>,
    now: Timestamp,
    x: Seq<StampView>,
    y: Seq<StampView>,
)
    requires
        forall|i: int| 0 <= i < list.len() ==> #[trigger] a[i] == b[i],
        forall|i: int| 0 <= i < list.len() ==> #[trigger] x[i] == y[i],
    ensures
        sync_all(platform, config, sync, list, rows, a, now, x) == sync_all(
            platform,
            config,
            sync,
            list,
            rows,
            b,
            now,
            y,
        ),
    decreases list.len(),
{
    if list.len() > 0 {
        lemma_sync_prefix(platform, config, sync, list.drop_last(), rows, a, b, now, x, y);
        assert(a[list.len() - 1] == b[list.len() - 1]);
        assert(x[list.len() - 1] == y[list.len() - 1]);
    }
}

/// Processes are adopted one after the other, each with what those before it left.
pub proof fn law_adoption_goes_by_order(
    platform: Platform,
    config: ConfigView,
    sync: Sync,
    list: Seq<SyncCandidateView>,
    candidate: SyncCandidateView,
    rows: Seq<ExternalProcessRowView>,
    directories: Seq<Seq<DirectoryView>>,
    places: Seq<DirectoryView>,
    now: Timestamp,
    stamps: Seq<StampView>,
    stamp: StampView,
)
    requires
        list.len() == directories.len(),
        list.len() == stamps.len(),
    ensures
        sync_all(platform, config, sync, Seq::empty(), rows, directories, now, stamps) == sync,
        sync_all(
            platform,
            config,
            sync,
            list.push(candidate),
            rows,
            directories.push(places),
            now,
            stamps.push(stamp),
        ) == sync_one(
            platform,
            config,
            sync_all(platform, config, sync, list, rows, directories, now, stamps),
            candidate,
            rows,
            places,
            now,
            stamp,
        ),
{
    assert(list.push(candidate).drop_last() =~= list);
    lemma_sync_prefix(
        platform,
        config,
        sync,
        list,
        rows,
        directories,
        directories.push(places),
        now,
        stamps,
        stamps.push(stamp),
    );
}

/// Adoption starts from the groups that are tracked, and the records are stored exactly if one
/// was adopted.
pub proof fn law_adopted_records_are_stored(
    rt: RuntimeView,
    platform: Platform,
    config: ConfigView,
    list: Seq<SyncCandidateView>,
    rows: Seq<ExternalProcessRowView>,
    directories: Seq<Seq<DirectoryView>>,
    now: Timestamp,
    stamps: Seq<StampView>,
)
    ensures
        ({
            let after = rt.with_synced(platform, config, list, rows, directories, now, stamps);
            let end = sync_all(
                platform,
                config,
                Sync {
                    rt,
                    groups: crate::tracking::tracked_groups(rt.process_records),
                    adopted: false,
                },
                list,
                rows,
                directories,
                now,
                stamps,
            );
            &&& after.states == end.rt.states
            &&& after.process_records == end.rt.process_records
            &&& after.pids == end.rt.pids
            &&& end.adopted ==> after.effects == end.rt.effects.push(
                EffectView::StoreRecords { records: after.process_records },
            )
            &&& !end.adopted ==> after.effects == end.rt.effects
        }),
{
}

/// A running process is foreign to the application: it is another one, nobody tracks its group,
/// and it is known to run in the project's directory or below it.
pub open spec fn runs_unknown(
    platform: Platform,
    row: ExternalProcessRowView,
    groups: Set<u32>,
    self_pid: u32,
    places: Map<u32, Seq<char>>,
    root: Seq<char>,
) -> bool {
    row.pid != self_pid && !groups.contains(row.process_group_id) && places.contains_key(row.pid)
        && lies_within(platform, places[row.pid], root)
}

/// Of each group of foreign processes the first is shown.
pub proof fn law_first_of_each_group_leads(
    platform: Platform,
    rows: Seq<ExternalProcessRowView>,
    row: ExternalProcessRowView,
    groups: Set<u32>,
    self_pid: u32,
    places: Map<u32, Seq<char>>,
    root: Seq<char>,
)
    ensures
        leaders(platform, Seq::empty(), groups, self_pid, places, root).len() == 0,
        ({
            let before = leaders(platform, rows, groups, self_pid, places, root);
            let shown = runs_unknown(platform, row, groups, self_pid, places, root) && forall|
                i: int,
            |
                0 <= i < rows.len() ==> !(runs_unknown(
                    platform,
                    #[trigger] rows[i],
                    groups,
                    self_pid,
                    places,
                    root,
                ) && rows[i].process_group_id == row.process_group_id);
            leaders(platform, rows.push(row), groups, self_pid, places, root) == (if shown {
                before.push(row)
            } else {
                before
            })
        }),
{
    assert(rows.push(row).drop_last() =~= rows);
    lemma_group_led(platform, rows, groups, self_pid, places, root, row.process_group_id);
    let before = leaders(platform, rows, groups, self_pid, places, root);
    if !crate::external::has_group(before, row.process_group_id) {
        assert forall|i: int| 0 <= i < rows.len() implies !(runs_unknown(
            platform,
            #[trigger] rows[i],
            groups,
            self_pid,
            places,
            root,
        ) && rows[i].process_group_id == row.process_group_id) by {
        }
    } else {
        let i = choose|i: int|
            0 <= i < rows.len() && runs_unknown(
                platform,
                #[trigger] rows[i],
                groups,
                self_pid,
                places,
                root,
            ) && rows[i].process_group_id == row.process_group_id;
        assert(runs_unknown(platform, rows[i], groups, self_pid, places, root));
    }
}

proof fn lemma_group_led(
    platform: Platform,
    rows: Seq<ExternalProcessRowView>,
    groups: Set<u32>,
    self_pid: u32,
    places: Map<u32, Seq<char>>,
    root: Seq<char>,
    group: u32,
)
    ensures
        crate::external::has_group(
            leaders(platform, rows, groups, self_pid, places, root),
            group,
        ) <==> exists|i: int|
            0 <= i < rows.len() && runs_unknown(
                platform,
                #[trigger] rows[i],
                groups,
                self_pid,
                places,
                root,
            ) && rows[i].process_group_id == group,
    decreases rows.len(),
{
    let led = leaders(platform, rows, groups, self_pid, places, root);
    if rows.len() > 0 {
        let front = rows.drop_last();
        let row = rows.last();
        assert(rows[rows.len() - 1] == row);
        lemma_group_led(platform, front, groups, self_pid, places, root, group);
        lemma_group_led(
            platform,
            front,
            groups,
            self_pid,
            places,
            root,
            row.process_group_id,
        );
        let before = leaders(platform, front, groups, self_pid, places, root);
        assert(is_foreign(platform, row, groups, self_pid, places, root) == runs_unknown(
            platform,
            row,
            groups,
            self_pid,
            places,
            root,
        ));
        if crate::external::has_group(led, group) {
            let k = choose|k: int|
                0 <= k < led.len() && (#[trigger] led[k]).process_group_id == group;
            if k < before.len() {
                assert(before[k] == led[k]);
                assert(crate::external::has_group(before, group));
                let i = choose|i: int|
                    0 <= i < front.len() && runs_unknown(
                        platform,
                        #[trigger] front[i],
                        groups,
                        self_pid,
                        places,
                        root,
                    ) && front[i].process_group_id == group;
                assert(rows[i] == front[i]);
            }
        }
        if exists|i: int|
            0 <= i < rows.len() && runs_unknown(
                platform,
                #[trigger] rows[i],
                groups,
                self_pid,
                places,
                root,
            ) && rows[i].process_group_id == group {
            let i = choose|i: int|
                0 <= i < rows.len() && runs_unknown(
                    platform,
                    #[trigger] rows[i],
                    groups,
                    self_pid,
                    places,
                    root,
                ) && rows[i].process_group_id == group;
            if i < front.len() {
                assert(front[i] == rows[i]);
                assert(crate::external::has_group(before, group));
                let k = choose|k: int|
                    0 <= k < before.len() && (#[trigger] before[k]).process_group_id == group;
                assert(led[k] == before[k]);
            } else if !crate::external::has_group(before, group) {
                assert(led[led.len() - 1] == row);
            } else {
                let k = choose|k: int|
                    0 <= k < before.len() && (#[trigger] before[k]).process_group_id == group;
                assert(led[k] == before[k]);
            }
        }
    }
}

/// The children of a process are the others of its group, in the order listed.
pub proof fn law_children_are_the_rest_of_the_group(
    rows: Seq<ExternalProcessRowView>,
    row: ExternalProcessRowView,
    leader: ExternalProcessRowView,
)
    ensures
        children_of(Seq::empty(), leader).len() == 0,
        children_of(rows.push(row), leader) == (if row.process_group_id == leader.process_group_id
            && row.pid != leader.pid {
            children_of(rows, leader).push(
                ExternalProcessChildView { pid: row.pid, command: row.command },
            )
        } else {
            children_of(rows, leader)
        }),
{
    assert(rows.push(row).drop_last() =~= rows);
}

/// A foreign process is shown as the system lists it, with the directory and the ports that are
/// known of it.
pub proof fn law_shown_as_listed(
    rows: Seq<ExternalProcessRowView>,
    leader: ExternalProcessRowView,
    cwds: Map<u32, Seq<char>>,
    ports: Map<u32, Seq<u32>>,
)
    ensures
        ({
            let shown = described(rows, leader, cwds, ports);
            &&& shown.pid == leader.pid
            &&& shown.process_group_id == leader.process_group_id
            &&& shown.command == leader.command
            &&& shown.user == leader.user
            &&& shown.started_at == leader.started_at
            &&& shown.etime == leader.etime
            &&& shown.cpu_percent == leader.cpu_percent
            &&& shown.memory_kb == leader.memory_kb
            &&& shown.children == children_of(rows, leader)
            &&& cwds.contains_key(leader.pid) ==> shown.cwd == cwds[leader.pid]
            &&& !cwds.contains_key(leader.pid) ==> shown.cwd.len() == 0
            &&& ports.contains_key(leader.pid) ==> shown.ports == ports[leader.pid]
            &&& !ports.contains_key(leader.pid) ==> shown.ports.len() == 0
        }),
{
}

} // verus!
