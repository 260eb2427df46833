//! Processes that were started outside the orchestrator: adopting those that are configured,
//! and telling of the others.
use std::collections::HashMap;
use vstd::prelude::*;

use crate::clock::Timestamp;
use crate::command::{
    command_tokens, command_tokens_match, display_command, displayed, process_command_tokens,
    tokens_match,
};
use crate::lookup::{contains_number, project_not_found, project_not_found_error, push_item};
use crate::models::{
    ApiError, ApiErrorView, Config, ConfigView, Duplicate, ExternalProcess, ExternalProcessChild,
    ExternalProcessChildView, ExternalProcessView, ProcessDefinition, ProcessDefinitionView,
    Project, ProjectView, RuntimeProcessRecord, RuntimeProcessRecordView,
};
use crate::paths::{cwd_matches_root, lies_within};
use crate::platform::{
    group_error_text, ExternalProcessRow, ExternalProcessRowView, GroupError, Platform,
};
use crate::runtime::{Runtime, RuntimeView, Stamp, StampView};
use crate::start::{
    configured_directory, resolve_working_directory, usable_directory, working_directory,
};
use crate::status::{active, is_active};
use crate::text::{decimal, with_number};
use crate::tracking::tracked_groups;

verus! {

broadcast use vstd::std_specs::hash::group_hash_axioms;

// ---------------------------------------------------------------------------
// Adoption
// ---------------------------------------------------------------------------

/// What can be told of the directory that a process runs in.
#[derive(Debug, PartialEq)]
pub enum Directory {
    /// It is this one.
    Known { path: String },
    /// It could not be told.
    Unknown,
    /// The system does not tell directories.
    Untold,
}

/// The model of [`Directory`].
pub enum DirectoryView {
    Known { path: Seq<char> },
    Unknown,
    Untold,
}

impl DeepView for Directory {
    type V = DirectoryView;

    open spec fn deep_view(&self) -> DirectoryView {
        match self {
            Directory::Known { path } => DirectoryView::Known { path: path@ },
            Directory::Unknown => DirectoryView::Unknown,
            Directory::Untold => DirectoryView::Untold,
        }
    }
}

/// A process runs in the configured directory or below it. On a system that does not tell
/// directories, the command alone decides.
pub open spec fn runs_within(
    platform: Platform,
    directory: DirectoryView,
    configured: Seq<char>,
) -> bool {
    match directory {
        DirectoryView::Known { path } => lies_within(platform, path, configured),
        DirectoryView::Unknown => false,
        DirectoryView::Untold => true,
    }
}

/// A row is that of the configured process: of no tracked group, with the same command, and in
/// the configured directory.
pub open spec fn is_match(
    platform: Platform,
    row: ExternalProcessRowView,
    directory: DirectoryView,
    groups: Set<u32>,
    configured_cwd: Seq<char>,
    tokens: Seq<Seq<char>>,
) -> bool {
    &&& !groups.contains(row.process_group_id)
    &&& tokens_match(platform, tokens, row.command)
    &&& runs_within(platform, directory, configured_cwd)
}

/// The position of the first row from `from` on that is that of the configured process.
pub open spec fn match_from(
    platform: Platform,
    rows: Seq<ExternalProcessRowView>,
    directories: Seq<DirectoryView>,
    groups: Set<u32>,
    configured_cwd: Seq<char>,
    tokens: Seq<Seq<char>>,
    from: int,
) -> Option<int>
    decreases rows.len() - from,
{
    if from >= rows.len() {
        None
    } else if is_match(platform, rows[from], directories[from], groups, configured_cwd, tokens) {
        Some(from)
    } else {
        match_from(platform, rows, directories, groups, configured_cwd, tokens, from + 1)
    }
}

/// Whether the directory of a row matters: its group is not tracked and its command is the
/// configured one.
pub fn may_match(
    platform: Platform,
    row: &ExternalProcessRow,
    groups: &Vec<u32>,
    tokens: &Vec<String>,
) -> (r: bool)
    ensures
        r == (!groups@.to_set().contains(row.process_group_id) && tokens_match(
            platform,
            tokens.deep_view(),
            row.command@,
        )),
{
    !contains_number(groups, row.process_group_id) && command_tokens_match(
        platform,
        tokens,
        row.command.as_str(),
    )
}

/// The position of the first row that is that of the configured process; `directories` are those
/// that the processes of the rows run in.
pub fn find_external_process_match(
    platform: Platform,
    rows: &Vec<ExternalProcessRow>,
    directories: &Vec<Directory>,
    groups: &Vec<u32>,
    configured_cwd: &str,
    tokens: &Vec<String>,
) -> (r: Option<usize>)
    requires
        directories@.len() == rows@.len(),
    ensures
        match r {
            Some(i) => i < rows@.len() && match_from(
                platform,
                rows.deep_view(),
                directories.deep_view(),
                groups@.to_set(),
                configured_cwd@,
                tokens.deep_view(),
                0,
            ) == Some(i as int),
            None => match_from(
                platform,
                rows.deep_view(),
                directories.deep_view(),
                groups@.to_set(),
                configured_cwd@,
                tokens.deep_view(),
                0,
            ) is None,
        },
{
    let ghost views = rows.deep_view();
    let ghost places = directories.deep_view();
    let ghost set = groups@.to_set();
    let ghost words = tokens.deep_view();
    let mut i: usize = 0;
    while i < rows.len()
        invariant
            i <= rows@.len(),
            directories@.len() == rows@.len(),
            views == rows.deep_view(),
            places == directories.deep_view(),
            set == groups@.to_set(),
            words == tokens.deep_view(),
            match_from(platform, views, places, set, configured_cwd@, words, 0) == match_from(
                platform,
                views,
                places,
                set,
                configured_cwd@,
                words,
                i as int,
            ),
        decreases rows@.len() - i,
    {
        let within = match &directories[i] {
            Directory::Known { path } => cwd_matches_root(platform, path.as_str(), configured_cwd),
            Directory::Unknown => false,
            Directory::Untold => true,
        };
        assert(places[i as int] == directories@[i as int].deep_view());
        assert(within == runs_within(platform, places[i as int], configured_cwd@));
        assert(views[i as int] == rows@[i as int].deep_view());
        if within && may_match(platform, &rows[i], groups, tokens) {
            assert(is_match(
                platform,
                views[i as int],
                places[i as int],
                set,
                configured_cwd@,
                words,
            ));
            return Some(i);
        }
        i += 1;
    }
    None
}

/// A configured process that may be running already, and the directory it is configured for.
pub struct Adoptable {
    pub project: Project,
    pub process: ProcessDefinition,
    pub directory: String,
}

/// The model of [`Adoptable`].
#[verifier::ext_equal]
pub struct AdoptableView {
    pub project: ProjectView,
    pub process: ProcessDefinitionView,
    pub directory: Seq<char>,
}

impl DeepView for Adoptable {
    type V = AdoptableView;

    open spec fn deep_view(&self) -> AdoptableView {
        AdoptableView {
            project: self.project.deep_view(),
            process: self.process.deep_view(),
            directory: self.directory@,
        }
    }
}

impl Duplicate for Adoptable {
    fn duplicate(&self) -> (r: Self) {
        Adoptable {
            project: self.project.duplicate(),
            process: self.process.duplicate(),
            directory: self.directory.clone(),
        }
    }
}

/// A configured process that may be running already.
pub struct SyncCandidate {
    pub project: Project,
    pub process: ProcessDefinition,
    pub cwd: String,
    /// The words of the command.
    pub tokens: Vec<String>,
}

/// The model of [`SyncCandidate`].
#[verifier::ext_equal]
pub struct SyncCandidateView {
    pub project: ProjectView,
    pub process: ProcessDefinitionView,
    pub cwd: Seq<char>,
    pub tokens: Seq<Seq<char>>,
}

impl DeepView for SyncCandidate {
    type V = SyncCandidateView;

    open spec fn deep_view(&self) -> SyncCandidateView {
        SyncCandidateView {
            project: self.project.deep_view(),
            process: self.process.deep_view(),
            cwd: self.cwd@,
            tokens: self.tokens.deep_view(),
        }
    }
}

impl Duplicate for SyncCandidate {
    fn duplicate(&self) -> (r: Self) {
        SyncCandidate {
            project: self.project.duplicate(),
            process: self.process.duplicate(),
            cwd: self.cwd.clone(),
            tokens: self.tokens.duplicate(),
        }
    }
}

/// A process may be adopted: launchd does not supervise it, its project is configured, and it
/// is not one of another machine.
pub open spec fn adoptable_process(config: ConfigView, process: ProcessDefinitionView) -> Option<
    AdoptableView,
> {
    match config.project(process.project_id) {
        Some(project) if process.launchd is None && config.remote_machine(process) is None => Some(
            AdoptableView { project, process, directory: working_directory(project, process) },
        ),
        _ => None,
    }
}

/// The processes that may be adopted.
pub open spec fn adoptable(
    config: ConfigView,
    processes: Seq<ProcessDefinitionView>,
) -> Seq<AdoptableView>
    decreases processes.len(),
{
    if processes.len() == 0 {
        Seq::empty()
    } else {
        let before = adoptable(config, processes.drop_last());
        match adoptable_process(config, processes.last()) {
            Some(found) => before.push(found),
            None => before,
        }
    }
}

/// Neither processes that launchd supervises nor those of another machine are adopted.
pub proof fn law_only_local_unsupervised_processes_are_adopted(
    config: ConfigView,
    processes: Seq<ProcessDefinitionView>,
)
    ensures
        forall|i: int|
            #![trigger adoptable(config, processes)[i]]
            0 <= i < adoptable(config, processes).len() ==> {
                let found = adoptable(config, processes)[i];
                &&& processes.contains(found.process)
                &&& found.process.launchd is None
                &&& config.remote_machine(found.process) is None
                &&& config.project(found.process.project_id) == Some(found.project)
            },
    decreases processes.len(),
{
    if processes.len() > 0 {
        let front = processes.drop_last();
        law_only_local_unsupervised_processes_are_adopted(config, front);
        let before = adoptable(config, front);
        let after = adoptable(config, processes);
        assert(processes[processes.len() - 1] == processes.last());
        assert forall|i: int| #![trigger after[i]] 0 <= i < after.len() implies {
            let found = after[i];
            &&& processes.contains(found.process)
            &&& found.process.launchd is None
            &&& config.remote_machine(found.process) is None
            &&& config.project(found.process.project_id) == Some(found.project)
        } by {
            if i < before.len() {
                assert(after[i] == before[i]);
                let k = choose|k: int| 0 <= k < front.len() && front[k] == before[i].process;
                assert(processes[k] == after[i].process);
            }
        }
    }
}

/// The processes that may be adopted.
pub fn adoptable_processes(config: &Config) -> (r: Vec<Adoptable>)
    ensures
        r.deep_view() == adoptable(config.deep_view(), config.deep_view().processes),
{
    let ghost conf = config.deep_view();
    let ghost all = config.processes.deep_view();
    let mut r: Vec<Adoptable> = Vec::new();
    let mut i: usize = 0;
    assert(r.deep_view() =~= adoptable(conf, all.take(0)));
    while i < config.processes.len()
        invariant
            i <= config.processes@.len(),
            conf == config.deep_view(),
            all == config.processes.deep_view(),
            r.deep_view() == adoptable(conf, all.take(i as int)),
        decreases config.processes@.len() - i,
    {
        assert(all.take(i + 1).drop_last() =~= all.take(i as int));
        let process = &config.processes[i];
        if process.launchd.is_none() && config.resolve_remote_machine(process).is_none() {
            if let Some(project) = config.find_project(process.project_id.as_str()) {
                let found = Adoptable {
                    project: project.duplicate(),
                    process: process.duplicate(),
                    directory: configured_directory(project, process),
                };
                push_item(&mut r, found);
            }
        }
        i += 1;
    }
    assert(all.take(i as int) =~= all);
    r
}

/// Those that may be adopted, have a directory that exists, and have a command.
pub open spec fn sync_candidates(list: Seq<AdoptableView>, exists: Seq<bool>) -> Seq<
    SyncCandidateView,
>
    decreases list.len(),
{
    if list.len() == 0 {
        Seq::empty()
    } else {
        let before = sync_candidates(list.drop_last(), exists);
        let found = list.last();
        match (
            usable_directory(found.project, found.process, false, exists[list.len() - 1]),
            command_tokens(found.process),
        ) {
            (Ok(cwd), Ok(tokens)) => before.push(
                SyncCandidateView {
                    project: found.project,
                    process: found.process,
                    cwd,
                    tokens,
                },
            ),
            _ => before,
        }
    }
}

/// Those of the [`adoptable_processes`] that can be looked for; `exists` says of each whether
/// its directory does.
pub fn find_sync_candidates(list: &Vec<Adoptable>, exists: &Vec<bool>) -> (r: Vec<SyncCandidate>)
    requires
        exists@.len() == list@.len(),
    ensures
        r.deep_view() == sync_candidates(list.deep_view(), exists@),
{
    let ghost all = list.deep_view();
    let mut r: Vec<SyncCandidate> = Vec::new();
    let mut i: usize = 0;
    assert(r.deep_view() =~= sync_candidates(all.take(0), exists@));
    while i < list.len()
        invariant
            i <= list@.len(),
            exists@.len() == list@.len(),
            all == list.deep_view(),
            r.deep_view() == sync_candidates(all.take(i as int), exists@),
        decreases list@.len() - i,
    {
        assert(all.take(i + 1).drop_last() =~= all.take(i as int));
        let found = &list[i];
        let there: bool = exists[i];
        if let Ok(cwd) = resolve_working_directory(&found.project, &found.process, there) {
            if let Ok(tokens) = process_command_tokens(&found.process) {
                let candidate = SyncCandidate {
                    project: found.project.duplicate(),
                    process: found.process.duplicate(),
                    cwd,
                    tokens,
                };
                push_item(&mut r, candidate);
            }
        }
        i += 1;
    }
    assert(all.take(i as int) =~= all);
    r
}

/// The record of a process that was adopted.
pub open spec fn adopted_record(
    candidate: SyncCandidateView,
    row: ExternalProcessRowView,
    now: Timestamp,
) -> RuntimeProcessRecordView {
    RuntimeProcessRecordView {
        process_id: candidate.process.id,
        project_id: candidate.project.id,
        pid: row.pid,
        process_group_id: row.process_group_id,
        started_at: now,
        command: displayed(candidate.tokens),
    }
}

/// How far a search for running processes has come.
#[verifier::ext_equal]
pub struct Sync {
    pub rt: RuntimeView,
    pub groups: Set<u32>,
    pub adopted: bool,
}

/// One configured process was searched for: it is adopted where it is not active and a row is
/// its.
pub open spec fn sync_one(
    platform: Platform,
    config: ConfigView,
    sync: Sync,
    candidate: SyncCandidateView,
    rows: Seq<ExternalProcessRowView>,
    directories: Seq<DirectoryView>,
    now: Timestamp,
    stamp: StampView,
) -> Sync {
    if active(sync.rt.state_of(candidate.process.id).current_status) {
        sync
    } else {
        match match_from(
            platform,
            rows,
            directories,
            sync.groups,
            candidate.cwd,
            candidate.tokens,
            0,
        ) {
            None => sync,
            Some(i) => Sync {
                rt: sync.rt.with_found(
                    config,
                    candidate.process,
                    adopted_record(candidate, rows[i], now),
                    "Adopted running process group "@ + decimal(rows[i].process_group_id as nat),
                    stamp,
                ),
                groups: sync.groups.insert(rows[i].process_group_id),
                adopted: true,
            },
        }
    }
}

pub open spec fn sync_all(
    platform: Platform,
    config: ConfigView,
    sync: Sync,
    list: Seq<SyncCandidateView>,
    rows: Seq<ExternalProcessRowView>,
    directories: Seq<Seq<DirectoryView>>,
    now: Timestamp,
    stamps: Seq<StampView>,
) -> Sync
    decreases list.len(),
{
    if list.len() == 0 {
        sync
    } else {
        let i = list.len() - 1;
        sync_one(
            platform,
            config,
            sync_all(platform, config, sync, list.drop_last(), rows, directories, now, stamps),
            list.last(),
            rows,
            directories[i],
            now,
            stamps[i],
        )
    }
}

impl RuntimeView {
    /// Configured processes that run already are adopted, and their records are stored.
    pub open spec fn with_synced(
        self,
        platform: Platform,
        config: ConfigView,
        list: Seq<SyncCandidateView>,
        rows: Seq<ExternalProcessRowView>,
        directories: Seq<Seq<DirectoryView>>,
        now: Timestamp,
        stamps: Seq<StampView>,
    ) -> RuntimeView {
        let start = Sync {
            rt: self,
            groups: tracked_groups(self.process_records),
            adopted: false,
        };
        let end = sync_all(platform, config, start, list, rows, directories, now, stamps);
        if end.adopted {
            end.rt.with_records_stored()
        } else {
            end.rt
        }
    }
}

impl Runtime {
    /// Adopts the configured processes that run already. For each of the candidates
    /// `directories` holds the directories that the processes of the rows run in, and `stamps`
    /// a stamp.
    pub fn sync_external_processes(
        &mut self,
        platform: Platform,
        config: &Config,
        list: &Vec<SyncCandidate>,
        rows: &Vec<ExternalProcessRow>,
        directories: &Vec<Vec<Directory>>,
        now: Timestamp,
        stamps: &Vec<Stamp>,
    )
        requires
            directories@.len() == list@.len(),
            forall|i: int|
                0 <= i < directories@.len() ==> (#[trigger] directories@[i])@.len() == rows@.len(),
            stamps@.len() == list@.len(),
        ensures
            final(self).deep_view() == old(self).deep_view().with_synced(
                platform,
                config.deep_view(),
                list.deep_view(),
                rows.deep_view(),
                directories.deep_view(),
                now,
                stamps.deep_view(),
            ),
    {
        let ghost conf = config.deep_view();
        let ghost all = list.deep_view();
        let ghost views = rows.deep_view();
        let ghost places = directories.deep_view();
        let ghost stamp_views = stamps.deep_view();
        let mut groups = self.tracked_process_groups();
        let mut adopted = false;
        let ghost start = Sync { rt: self.deep_view(), groups: groups@.to_set(), adopted: false };
        let mut i: usize = 0;
        while i < list.len()
            invariant
                i <= list@.len(),
                directories@.len() == list@.len(),
                forall|k: int|
                    0 <= k < directories@.len() ==> (#[trigger] directories@[k])@.len()
                        == rows@.len(),
                stamps@.len() == list@.len(),
                conf == config.deep_view(),
                all == list.deep_view(),
                views == rows.deep_view(),
                places == directories.deep_view(),
                stamp_views == stamps.deep_view(),
                sync_all(platform, conf, start, all.take(i as int), views, places, now, stamp_views)
                    == (Sync { rt: self.deep_view(), groups: groups@.to_set(), adopted }),
            decreases list@.len() - i,
        {
            assert(all.take(i + 1).drop_last() =~= all.take(i as int));
            let candidate = &list[i];
            let process = &candidate.process;
            assert(all[i as int] == candidate.deep_view());
            let existing = self.state_of(process.id.as_str());
            if !is_active(existing.current_status) {
                assert(places[i as int] == directories@[i as int].deep_view());
                if let Some(found) = find_external_process_match(
                    platform,
                    rows,
                    &directories[i],
                    &groups,
                    candidate.cwd.as_str(),
                    &candidate.tokens,
                ) {
                    let row = &rows[found];
                    assert(views[found as int] == row.deep_view());
                    let record = RuntimeProcessRecord {
                        process_id: process.id.clone(),
                        project_id: candidate.project.id.clone(),
                        pid: row.pid,
                        process_group_id: row.process_group_id,
                        started_at: now,
                        command: display_command(&candidate.tokens),
                    };
                    assert(record.deep_view() == adopted_record(
                        all[i as int],
                        row.deep_view(),
                        now,
                    ));
                    let message = with_number(
                        "Adopted running process group ",
                        row.process_group_id as u64,
                    );
                    let stamp = Stamp { id: stamps[i].id.clone(), at: stamps[i].at };
                    assert(stamp.deep_view() == stamp_views[i as int]);
                    self.process_found(config, process, &record, message, stamp);
                    let ghost before = groups@;
                    groups.push(row.process_group_id);
                    proof {
                        lemma_push_set(before, row.process_group_id);
                    }
                    adopted = true;
                }
            }
            i += 1;
        }
        assert(all.take(i as int) =~= all);
        if adopted {
            self.persist_runtime_processes();
        }
    }
}

proof fn lemma_push_set(list: Seq<u32>, n: u32)
    ensures
        list.push(n).to_set() == list.to_set().insert(n),
{
    let all = list.push(n);
    assert forall|m: u32| all.to_set().contains(m) <==> list.to_set().insert(n).contains(m) by {
        if list.contains(m) {
            let i = choose|i: int| 0 <= i < list.len() && list[i] == m;
            assert(all[i] == m);
        }
        if m == n {
            assert(all[list.len() as int] == m);
        }
        if all.contains(m) && m != n {
            let i = choose|i: int| 0 <= i < all.len() && all[i] == m;
            assert(list[i] == m);
        }
    }
    assert(all.to_set() =~= list.to_set().insert(n));
}

// ---------------------------------------------------------------------------
// The others
// ---------------------------------------------------------------------------

/// The folder of a project.
pub fn project_root(config: &Config, project_id: &str) -> (r: Result<String, ApiError>)
    ensures
        match config.deep_view().project(project_id@) {
            Some(project) => r matches Ok(root) && root@ == project.root_path,
            None => r matches Err(error) && error.deep_view() == project_not_found(),
        },
{
    match config.find_project(project_id) {
        Some(project) => Ok(project.root_path.clone()),
        None => Err(project_not_found_error()),
    }
}

/// A row is that of a process in the folder which the orchestrator neither is nor tracks.
pub open spec fn is_foreign(
    platform: Platform,
    row: ExternalProcessRowView,
    groups: Set<u32>,
    self_pid: u32,
    places: Map<u32, Seq<char>>,
    root: Seq<char>,
) -> bool {
    &&& row.pid != self_pid
    &&& !groups.contains(row.process_group_id)
    &&& places.contains_key(row.pid)
    &&& lies_within(platform, places[row.pid], root)
}

pub open spec fn has_group(rows: Seq<ExternalProcessRowView>, process_group_id: u32) -> bool {
    exists|i: int|
        0 <= i < rows.len() && (#[trigger] rows[i]).process_group_id == process_group_id
}

/// The first such process of each group.
pub open spec fn leaders(
    platform: Platform,
    rows: Seq<ExternalProcessRowView>,
    groups: Set<u32>,
    self_pid: u32,
    places: Map<u32, Seq<char>>,
    root: Seq<char>,
) -> Seq<ExternalProcessRowView>
    decreases rows.len(),
{
    if rows.len() == 0 {
        Seq::empty()
    } else {
        let before = leaders(platform, rows.drop_last(), groups, self_pid, places, root);
        let row = rows.last();
        if is_foreign(platform, row, groups, self_pid, places, root) && !has_group(
            before,
            row.process_group_id,
        ) {
            before.push(row)
        } else {
            before
        }
    }
}

/// The model of a map from processes to texts.
pub open spec fn texts_by_pid(map: Map<u32, String>) -> Map<u32, Seq<char>> {
    map.map_values(|text: String| text@)
}

/// Whether a row with the group is among the rows.
fn contains_group(rows: &Vec<ExternalProcessRow>, process_group_id: u32) -> (r: bool)
    ensures
        r == has_group(rows.deep_view(), process_group_id),
{
    let ghost all = rows.deep_view();
    let mut i: usize = 0;
    while i < rows.len()
        invariant
            i <= rows@.len(),
            all == rows.deep_view(),
            forall|k: int|
                0 <= k < i ==> (#[trigger] all[k]).process_group_id != process_group_id,
        decreases rows@.len() - i,
    {
        if rows[i].process_group_id == process_group_id {
            assert(all[i as int].process_group_id == process_group_id);
            return true;
        }
        i += 1;
    }
    false
}

/// The first process of each group that runs in the folder and that the orchestrator neither is
/// nor tracks. `places` holds the directories that processes run in.
pub fn external_leaders(
    platform: Platform,
    rows: &Vec<ExternalProcessRow>,
    groups: &Vec<u32>,
    self_pid: u32,
    places: &HashMap<u32, String>,
    root: &str,
) -> (r: Vec<ExternalProcessRow>)
    ensures
        r.deep_view() == leaders(
            platform,
            rows.deep_view(),
            groups@.to_set(),
            self_pid,
            texts_by_pid(places@),
            root@,
        ),
{
    let ghost all = rows.deep_view();
    let ghost set = groups@.to_set();
    let ghost map = texts_by_pid(places@);
    let mut r: Vec<ExternalProcessRow> = Vec::new();
    let mut i: usize = 0;
    assert(r.deep_view() =~= leaders(platform, all.take(0), set, self_pid, map, root@));
    while i < rows.len()
        invariant
            i <= rows@.len(),
            all == rows.deep_view(),
            set == groups@.to_set(),
            map == texts_by_pid(places@),
            r.deep_view() == leaders(platform, all.take(i as int), set, self_pid, map, root@),
        decreases rows@.len() - i,
    {
        assert(all.take(i + 1).drop_last() =~= all.take(i as int));
        let row = &rows[i];
        assert(all.take(i + 1).last() == row.deep_view());
        let within = match places.get(&row.pid) {
            Some(place) => cwd_matches_root(platform, place.as_str(), root),
            None => false,
        };
        let foreign = row.pid != self_pid && !contains_number(groups, row.process_group_id)
            && within;
        assert(foreign == is_foreign(platform, row.deep_view(), set, self_pid, map, root@));
        if foreign && !contains_group(&r, row.process_group_id) {
            push_item(&mut r, row.duplicate());
        }
        i += 1;
    }
    assert(all.take(i as int) =~= all);
    r
}

/// The processes of a group but its leader.
pub open spec fn children_of(
    rows: Seq<ExternalProcessRowView>,
    leader: ExternalProcessRowView,
) -> Seq<ExternalProcessChildView>
    decreases rows.len(),
{
    if rows.len() == 0 {
        Seq::empty()
    } else {
        let before = children_of(rows.drop_last(), leader);
        let row = rows.last();
        if row.process_group_id == leader.process_group_id && row.pid != leader.pid {
            before.push(ExternalProcessChildView { pid: row.pid, command: row.command })
        } else {
            before
        }
    }
}

fn find_children(rows: &Vec<ExternalProcessRow>, leader: &ExternalProcessRow) -> (r: Vec<
    ExternalProcessChild,
>)
    ensures
        r.deep_view() == children_of(rows.deep_view(), leader.deep_view()),
{
    let ghost all = rows.deep_view();
    let ghost view = leader.deep_view();
    let mut r: Vec<ExternalProcessChild> = Vec::new();
    let mut i: usize = 0;
    assert(r.deep_view() =~= children_of(all.take(0), view));
    while i < rows.len()
        invariant
            i <= rows@.len(),
            all == rows.deep_view(),
            view == leader.deep_view(),
            r.deep_view() == children_of(all.take(i as int), view),
        decreases rows@.len() - i,
    {
        assert(all.take(i + 1).drop_last() =~= all.take(i as int));
        let row = &rows[i];
        if row.process_group_id == leader.process_group_id && row.pid != leader.pid {
            push_item(
                &mut r,
                ExternalProcessChild { pid: row.pid, command: row.command.clone() },
            );
        }
        i += 1;
    }
    assert(all.take(i as int) =~= all);
    r
}

/// What is told of the first process of a group.
pub open spec fn described(
    rows: Seq<ExternalProcessRowView>,
    leader: ExternalProcessRowView,
    cwds: Map<u32, Seq<char>>,
    ports: Map<u32, Seq<u32>>,
) -> ExternalProcessView {
    ExternalProcessView {
        pid: leader.pid,
        process_group_id: leader.process_group_id,
        command: leader.command,
        cwd: if cwds.contains_key(leader.pid) {
            cwds[leader.pid]
        } else {
            Seq::empty()
        },
        user: leader.user,
        started_at: leader.started_at,
        etime: leader.etime,
        cpu_percent: leader.cpu_percent,
        memory_kb: leader.memory_kb,
        ports: if ports.contains_key(leader.pid) {
            ports[leader.pid]
        } else {
            Seq::empty()
        },
        children: children_of(rows, leader),
    }
}

/// The model of a map from processes to ports.
pub open spec fn ports_by_pid(map: Map<u32, Vec<u32>>) -> Map<u32, Seq<u32>> {
    map.map_values(|ports: Vec<u32>| ports@)
}

fn copy_numbers(list: &Vec<u32>) -> (r: Vec<u32>)
    ensures
        r@ == list@,
{
    let mut r: Vec<u32> = Vec::new();
    let mut i: usize = 0;
    while i < list.len()
        invariant
            i <= list@.len(),
            r@ =~= list@.take(i as int),
        decreases list@.len() - i,
    {
        r.push(list[i]);
        i += 1;
    }
    assert(r@ =~= list@);
    r
}

/// What is told of the [`external_leaders`]: `cwds` holds the directories that processes run in,
/// and `ports` the ports that they listen on.
pub fn list_external_project_processes(
    leader_rows: &Vec<ExternalProcessRow>,
    rows: &Vec<ExternalProcessRow>,
    cwds: &HashMap<u32, String>,
    ports: &HashMap<u32, Vec<u32>>,
) -> (r: Vec<ExternalProcess>)
    ensures
        r.deep_view() == leader_rows.deep_view().map_values(
            |leader: ExternalProcessRowView|
                described(
                    rows.deep_view(),
                    leader,
                    texts_by_pid(cwds@),
                    ports_by_pid(ports@),
                ),
        ),
{
    let ghost views = rows.deep_view();
    let ghost places = texts_by_pid(cwds@);
    let ghost numbers = ports_by_pid(ports@);
    let ghost all = leader_rows.deep_view().map_values(
        |leader: ExternalProcessRowView| described(views, leader, places, numbers),
    );
    let mut r: Vec<ExternalProcess> = Vec::new();
    let mut i: usize = 0;
    while i < leader_rows.len()
        invariant
            i <= leader_rows@.len(),
            views == rows.deep_view(),
            places == texts_by_pid(cwds@),
            numbers == ports_by_pid(ports@),
            all == leader_rows.deep_view().map_values(
                |leader: ExternalProcessRowView| described(views, leader, places, numbers),
            ),
            r.deep_view() == all.take(i as int),
        decreases leader_rows@.len() - i,
    {
        let leader = &leader_rows[i];
        let cwd = match cwds.get(&leader.pid) {
            Some(cwd) => cwd.clone(),
            None => String::new(),
        };
        let own_ports = match ports.get(&leader.pid) {
            Some(own_ports) => copy_numbers(own_ports),
            None => Vec::new(),
        };
        let process = ExternalProcess {
            pid: leader.pid,
            process_group_id: leader.process_group_id,
            command: leader.command.clone(),
            cwd,
            user: leader.user.clone(),
            started_at: leader.started_at.clone(),
            etime: leader.etime.clone(),
            cpu_percent: leader.cpu_percent.clone(),
            memory_kb: leader.memory_kb,
            ports: own_ports,
            children: find_children(rows, leader),
        };
        proof {
            let expected = described(views, leader.deep_view(), places, numbers);
            assert(process.deep_view().cwd =~= expected.cwd);
            assert(process.deep_view().ports =~= expected.ports);
            assert(process.deep_view() =~= expected);
        }
        push_item(&mut r, process);
        assert(all.take(i + 1) =~= all.take(i as int).push(
            described(views, leader.deep_view(), places, numbers),
        ));
        i += 1;
    }
    assert(all.take(i as int) =~= all);
    r
}

/// No group is told of twice.
pub proof fn law_one_leader_per_group(
    platform: Platform,
    rows: Seq<ExternalProcessRowView>,
    groups: Set<u32>,
    self_pid: u32,
    places: Map<u32, Seq<char>>,
    root: Seq<char>,
)
    ensures
        ({
            let found = leaders(platform, rows, groups, self_pid, places, root);
            &&& forall|i: int, j: int|
                #![trigger found[i], found[j]]
                0 <= i < j < found.len() ==> found[i].process_group_id != found[j].process_group_id
            &&& forall|i: int|
                0 <= i < found.len() ==> is_foreign(
                    platform,
                    #[trigger] found[i],
                    groups,
                    self_pid,
                    places,
                    root,
                )
        }),
    decreases rows.len(),
{
    if rows.len() > 0 {
        law_one_leader_per_group(platform, rows.drop_last(), groups, self_pid, places, root);
        let before = leaders(platform, rows.drop_last(), groups, self_pid, places, root);
        let found = leaders(platform, rows, groups, self_pid, places, root);
        assert forall|i: int, j: int|
            #![trigger found[i], found[j]]
            0 <= i < j < found.len() implies found[i].process_group_id
            != found[j].process_group_id by {
            assert(found[i] == before[i]);
            if j < before.len() {
                assert(found[j] == before[j]);
            }
        }
        assert forall|i: int| 0 <= i < found.len() implies is_foreign(
            platform,
            #[trigger] found[i],
            groups,
            self_pid,
            places,
            root,
        ) by {
            if i < before.len() {
                assert(found[i] == before[i]);
            }
        }
    }
}

// ---------------------------------------------------------------------------
// Stopping one of them
// ---------------------------------------------------------------------------

pub open spec fn group_tracked() -> ApiErrorView {
    ApiErrorView::new(
        "PROCESS_TRACKED"@,
        "This process is managed by the orchestrator. Use the regular Stop button."@,
        false,
    )
}

impl Runtime {
    /// Refuses to stop a group that the orchestrator tracks as if it were a foreign one.
    pub fn check_external_stop(&self, process_group_id: u32) -> (r: Result<(), ApiError>)
        ensures
            r is Ok <==> !tracked_groups(self.deep_view().process_records).contains(
                process_group_id,
            ),
            r matches Err(error) ==> error.deep_view() == group_tracked(),
    {
        let groups = self.tracked_process_groups();
        if contains_number(&groups, process_group_id) {
            Err(
                ApiError::new(
                    "PROCESS_TRACKED",
                    "This process is managed by the orchestrator. Use the regular Stop button.",
                    false,
                ),
            )
        } else {
            Ok(())
        }
    }
}

/// The answer where a foreign group could not be asked to end.
pub fn external_stop_error(error: &GroupError) -> (r: ApiError)
    ensures
        r.deep_view() == ApiErrorView::with_details(
            "STOP_FAILED"@,
            "Failed to signal process"@,
            group_error_text(error.deep_view()),
            true,
        ),
{
    ApiError::with_details("STOP_FAILED", "Failed to signal process", error.text(), true)
}

/// What is told of the process that listens on a port.
pub fn port_owner(pid: u32, process_group_id: u32, command: String, cwd: Option<String>) -> (r:
    ExternalProcess)
    ensures
        r.deep_view() == (ExternalProcessView {
            pid,
            process_group_id,
            command: command@,
            cwd: match cwd.deep_view() {
                Some(cwd) => cwd,
                None => Seq::empty(),
            },
            user: Seq::empty(),
            started_at: Seq::empty(),
            etime: Seq::empty(),
            cpu_percent: "0.0"@,
            memory_kb: 0,
            ports: Seq::empty(),
            children: Seq::empty(),
        }),
{
    let ghost place = match cwd.deep_view() {
        Some(cwd) => cwd,
        None => Seq::empty(),
    };
    let r = ExternalProcess {
        pid,
        process_group_id,
        command,
        cwd: match cwd {
            Some(cwd) => cwd,
            None => String::new(),
        },
        user: String::new(),
        started_at: String::new(),
        etime: String::new(),
        cpu_percent: "0.0".to_string(),
        memory_kb: 0,
        ports: Vec::new(),
        children: Vec::new(),
    };
    assert(r.deep_view().cwd =~= place);
    assert(r.deep_view().user =~= Seq::<char>::empty());
    assert(r.deep_view().started_at =~= Seq::<char>::empty());
    assert(r.deep_view().etime =~= Seq::<char>::empty());
    assert(r.deep_view().ports =~= Seq::<u32>::empty());
    assert(r.deep_view().children =~= Seq::<ExternalProcessChildView>::empty());
    r
}

} // verus!
