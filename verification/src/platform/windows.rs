//! Windows: `taskkill`, `tasklist` and `netstat`. The first process of a tree stands for the
//! group. There is no gentle signal for a console program, no limit on memory, and no way to
//! tell the working directory or the arguments of a process.
use std::collections::HashMap;
use vstd::prelude::*;

use crate::lookup::{contains_number, push_item};
use crate::models::{CommandLine, CommandLineView, CommandOutput, CommandOutputView};
use crate::platform::lsof::{add_port, lists_ports, with_port};
use crate::platform::{
    bytes_of_kb, cmd_quoted, command_of, entries_of_path, error_of, kb_to_bytes, listener_of,
    parse_netstat_listen_line, parse_tasklist_csv, path_entries, printed, printed_text,
    tasklist_row, windows_command_line, ExternalProcessRow, ExternalProcessRowView, GroupError,
    GroupErrorView, TasklistRow, TasklistRowView,
};
use crate::text::{
    concat, decimal, decimal_text, extend_texts, join, joined, lines, lower, push_text,
    replace_char, replaced, same_text, split_lines, texts, to_lower, trim, trimmed, with_number,
    words,
};

verus! {

broadcast use vstd::std_specs::hash::group_hash_axioms;

// ---------------------------------------------------------------------------
// Process trees
// ---------------------------------------------------------------------------

/// The exit code of `taskkill` where the process does not exist.
pub const TASKKILL_NOT_FOUND: i32 = 128;

/// The command that ends a process and those that it started.
pub open spec fn taskkill_line(process_group_id: u32, force: bool) -> CommandLineView {
    let args = seq!["/PID"@, decimal(process_group_id as nat), "/T"@];
    command_of(
        "taskkill"@,
        if force {
            args.push("/F"@)
        } else {
            args
        },
    )
}

fn taskkill_command(process_group_id: u32, force: bool) -> (r: CommandLine)
    ensures
        r.deep_view() == taskkill_line(process_group_id, force),
{
    let number = decimal_text(process_group_id as u64);
    let mut args = texts(&["/PID", number.as_str(), "/T"]);
    if force {
        push_text(&mut args, "/F".to_string());
    }
    assert(args.deep_view() =~= taskkill_line(process_group_id, force).args);
    CommandLine { program: "taskkill".to_string(), args }
}

/// How `taskkill` ended.
#[derive(Debug, PartialEq)]
pub enum TaskkillReply {
    Finished { success: bool, code: Option<i32>, stderr: String },
    NotRun { error: String },
}

/// The model of [`TaskkillReply`].
pub enum TaskkillReplyView {
    Finished { success: bool, code: Option<i32>, stderr: Seq<char> },
    NotRun { error: Seq<char> },
}

impl DeepView for TaskkillReply {
    type V = TaskkillReplyView;

    open spec fn deep_view(&self) -> TaskkillReplyView {
        match self {
            TaskkillReply::Finished { success, code, stderr } => TaskkillReplyView::Finished {
                success: *success,
                code: *code,
                stderr: stderr@,
            },
            TaskkillReply::NotRun { error } => TaskkillReplyView::NotRun { error: error@ },
        }
    }
}

/// What the end of `taskkill` means: `None` where the process was reached.
pub open spec fn taskkill_error(reply: TaskkillReplyView) -> Option<GroupErrorView> {
    match reply {
        TaskkillReplyView::Finished { success, code, stderr } => if success {
            None
        } else if code == Some(TASKKILL_NOT_FOUND) {
            Some(GroupErrorView::NotFound)
        } else {
            Some(GroupErrorView::Other(trimmed(stderr)))
        },
        TaskkillReplyView::NotRun { error } => Some(GroupErrorView::Other(error)),
    }
}

/// What the end of `taskkill` means.
pub fn taskkill(reply: TaskkillReply) -> (r: Result<(), GroupError>)
    ensures
        error_of(r) == taskkill_error(reply.deep_view()),
{
    match reply {
        TaskkillReply::Finished { success, code, stderr } => {
            if success {
                Ok(())
            } else if code == Some(TASKKILL_NOT_FOUND) {
                Err(GroupError::NotFound)
            } else {
                Err(GroupError::Other(trim(stderr.as_str())))
            }
        },
        TaskkillReply::NotRun { error } => Err(GroupError::Other(error)),
    }
}

/// The command that asks a process tree to end.
pub fn terminate_group(process_group_id: u32) -> (r: CommandLine)
    ensures
        r.deep_view() == taskkill_line(process_group_id, false),
{
    taskkill_command(process_group_id, false)
}

/// The command that kills a process tree.
pub fn force_kill_group(process_group_id: u32) -> (r: CommandLine)
    ensures
        r.deep_view() == taskkill_line(process_group_id, true),
{
    taskkill_command(process_group_id, true)
}

// ---------------------------------------------------------------------------
// Command lines
// ---------------------------------------------------------------------------

/// The command interpreter that runs words which are no program by themselves.
pub open spec fn shell_line(comspec: Option<Seq<char>>, tokens: Seq<Seq<char>>) -> CommandLineView {
    command_of(
        match comspec {
            Some(program) => program,
            None => "cmd.exe"@,
        },
        seq![
            "/C"@,
            joined(tokens.map_values(|token: Seq<char>| cmd_quoted(token)), seq![' ']),
        ],
    )
}

/// The command interpreter that runs words which are no program by themselves; `comspec` is the
/// environment's `COMSPEC`.
pub fn shell_command(comspec: Option<String>, tokens: &Vec<String>) -> (r: CommandLine)
    ensures
        r.deep_view() == shell_line(comspec.deep_view(), tokens.deep_view()),
{
    let program = match &comspec {
        Some(program) => program.clone(),
        None => "cmd.exe".to_string(),
    };
    let line = windows_command_line(tokens);
    let args = texts(&["/C", line.as_str()]);
    let r = CommandLine { program, args };
    assert(r.deep_view().args =~= shell_line(comspec.deep_view(), tokens.deep_view()).args);
    r
}

/// The folders of a list, each where it first occurs; letters of both cases are the same.
pub open spec fn deduped(paths: Seq<Seq<char>>) -> Seq<Seq<char>>
    decreases paths.len(),
{
    if paths.len() == 0 {
        paths
    } else {
        let front = paths.drop_last();
        if occurs(front, paths.last()) {
            deduped(front)
        } else {
            deduped(front).push(paths.last())
        }
    }
}

/// A folder occurs in a list, in letters of either case.
pub open spec fn occurs(paths: Seq<Seq<char>>, path: Seq<char>) -> bool {
    exists|i: int| 0 <= i < paths.len() && lower(#[trigger] paths[i]) == lower(path)
}

proof fn lemma_deduped_occurs(paths: Seq<Seq<char>>, path: Seq<char>)
    ensures
        occurs(deduped(paths), path) <==> occurs(paths, path),
    decreases paths.len(),
{
    if paths.len() > 0 {
        let front = paths.drop_last();
        let last = paths.last();
        lemma_deduped_occurs(front, path);
        lemma_deduped_occurs(front, last);
        assert(paths[front.len() as int] == last);
        assert(occurs(paths, path) <==> occurs(front, path) || lower(last) == lower(path)) by {
            if occurs(front, path) {
                let i = choose|i: int|
                    0 <= i < front.len() && lower(#[trigger] front[i]) == lower(path);
                assert(lower(paths[i]) == lower(path));
            }
            if occurs(paths, path) {
                let i = choose|i: int|
                    0 <= i < paths.len() && lower(#[trigger] paths[i]) == lower(path);
                if i < front.len() {
                    assert(lower(front[i]) == lower(path));
                }
            }
        }
        if occurs(front, last) {
            if lower(last) == lower(path) {
                let i = choose|i: int|
                    0 <= i < front.len() && lower(#[trigger] front[i]) == lower(last);
                assert(lower(front[i]) == lower(path));
            }
        } else {
            let kept = deduped(front);
            let all = kept.push(last);
            assert(all[kept.len() as int] == last);
            if occurs(kept, path) {
                let i = choose|i: int|
                    0 <= i < kept.len() && lower(#[trigger] kept[i]) == lower(path);
                assert(lower(all[i]) == lower(path));
            }
            if occurs(all, path) {
                let i = choose|i: int|
                    0 <= i < all.len() && lower(#[trigger] all[i]) == lower(path);
                if i < kept.len() {
                    assert(lower(kept[i]) == lower(path));
                }
            }
        }
    }
}

/// No folder occurs twice in letters of either case, and every folder of the list is found.
pub proof fn law_deduped_keeps_each_once(paths: Seq<Seq<char>>)
    ensures
        forall|i: int, j: int|
            #![trigger deduped(paths)[i], deduped(paths)[j]]
            0 <= i < j < deduped(paths).len() ==> lower(deduped(paths)[i]) != lower(
                deduped(paths)[j],
            ),
        forall|path: Seq<char>| #[trigger] occurs(deduped(paths), path) <==> occurs(paths, path),
    decreases paths.len(),
{
    if paths.len() > 0 {
        let front = paths.drop_last();
        law_deduped_keeps_each_once(front);
        if !occurs(front, paths.last()) {
            let kept = deduped(front);
            let all = kept.push(paths.last());
            assert forall|i: int, j: int|
                #![trigger all[i], all[j]]
                0 <= i < j < all.len() implies lower(all[i]) != lower(all[j]) by {
                assert(all[i] == kept[i]);
                if j < kept.len() {
                    assert(all[j] == kept[j]);
                } else {
                    assert(!occurs(kept, paths.last()));
                }
            }
        }
    }
    assert forall|path: Seq<char>| #[trigger]
        occurs(deduped(paths), path) <==> occurs(paths, path) by {
        lemma_deduped_occurs(paths, path);
    }
}

fn occurs_in(paths: &Vec<String>, path: &str) -> (r: bool)
    ensures
        r == occurs(paths.deep_view(), path@),
{
    let wanted = to_lower(path);
    let ghost all = paths.deep_view();
    let mut i: usize = 0;
    while i < paths.len()
        invariant
            i <= paths@.len(),
            all == paths.deep_view(),
            wanted@ == lower(path@),
            forall|k: int| 0 <= k < i ==> lower(#[trigger] all[k]) != lower(path@),
        decreases paths@.len() - i,
    {
        let found = to_lower(paths[i].as_str());
        if same_text(found.as_str(), wanted.as_str()) {
            assert(lower(all[i as int]) == lower(path@));
            return true;
        }
        i += 1;
    }
    false
}

/// The folders of a list, each where it first occurs; letters of both cases are the same.
pub fn dedupe_paths(paths: &Vec<String>) -> (r: Vec<String>)
    ensures
        r.deep_view() == deduped(paths.deep_view()),
{
    let ghost all = paths.deep_view();
    let mut r: Vec<String> = Vec::new();
    let mut i: usize = 0;
    assert(r.deep_view() =~= deduped(all.take(0)));
    while i < paths.len()
        invariant
            i <= paths@.len(),
            all == paths.deep_view(),
            r.deep_view() == deduped(all.take(i as int)),
        decreases paths@.len() - i,
    {
        proof {
            assert(all.take(i + 1).drop_last() =~= all.take(i as int));
            lemma_deduped_occurs(all.take(i as int), all[i as int]);
        }
        if !occurs_in(&r, paths[i].as_str()) {
            push_text(&mut r, paths[i].clone());
        }
        i += 1;
    }
    assert(all.take(i as int) =~= all);
    r
}

/// Herd's folder under the local application data, or else the home directory, and the
/// inherited folders.
pub open spec fn default_paths(
    inherited: Option<Seq<char>>,
    home: Option<Seq<char>>,
    local_app_data: Option<Seq<char>>,
) -> Seq<Seq<char>> {
    let root = if local_app_data is Some {
        local_app_data
    } else {
        home
    };
    let own = match root {
        Some(root) => seq![root + "\\Herd\\bin"@],
        None => Seq::empty(),
    };
    let rest = match inherited {
        Some(path) => path_entries(path, ';'),
        None => Seq::empty(),
    };
    own + rest
}

/// The folders that a process finds programs in: Herd's, then the inherited ones;
/// `local_app_data` is the environment's `LOCALAPPDATA`.
pub fn default_process_path(
    inherited_path: Option<String>,
    home_dir: Option<String>,
    local_app_data: Option<String>,
) -> (r: String)
    ensures
        r@ == joined(
            deduped(
                default_paths(
                    inherited_path.deep_view(),
                    home_dir.deep_view(),
                    local_app_data.deep_view(),
                ),
            ),
            seq![';'],
        ),
{
    let mut paths: Vec<String> = Vec::new();
    if let Some(root) = &local_app_data {
        push_text(&mut paths, concat(root.as_str(), "\\Herd\\bin"));
    } else if let Some(root) = &home_dir {
        push_text(&mut paths, concat(root.as_str(), "\\Herd\\bin"));
    }
    if let Some(inherited) = &inherited_path {
        let entries = entries_of_path(inherited.as_str(), ';');
        extend_texts(&mut paths, &entries);
    }
    assert(paths.deep_view() =~= default_paths(
        inherited_path.deep_view(),
        home_dir.deep_view(),
        local_app_data.deep_view(),
    ));
    let kept = dedupe_paths(&paths);
    proof {
        reveal_strlit(";");
        assert(";"@ =~= seq![';']);
    }
    join(&kept, ";")
}

/// What Explorer is told to select: it wants backslashes.
pub open spec fn select_argument(path: Seq<char>) -> Seq<char> {
    "/select,"@ + replaced(path, '/', seq!['\\'])
}

/// The command that shows a file or a folder in Explorer.
pub fn reveal_path(path: &str) -> (r: CommandLine)
    ensures
        r.deep_view() == command_of("explorer"@, seq![select_argument(path@)]),
{
    proof {
        reveal_strlit("\\");
        assert("\\"@ =~= seq!['\\']);
    }
    let native = replace_char(path, '/', "\\");
    let argument = concat("/select,", native.as_str());
    let args = texts(&[argument.as_str()]);
    assert(args.deep_view() =~= seq![select_argument(path@)]);
    CommandLine { program: "explorer".to_string(), args }
}

// ---------------------------------------------------------------------------
// tasklist
// ---------------------------------------------------------------------------

/// Every process that is listed lives.
pub fn is_live_stat(_stat: &str) -> (r: bool)
    ensures
        r,
{
    true
}

/// The command that lists all processes.
pub fn list_command() -> (r: CommandLine)
    ensures
        r.deep_view() == command_of("tasklist"@, seq!["/V"@, "/FO"@, "CSV"@, "/NH"@]),
{
    let args = texts(&["/V", "/FO", "CSV", "/NH"]);
    assert(args.deep_view() =~= seq!["/V"@, "/FO"@, "CSV"@, "/NH"@]);
    CommandLine { program: "tasklist".to_string(), args }
}

/// The command that lists one process.
pub open spec fn process_line(pid: u32) -> CommandLineView {
    command_of(
        "tasklist"@,
        seq!["/FI"@, "PID eq "@ + decimal(pid as nat), "/NH"@, "/FO"@, "CSV"@],
    )
}

/// The command that lists one process.
pub fn process_command(pid: u32) -> (r: CommandLine)
    ensures
        r.deep_view() == process_line(pid),
{
    let filter = with_number("PID eq ", pid as u64);
    let args = texts(&["/FI", filter.as_str(), "/NH", "/FO", "CSV"]);
    assert(args.deep_view() =~= process_line(pid).args);
    CommandLine { program: "tasklist".to_string(), args }
}

/// The processes that lines tell of.
pub open spec fn task_rows(list: Seq<Seq<char>>) -> Seq<TasklistRowView>
    decreases list.len(),
{
    if list.len() == 0 {
        Seq::empty()
    } else {
        let before = task_rows(list.drop_last());
        match tasklist_row(list.last()) {
            Some(row) => before.push(row),
            None => before,
        }
    }
}

/// The rows that `tasklist` printed.
pub fn tasklist_rows(output: &Option<CommandOutput>) -> (r: Vec<TasklistRow>)
    ensures
        r.deep_view() == task_rows(lines(printed(output.deep_view()))),
{
    let text = printed_text(output);
    let list = split_lines(text.as_str());
    let ghost all = list.deep_view();
    let mut r: Vec<TasklistRow> = Vec::new();
    let mut i: usize = 0;
    assert(r.deep_view() =~= task_rows(all.take(0)));
    while i < list.len()
        invariant
            i <= list@.len(),
            all == list.deep_view(),
            r.deep_view() == task_rows(all.take(i as int)),
        decreases list@.len() - i,
    {
        assert(all.take(i + 1).drop_last() =~= all.take(i as int));
        if let Some(row) = parse_tasklist_csv(list[i].as_str()) {
            push_item(&mut r, row);
        }
        i += 1;
    }
    assert(all.take(i as int) =~= all);
    r
}

/// The first row of a process.
pub open spec fn row_of(rows: Seq<TasklistRowView>, pid: u32) -> Option<TasklistRowView>
    decreases rows.len(),
{
    if rows.len() == 0 {
        None
    } else if rows[0].pid == pid {
        Some(rows[0])
    } else {
        row_of(rows.skip(1), pid)
    }
}

fn find_row(rows: &Vec<TasklistRow>, pid: u32) -> (r: Option<&TasklistRow>)
    ensures
        r.deep_view() == row_of(rows.deep_view(), pid),
{
    let ghost all = rows.deep_view();
    let mut i: usize = 0;
    assert(all.skip(0) =~= all);
    while i < rows.len()
        invariant
            i <= rows@.len(),
            all == rows.deep_view(),
            row_of(all, pid) == row_of(all.skip(i as int), pid),
        decreases rows@.len() - i,
    {
        assert(all.skip(i as int).skip(1) =~= all.skip(i + 1));
        assert(all.skip(i as int)[0] == rows@[i as int].deep_view());
        if rows[i].pid == pid {
            return Some(&rows[i]);
        }
        i += 1;
    }
    None
}

/// The rows that were printed of a process.
pub open spec fn printed_row(output: Option<CommandOutputView>, pid: u32) -> Option<
    TasklistRowView,
> {
    row_of(task_rows(lines(printed(output))), pid)
}

/// A row of `tasklist` as a process of this machine.
pub open spec fn row_process(row: TasklistRowView) -> ExternalProcessRowView {
    ExternalProcessRowView {
        pid: row.pid,
        process_group_id: row.pid,
        stat: row.status,
        command: row.image,
        user: row.user,
        memory_kb: row.memory_kb,
        cpu_percent: "0.0"@,
        etime: Seq::empty(),
        started_at: Seq::empty(),
    }
}

fn nothing() -> (r: String)
    ensures
        r@ == Seq::<char>::empty(),
{
    let r = String::new();
    assert(r@ =~= Seq::<char>::empty());
    r
}

/// The processes that the [`list_command`] told of.
pub fn list_live_processes(output: &Option<CommandOutput>) -> (r: Vec<ExternalProcessRow>)
    ensures
        r.deep_view() == task_rows(lines(printed(output.deep_view()))).map_values(
            |row: TasklistRowView| row_process(row),
        ),
{
    let rows = tasklist_rows(output);
    let ghost all = rows.deep_view().map_values(|row: TasklistRowView| row_process(row));
    let mut r: Vec<ExternalProcessRow> = Vec::new();
    let mut i: usize = 0;
    while i < rows.len()
        invariant
            i <= rows@.len(),
            all == rows.deep_view().map_values(|row: TasklistRowView| row_process(row)),
            r.deep_view() == all.take(i as int),
        decreases rows@.len() - i,
    {
        let row = &rows[i];
        let process = ExternalProcessRow {
            pid: row.pid,
            process_group_id: row.pid,
            stat: row.status.clone(),
            command: row.image.clone(),
            user: row.user.clone(),
            memory_kb: row.memory_kb,
            cpu_percent: "0.0".to_string(),
            etime: nothing(),
            started_at: nothing(),
        };
        assert(process.deep_view() == row_process(row.deep_view()));
        push_item(&mut r, process);
        assert(all.take(i + 1) =~= all.take(i as int).push(row_process(row.deep_view())));
        i += 1;
    }
    assert(all.take(i as int) =~= all);
    r
}

/// Whether the process that the [`process_command`] asked for is there.
pub fn pid_is_alive(output: &Option<CommandOutput>, pid: u32) -> (r: bool)
    ensures
        r == (printed_row(output.deep_view(), pid) is Some),
{
    let rows = tasklist_rows(output);
    find_row(&rows, pid).is_some()
}

/// Whether the first process of a group is there; the output is that of its
/// [`process_command`].
pub fn group_exists(output: &Option<CommandOutput>, process_group_id: u32) -> (r: bool)
    ensures
        r == (printed_row(output.deep_view(), process_group_id) is Some),
{
    pid_is_alive(output, process_group_id)
}

/// The group and the state of the process that the [`process_command`] asked for: its own
/// group, and running.
pub fn process_info_for_pid(output: &Option<CommandOutput>, pid: u32) -> (r: Option<(u32, String)>)
    ensures
        r.deep_view() == (if printed_row(output.deep_view(), pid) is Some {
            Some((pid, "Running"@))
        } else {
            None
        }),
{
    if pid_is_alive(output, pid) {
        Some((pid, "Running".to_string()))
    } else {
        None
    }
}

/// The live process of a group, which is its first one, if that is there.
pub fn live_process_in_group(output: &Option<CommandOutput>, process_group_id: u32) -> (r: Option<
    u32,
>)
    ensures
        r == (if printed_row(output.deep_view(), process_group_id) is Some {
            Some(process_group_id)
        } else {
            None
        }),
{
    if pid_is_alive(output, process_group_id) {
        Some(process_group_id)
    } else {
        None
    }
}

/// The program of the process that the [`process_command`] asked for.
pub fn image_name_for_pid(output: &Option<CommandOutput>, pid: u32) -> (r: Option<String>)
    ensures
        r.deep_view() == (match printed_row(output.deep_view(), pid) {
            Some(row) => Some(row.image),
            None => None,
        }),
{
    let rows = tasklist_rows(output);
    match find_row(&rows, pid) {
        Some(row) => Some(row.image.clone()),
        None => None,
    }
}

/// The memory in bytes of the process that the [`process_command`] asked for.
pub fn read_process_metrics(output: &Option<CommandOutput>, pid: u32) -> (r: Option<u64>)
    ensures
        r == (match printed_row(output.deep_view(), pid) {
            Some(row) => Some(bytes_of_kb(row.memory_kb as nat)),
            None => None::<u64>,
        }),
{
    let rows = tasklist_rows(output);
    match find_row(&rows, pid) {
        Some(row) => Some(kb_to_bytes(row.memory_kb)),
        None => None,
    }
}

// ---------------------------------------------------------------------------
// netstat
// ---------------------------------------------------------------------------

/// The command that lists all sockets. Naming the protocol would leave out those of IPv6.
pub fn netstat_command() -> (r: CommandLine)
    ensures
        r.deep_view() == command_of("netstat"@, seq!["-ano"@]),
{
    let args = texts(&["-ano"]);
    assert(args.deep_view() =~= seq!["-ano"@]);
    CommandLine { program: "netstat".to_string(), args }
}

/// The listening sockets that lines tell of: port and process.
pub open spec fn listeners(list: Seq<Seq<char>>) -> Seq<(u16, u32)>
    decreases list.len(),
{
    if list.len() == 0 {
        Seq::empty()
    } else {
        let before = listeners(list.drop_last());
        match listener_of(words(list.last())) {
            Some(listener) => before.push(listener),
            None => before,
        }
    }
}

/// The listening sockets that the [`netstat_command`] told of: port and process.
pub fn netstat_listeners(output: &Option<CommandOutput>) -> (r: Vec<(u16, u32)>)
    ensures
        r@ == listeners(lines(printed(output.deep_view()))),
{
    let text = printed_text(output);
    let list = split_lines(text.as_str());
    let ghost all = list.deep_view();
    let mut r: Vec<(u16, u32)> = Vec::new();
    let mut i: usize = 0;
    assert(r@ =~= listeners(all.take(0)));
    while i < list.len()
        invariant
            i <= list@.len(),
            all == list.deep_view(),
            r@ == listeners(all.take(i as int)),
        decreases list@.len() - i,
    {
        assert(all.take(i + 1).drop_last() =~= all.take(i as int));
        assert(all.take(i + 1).last() == list@[i as int]@);
        if let Some(listener) = parse_netstat_listen_line(list[i].as_str()) {
            r.push(listener);
        }
        i += 1;
    }
    assert(all.take(i as int) =~= all);
    r
}

/// The process of the first socket that listens on a port.
pub open spec fn listener_on(sockets: Seq<(u16, u32)>, port: u16) -> Option<u32>
    decreases sockets.len(),
{
    if sockets.len() == 0 {
        None
    } else if sockets[0].0 == port {
        Some(sockets[0].1)
    } else {
        listener_on(sockets.skip(1), port)
    }
}

/// The process that listens on a port, by what the [`netstat_command`] told of.
pub fn find_listener_on_port(output: &Option<CommandOutput>, port: u16) -> (r: Option<u32>)
    ensures
        r == listener_on(listeners(lines(printed(output.deep_view()))), port),
{
    let sockets = netstat_listeners(output);
    let ghost all = sockets@;
    let mut i: usize = 0;
    assert(all.skip(0) =~= all);
    while i < sockets.len()
        invariant
            i <= sockets@.len(),
            all == sockets@,
            all == listeners(lines(printed(output.deep_view()))),
            listener_on(all, port) == listener_on(all.skip(i as int), port),
        decreases sockets@.len() - i,
    {
        assert(all.skip(i as int).skip(1) =~= all.skip(i + 1));
        assert(all.skip(i as int)[0] == all[i as int]);
        let (listen_port, pid) = sockets[i];
        if listen_port == port {
            return Some(pid);
        }
        i += 1;
    }
    None
}

/// The process that listens, its group and its command: the group is the process, and the
/// command is its program, empty where it is not listed. The output is that of its
/// [`process_command`].
pub fn listener_for_pid(pid: u32, listed: &Option<CommandOutput>) -> (r: (u32, u32, String))
    ensures
        r.0 == pid,
        r.1 == pid,
        r.2@ == (match printed_row(listed.deep_view(), pid) {
            Some(row) => row.image,
            None => Seq::<char>::empty(),
        }),
{
    let image = match image_name_for_pid(listed, pid) {
        Some(image) => image,
        None => nothing(),
    };
    (pid, pid, image)
}

/// The ports that the wanted processes listen on.
pub open spec fn wanted_ports(sockets: Seq<(u16, u32)>, wanted: Seq<u32>) -> Map<u32, Set<u32>>
    decreases sockets.len(),
{
    if sockets.len() == 0 {
        Map::empty()
    } else {
        let before = wanted_ports(sockets.drop_last(), wanted);
        let (port, pid) = sockets.last();
        if wanted.contains(pid) {
            with_port(before, pid, port as u32)
        } else {
            before
        }
    }
}

/// The ports that processes listen on, by what the [`netstat_command`] told of, from the lowest
/// to the highest.
pub fn listening_ports_for_pids(output: &Option<CommandOutput>, pids: &Vec<u32>) -> (r: HashMap<
    u32,
    Vec<u32>,
>)
    ensures
        lists_ports(
            r@,
            wanted_ports(listeners(lines(printed(output.deep_view()))), pids@),
        ),
{
    let sockets = netstat_listeners(output);
    let ghost all = sockets@;
    let mut result: HashMap<u32, Vec<u32>> = HashMap::new();
    let mut i: usize = 0;
    assert(result@.dom() =~= wanted_ports(all.take(0), pids@).dom());
    while i < sockets.len()
        invariant
            i <= sockets@.len(),
            all == sockets@,
            lists_ports(result@, wanted_ports(all.take(i as int), pids@)),
        decreases sockets@.len() - i,
    {
        assert(all.take(i + 1).drop_last() =~= all.take(i as int));
        let (port, pid) = sockets[i];
        if contains_number(pids, pid) {
            add_port(
                &mut result,
                pid,
                port as u32,
                Ghost(wanted_ports(all.take(i as int), pids@)),
            );
        }
        i += 1;
    }
    assert(all.take(i as int) =~= all);
    result
}

} // verus!
