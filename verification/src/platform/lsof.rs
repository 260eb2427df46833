//! What `lsof` tells of open files: working directories and listening sockets. Its `-F` output
//! has one field per line, named by the line's first character.
use std::collections::HashMap;
use vstd::prelude::*;

use crate::models::{CommandLine, CommandLineView, CommandOutput, CommandOutputView};
use crate::platform::{command_of, printed, printed_text};
use crate::text::{
    after_last, chars_of, decimal, decimal_text, join, joined, lines, parse_u32, parse_uint,
    push_text, split_lines, tail_after, text_between, texts, trim, trimmed, with_number,
};

verus! {

broadcast use vstd::std_specs::hash::group_hash_axioms;

/// A line holds a field with the given name.
pub open spec fn is_field(line: Seq<char>, name: char) -> bool {
    line.len() > 0 && line[0] == name
}

/// What a field holds.
pub open spec fn field_text(line: Seq<char>) -> Seq<char> {
    line.skip(1)
}

/// What a field holds, if it has the given name.
pub fn field(line: &str, name: char) -> (r: Option<String>)
    ensures
        match r {
            Some(text) => is_field(line@, name) && text@ == field_text(line@),
            None => !is_field(line@, name),
        },
{
    let v = chars_of(line);
    if v.len() > 0 && v[0] == name {
        assert(line@.skip(1) =~= v@.subrange(1, v@.len() as int));
        Some(text_between(&v, 1, v.len()))
    } else {
        None
    }
}

/// The number of a field.
pub open spec fn field_number(line: Seq<char>) -> Option<u32> {
    match parse_uint(trimmed(field_text(line)), u32::MAX as nat) {
        Some(n) => Some(n as u32),
        None => None,
    }
}

fn number_of(text: &str) -> (r: Option<u32>)
    ensures
        r == (match parse_uint(trimmed(text@), u32::MAX as nat) {
            Some(n) => Some(n as u32),
            None => None::<u32>,
        }),
{
    let kept = trim(text);
    parse_u32(kept.as_str())
}

/// What a command printed, whether it succeeded or not.
pub open spec fn anything_printed(output: Option<CommandOutputView>) -> Seq<char> {
    match output {
        Some(output) => output.stdout,
        None => Seq::empty(),
    }
}

fn anything_printed_text(output: &Option<CommandOutput>) -> (r: String)
    ensures
        r@ == anything_printed(output.deep_view()),
{
    match output {
        Some(output) => output.stdout.clone(),
        None => {
            let r = String::new();
            assert(r@ =~= Seq::<char>::empty());
            r
        },
    }
}

// ---------------------------------------------------------------------------
// Working directories
// ---------------------------------------------------------------------------

/// The command that tells the working directory of a process.
pub open spec fn cwd_line(pid: u32) -> CommandLineView {
    command_of("lsof"@, seq!["-a"@, "-p"@, decimal(pid as nat), "-d"@, "cwd"@, "-Fn"@])
}

/// The command that tells the working directory of a process.
pub fn cwd_command(pid: u32) -> (r: CommandLine)
    ensures
        r.deep_view() == cwd_line(pid),
{
    let number = decimal_text(pid as u64);
    let args = texts(&["-a", "-p", number.as_str(), "-d", "cwd", "-Fn"]);
    assert(args.deep_view() =~= cwd_line(pid).args);
    CommandLine { program: "lsof".to_string(), args }
}

/// The first name among lines.
pub open spec fn first_name(list: Seq<Seq<char>>) -> Option<Seq<char>>
    decreases list.len(),
{
    if list.len() == 0 {
        None
    } else if is_field(list[0], 'n') {
        Some(field_text(list[0]))
    } else {
        first_name(list.skip(1))
    }
}

/// The working directory of the process that the [`cwd_command`] told of.
pub fn process_cwd(output: &Option<CommandOutput>) -> (r: Option<String>)
    ensures
        r.deep_view() == first_name(lines(printed(output.deep_view()))),
{
    let text = printed_text(output);
    let list = split_lines(text.as_str());
    let ghost all = list.deep_view();
    let mut i: usize = 0;
    assert(all.skip(0) =~= all);
    while i < list.len()
        invariant
            i <= list@.len(),
            all == list.deep_view(),
            all == lines(printed(output.deep_view())),
            first_name(all) == first_name(all.skip(i as int)),
        decreases list@.len() - i,
    {
        assert(all.skip(i as int).skip(1) =~= all.skip(i + 1));
        assert(all.skip(i as int)[0] == list@[i as int]@);
        if let Some(name) = field(list[i].as_str(), 'n') {
            return Some(name);
        }
        i += 1;
    }
    None
}

/// The command that tells the working directories of all processes.
pub open spec fn all_cwds_line() -> CommandLineView {
    command_of("lsof"@, seq!["-d"@, "cwd"@, "-Fpn"@])
}

/// The command that tells the working directories of all processes.
pub fn all_cwds_command() -> (r: CommandLine)
    ensures
        r.deep_view() == all_cwds_line(),
{
    let args = texts(&["-d", "cwd", "-Fpn"]);
    assert(args.deep_view() =~= all_cwds_line().args);
    CommandLine { program: "lsof".to_string(), args }
}

/// The process that the lines speak of last.
pub open spec fn current_process(list: Seq<Seq<char>>) -> Option<u32>
    decreases list.len(),
{
    if list.len() == 0 {
        None
    } else if is_field(list.last(), 'p') {
        field_number(list.last())
    } else {
        current_process(list.drop_last())
    }
}

/// The last name that lines give each process.
pub open spec fn names_by_process(list: Seq<Seq<char>>) -> Map<u32, Seq<char>>
    decreases list.len(),
{
    if list.len() == 0 {
        Map::empty()
    } else {
        let before = names_by_process(list.drop_last());
        match current_process(list.drop_last()) {
            Some(pid) if is_field(list.last(), 'n') => before.insert(pid, field_text(list.last())),
            _ => before,
        }
    }
}

/// The working directories that the [`all_cwds_command`] told of.
pub fn all_process_cwds(output: &Option<CommandOutput>) -> (r: HashMap<u32, String>)
    ensures
        r@.map_values(|cwd: String| cwd@) == names_by_process(
            lines(anything_printed(output.deep_view())),
        ),
{
    let text = anything_printed_text(output);
    let list = split_lines(text.as_str());
    let ghost all = list.deep_view();
    let ghost plain = |cwd: String| cwd@;
    let mut result: HashMap<u32, String> = HashMap::new();
    let mut current: Option<u32> = None;
    let mut i: usize = 0;
    assert(result@.map_values(plain) =~= names_by_process(all.take(0)));
    while i < list.len()
        invariant
            i <= list@.len(),
            all == list.deep_view(),
            plain == (|cwd: String| cwd@),
            current == current_process(all.take(i as int)),
            result@.map_values(plain) == names_by_process(all.take(i as int)),
        decreases list@.len() - i,
    {
        assert(all.take(i + 1).drop_last() =~= all.take(i as int));
        assert(all.take(i + 1).last() == list@[i as int]@);
        let line = list[i].as_str();
        if let Some(rest) = field(line, 'p') {
            current = number_of(rest.as_str());
        } else if let Some(rest) = field(line, 'n') {
            if let Some(pid) = current {
                let ghost before = result@;
                let _ = result.insert(pid, rest);
                assert(result@.map_values(plain) =~= before.map_values(plain).insert(pid, rest@));
            }
        }
        i += 1;
    }
    assert(all.take(i as int) =~= all);
    result
}

// ---------------------------------------------------------------------------
// Listening sockets
// ---------------------------------------------------------------------------

/// The command that tells who listens on a port.
pub open spec fn listener_line(port: u16) -> CommandLineView {
    command_of(
        "lsof"@,
        seq!["-iTCP:"@ + decimal(port as nat), "-sTCP:LISTEN"@, "-P"@, "-n"@, "-Fpcg"@],
    )
}

/// The command that tells who listens on a port.
pub fn listener_command(port: u16) -> (r: CommandLine)
    ensures
        r.deep_view() == listener_line(port),
{
    let address = with_number("-iTCP:", port as u64);
    let args = texts(&[address.as_str(), "-sTCP:LISTEN", "-P", "-n", "-Fpcg"]);
    assert(args.deep_view() =~= listener_line(port).args);
    CommandLine { program: "lsof".to_string(), args }
}

/// What has been read of the process that listens: it is found once its number and its group
/// are known and the next process begins.
#[verifier::ext_equal]
pub struct ListenerScan {
    pub found: Option<(u32, u32, Seq<char>)>,
    pub pid: Option<u32>,
    pub group: Option<u32>,
    pub command: Option<Seq<char>>,
}

impl ListenerScan {
    /// The process, its group and its command, once the first two are known.
    pub open spec fn complete(self) -> Option<(u32, u32, Seq<char>)> {
        match (self.pid, self.group) {
            (Some(pid), Some(group)) => Some(
                (
                    pid,
                    group,
                    match self.command {
                        Some(command) => command,
                        None => Seq::empty(),
                    },
                ),
            ),
            _ => None,
        }
    }

    pub open spec fn read(self, line: Seq<char>) -> ListenerScan {
        if self.found is Some {
            self
        } else if is_field(line, 'p') {
            if self.complete() is Some {
                ListenerScan { found: self.complete(), ..self }
            } else {
                ListenerScan { found: None, pid: field_number(line), group: None, command: None }
            }
        } else if is_field(line, 'g') {
            ListenerScan { group: field_number(line), ..self }
        } else if is_field(line, 'c') {
            ListenerScan { command: Some(field_text(line)), ..self }
        } else {
            self
        }
    }
}

pub open spec fn listener_scan(list: Seq<Seq<char>>) -> ListenerScan
    decreases list.len(),
{
    if list.len() == 0 {
        ListenerScan { found: None, pid: None, group: None, command: None }
    } else {
        listener_scan(list.drop_last()).read(list.last())
    }
}

/// The first process of which the lines tell both number and group.
pub open spec fn first_listener(list: Seq<Seq<char>>) -> Option<(u32, u32, Seq<char>)> {
    let scan = listener_scan(list);
    if scan.found is Some {
        scan.found
    } else {
        scan.complete()
    }
}

proof fn lemma_listener_found(list: Seq<Seq<char>>, i: int)
    requires
        0 <= i <= list.len(),
        listener_scan(list.take(i)).found is Some,
    ensures
        listener_scan(list).found == listener_scan(list.take(i)).found,
    decreases list.len() - i,
{
    if i < list.len() {
        assert(list.take(i + 1).drop_last() =~= list.take(i));
        lemma_listener_found(list, i + 1);
    } else {
        assert(list.take(i) =~= list);
    }
}

/// The process, its group and its command that the [`listener_command`] told of.
pub fn find_listener_on_port(output: &Option<CommandOutput>) -> (r: Option<(u32, u32, String)>)
    ensures
        r.deep_view() == first_listener(lines(anything_printed(output.deep_view()))),
{
    let text = anything_printed_text(output);
    let list = split_lines(text.as_str());
    let ghost all = list.deep_view();
    let mut pid: Option<u32> = None;
    let mut group: Option<u32> = None;
    let mut command: Option<String> = None;
    let mut i: usize = 0;
    while i < list.len()
        invariant
            i <= list@.len(),
            all == list.deep_view(),
            all == lines(anything_printed(output.deep_view())),
            listener_scan(all.take(i as int)) == (ListenerScan {
                found: None,
                pid,
                group,
                command: command.deep_view(),
            }),
        decreases list@.len() - i,
    {
        assert(all.take(i + 1).drop_last() =~= all.take(i as int));
        assert(all.take(i + 1).last() == list@[i as int]@);
        let line = list[i].as_str();
        if let Some(rest) = field(line, 'p') {
            if let Some(found_pid) = pid {
                if let Some(found_group) = group {
                    proof {
                        lemma_listener_found(all, i + 1);
                    }
                    return Some((found_pid, found_group, command_or_empty(&command)));
                }
            }
            pid = number_of(rest.as_str());
            group = None;
            command = None;
        } else if let Some(rest) = field(line, 'g') {
            group = number_of(rest.as_str());
        } else if let Some(rest) = field(line, 'c') {
            command = Some(rest);
        }
        i += 1;
    }
    assert(all.take(i as int) =~= all);
    match (pid, group) {
        (Some(found_pid), Some(found_group)) => Some(
            (found_pid, found_group, command_or_empty(&command)),
        ),
        _ => None,
    }
}

fn command_or_empty(command: &Option<String>) -> (r: String)
    ensures
        r@ == (match command.deep_view() {
            Some(text) => text,
            None => Seq::<char>::empty(),
        }),
{
    match command {
        Some(text) => text.clone(),
        None => {
            let r = String::new();
            assert(r@ =~= Seq::<char>::empty());
            r
        },
    }
}

/// The command that tells the ports that processes listen on.
pub open spec fn ports_line(pids: Seq<u32>) -> CommandLineView {
    command_of(
        "lsof"@,
        seq![
            "-iTCP"@,
            "-sTCP:LISTEN"@,
            "-P"@,
            "-n"@,
            "-Fpn"@,
            "-p"@,
            joined(pids.map_values(|pid: u32| decimal(pid as nat)), seq![',']),
        ],
    )
}

/// The command that tells the ports that processes listen on.
pub fn ports_command(pids: &Vec<u32>) -> (r: CommandLine)
    ensures
        r.deep_view() == ports_line(pids@),
{
    let ghost numbers = pids@.map_values(|pid: u32| decimal(pid as nat));
    let mut list: Vec<String> = Vec::new();
    let mut i: usize = 0;
    while i < pids.len()
        invariant
            i <= pids@.len(),
            numbers == pids@.map_values(|pid: u32| decimal(pid as nat)),
            list.deep_view() =~= numbers.take(i as int),
        decreases pids@.len() - i,
    {
        push_text(&mut list, decimal_text(pids[i] as u64));
        i += 1;
    }
    assert(numbers.take(i as int) =~= numbers);
    proof {
        reveal_strlit(",");
        assert(","@ =~= seq![',']);
    }
    let joined_pids = join(&list, ",");
    let args = texts(
        &["-iTCP", "-sTCP:LISTEN", "-P", "-n", "-Fpn", "-p", joined_pids.as_str()],
    );
    assert(args.deep_view() =~= ports_line(pids@).args);
    CommandLine { program: "lsof".to_string(), args }
}

/// The ports under a process.
pub open spec fn ports_under(ports: Map<u32, Set<u32>>, pid: u32) -> Set<u32> {
    if ports.contains_key(pid) {
        ports[pid]
    } else {
        Set::empty()
    }
}

/// One more port under a process.
pub open spec fn with_port(ports: Map<u32, Set<u32>>, pid: u32, port: u32) -> Map<u32, Set<u32>> {
    ports.insert(pid, ports_under(ports, pid).insert(port))
}

/// The port at the end of the address that a line names.
pub open spec fn named_port(line: Seq<char>) -> Option<nat> {
    parse_uint(after_last(field_text(line), ':'), u32::MAX as nat)
}

/// The ports that lines give each process.
pub open spec fn ports_by_process(list: Seq<Seq<char>>) -> Map<u32, Set<u32>>
    decreases list.len(),
{
    if list.len() == 0 {
        Map::empty()
    } else {
        let before = ports_by_process(list.drop_last());
        match (current_process(list.drop_last()), named_port(list.last())) {
            (Some(pid), Some(port)) if is_field(list.last(), 'n') => with_port(
                before,
                pid,
                port as u32,
            ),
            _ => before,
        }
    }
}

pub open spec fn increasing(list: Seq<u32>) -> bool {
    forall|i: int, j: int|
        #![trigger list[i], list[j]]
        0 <= i < j < list.len() ==> list[i] < list[j]
}

/// A map lists, under each process, its ports from the lowest to the highest.
pub open spec fn lists_ports(list: Map<u32, Vec<u32>>, ports: Map<u32, Set<u32>>) -> bool {
    &&& list.dom() == ports.dom()
    &&& forall|pid: u32| #[trigger]
        list.contains_key(pid) ==> increasing(list[pid]@) && list[pid]@.to_set() == ports[pid]
}

fn insert_sorted(ports: &mut Vec<u32>, port: u32)
    requires
        increasing(old(ports)@),
    ensures
        increasing(final(ports)@),
        final(ports)@.to_set() == old(ports)@.to_set().insert(port),
{
    let ghost before = ports@;
    let mut i: usize = 0;
    while i < ports.len() && ports[i] < port
        invariant
            ports@ == before,
            i <= ports@.len(),
            forall|k: int| 0 <= k < i ==> #[trigger] ports@[k] < port,
        decreases ports@.len() - i,
    {
        i += 1;
    }
    if i < ports.len() && ports[i] == port {
        assert(before.to_set() =~= before.to_set().insert(port)) by {
            assert(before[i as int] == port);
        }
        return;
    }
    ports.insert(i, port);
    proof {
        let after = ports@;
        assert(after =~= before.insert(i as int, port));
        assert(after[i as int] == port);
        assert forall|a: int, b: int|
            #![trigger after[a], after[b]]
            0 <= a < b < after.len() implies after[a] < after[b] by {
            let x = if a <= i {
                a
            } else {
                a - 1
            };
            let y = if b <= i {
                b
            } else {
                b - 1
            };
            if a != i && b != i {
                assert(before[x] < before[y]);
            } else if a == i {
                assert(after[b] == before[b - 1]);
                if b - 1 > i {
                    assert(before[i as int] < before[b - 1]);
                }
            } else {
                assert(after[a] == before[a]);
            }
        }
        assert forall|p: u32| after.to_set().contains(p) <==> before.to_set().insert(port).contains(
            p,
        ) by {
            if before.contains(p) {
                let k = choose|k: int| 0 <= k < before.len() && before[k] == p;
                if k < i {
                    assert(after[k] == p);
                } else {
                    assert(after[k + 1] == p);
                }
            }
            if after.contains(p) && p != port {
                let k = choose|k: int| 0 <= k < after.len() && after[k] == p;
                if k < i {
                    assert(before[k] == p);
                } else {
                    assert(before[k - 1] == p);
                }
            }
        }
        assert(after.to_set() =~= before.to_set().insert(port));
    }
}

/// Adds a port under a process.
pub(crate) fn add_port(
    list: &mut HashMap<u32, Vec<u32>>,
    pid: u32,
    port: u32,
    Ghost(ports): Ghost<Map<u32, Set<u32>>>,
)
    requires
        lists_ports(old(list)@, ports),
    ensures
        lists_ports(final(list)@, with_port(ports, pid, port)),
{
    let mut own: Vec<u32> = match list.remove(&pid) {
        Some(own) => own,
        None => Vec::new(),
    };
    assert(own@.to_set() =~= ports_under(ports, pid));
    insert_sorted(&mut own, port);
    let _ = list.insert(pid, own);
    assert(list@.dom() =~= with_port(ports, pid, port).dom());
}

/// The ports that the [`ports_command`] told of, from the lowest to the highest.
pub fn listening_ports_for_pids(output: &Option<CommandOutput>) -> (r: HashMap<u32, Vec<u32>>)
    ensures
        lists_ports(r@, ports_by_process(lines(anything_printed(output.deep_view())))),
{
    let text = anything_printed_text(output);
    let list = split_lines(text.as_str());
    let ghost all = list.deep_view();
    let mut result: HashMap<u32, Vec<u32>> = HashMap::new();
    let mut current: Option<u32> = None;
    let mut i: usize = 0;
    assert(result@.dom() =~= ports_by_process(all.take(0)).dom());
    while i < list.len()
        invariant
            i <= list@.len(),
            all == list.deep_view(),
            current == current_process(all.take(i as int)),
            lists_ports(result@, ports_by_process(all.take(i as int))),
        decreases list@.len() - i,
    {
        assert(all.take(i + 1).drop_last() =~= all.take(i as int));
        assert(all.take(i + 1).last() == list@[i as int]@);
        let line = list[i].as_str();
        if let Some(rest) = field(line, 'p') {
            current = number_of(rest.as_str());
        } else if let Some(rest) = field(line, 'n') {
            if let Some(pid) = current {
                let port_text = tail_after(rest.as_str(), ':');
                if let Some(port) = parse_u32(port_text.as_str()) {
                    add_port(
                        &mut result,
                        pid,
                        port,
                        Ghost(ports_by_process(all.take(i as int))),
                    );
                }
            }
        }
        i += 1;
    }
    assert(all.take(i as int) =~= all);
    result
}

} // verus!
