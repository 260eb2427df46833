//! What differs between the systems that processes run on.
//!
//! A process is started in a group of its own so that a shell and the workers that it starts can
//! be stopped together. [`unix`] has process groups; on [`windows`] the first process of a tree
//! stands for the group. What only the system can tell comes from its tools: each question is a
//! command line, and each answer is read out of what the command printed.
use vstd::prelude::*;

use crate::lookup::kept_where;
use crate::models::{CommandLineView, CommandOutput, CommandOutputView, Duplicate};
use crate::text::{
    after_last, chars_of, concat3, has_prefix, is_digit, is_space, is_whitespace, join, joined,
    parse_u16, parse_u32, parse_u64, parse_uint, push_text, replace_char, replaced, same_text,
    split, split_char, split_whitespace, starts_with, tail_after, to_upper, trim, trimmed, upper,
    words,
};

pub mod lsof;
pub mod unix;
pub mod windows;

verus! {

/// The system that processes run on.
#[derive(Clone, Copy, PartialEq, Eq, Structural, Debug)]
pub enum Platform {
    Unix,
    Windows,
}

/// A process of this machine. On Windows, which has no process groups, the group is the process
/// itself, and what cannot be told is empty.
#[derive(Debug, PartialEq)]
pub struct ExternalProcessRow {
    pub pid: u32,
    pub process_group_id: u32,
    /// The state that the system lists.
    pub stat: String,
    pub command: String,
    pub user: String,
    pub memory_kb: u64,
    /// The share of the processor in percent, as the text of a number; zero where it is not told.
    pub cpu_percent: String,
    pub etime: String,
    pub started_at: String,
}

/// The model of [`ExternalProcessRow`].
#[verifier::ext_equal]
pub struct ExternalProcessRowView {
    pub pid: u32,
    pub process_group_id: u32,
    pub stat: Seq<char>,
    pub command: Seq<char>,
    pub user: Seq<char>,
    pub memory_kb: u64,
    pub cpu_percent: Seq<char>,
    pub etime: Seq<char>,
    pub started_at: Seq<char>,
}

impl DeepView for ExternalProcessRow {
    type V = ExternalProcessRowView;

    open spec fn deep_view(&self) -> ExternalProcessRowView {
        ExternalProcessRowView {
            pid: self.pid,
            process_group_id: self.process_group_id,
            stat: self.stat@,
            command: self.command@,
            user: self.user@,
            memory_kb: self.memory_kb,
            cpu_percent: self.cpu_percent@,
            etime: self.etime@,
            started_at: self.started_at@,
        }
    }
}

impl Duplicate for ExternalProcessRow {
    fn duplicate(&self) -> (r: Self) {
        ExternalProcessRow {
            pid: self.pid,
            process_group_id: self.process_group_id,
            stat: self.stat.clone(),
            command: self.command.clone(),
            user: self.user.clone(),
            memory_kb: self.memory_kb,
            cpu_percent: self.cpu_percent.clone(),
            etime: self.etime.clone(),
            started_at: self.started_at.clone(),
        }
    }
}

/// A state that the system lists is that of a process that has not ended.
pub open spec fn live_stat_on(platform: Platform, stat: Seq<char>) -> bool {
    match platform {
        Platform::Unix => unix::live_stat(stat),
        Platform::Windows => true,
    }
}

/// Whether a state that the system lists is that of a process that has not ended.
pub fn stat_is_live(platform: Platform, stat: &str) -> (r: bool)
    ensures
        r == live_stat_on(platform, stat@),
{
    match platform {
        Platform::Unix => unix::is_live_stat(stat),
        Platform::Windows => windows::is_live_stat(stat),
    }
}

/// Why a process group could not be signalled.
#[derive(Debug, PartialEq)]
pub enum GroupError {
    /// There is no such group, so there is nothing left to signal.
    NotFound,
    Other(String),
}

/// The model of [`GroupError`].
pub enum GroupErrorView {
    NotFound,
    Other(Seq<char>),
}

impl DeepView for GroupError {
    type V = GroupErrorView;

    open spec fn deep_view(&self) -> GroupErrorView {
        match self {
            GroupError::NotFound => GroupErrorView::NotFound,
            GroupError::Other(message) => GroupErrorView::Other(message@),
        }
    }
}

/// An error of a process group in words.
pub open spec fn group_error_text(error: GroupErrorView) -> Seq<char> {
    match error {
        GroupErrorView::NotFound => "no such process group"@,
        GroupErrorView::Other(message) => message,
    }
}

impl GroupError {
    /// The error in words.
    pub fn text(&self) -> (r: String)
        ensures
            r@ == group_error_text(self.deep_view()),
    {
        match self {
            GroupError::NotFound => "no such process group".to_string(),
            GroupError::Other(message) => message.clone(),
        }
    }
}

/// The error of a result, if it is one.
pub open spec fn error_of(result: Result<(), GroupError>) -> Option<GroupErrorView> {
    match result {
        Ok(_) => None,
        Err(error) => Some(error.deep_view()),
    }
}

// ---------------------------------------------------------------------------
// Commands and what they print
// ---------------------------------------------------------------------------

/// A command line of the given words.
pub open spec fn command_of(program: Seq<char>, args: Seq<Seq<char>>) -> CommandLineView {
    CommandLineView { program, args }
}

/// What a command printed where it succeeded, nothing where it did not.
pub open spec fn printed(output: Option<CommandOutputView>) -> Seq<char> {
    match output {
        Some(output) if output.success => output.stdout,
        _ => Seq::empty(),
    }
}

/// What a command printed where it succeeded, nothing where it did not.
pub fn printed_text(output: &Option<CommandOutput>) -> (r: String)
    ensures
        r@ == printed(output.deep_view()),
{
    match output {
        Some(output) => if output.success {
            output.stdout.clone()
        } else {
            let r = String::new();
            assert(r@ =~= Seq::<char>::empty());
            r
        },
        None => {
            let r = String::new();
            assert(r@ =~= Seq::<char>::empty());
            r
        },
    }
}

/// The entries of a list of folders, without whitespace around them and without empty ones.
pub open spec fn path_entries(path: Seq<char>, separator: char) -> Seq<Seq<char>> {
    kept_entries(split(path, separator))
}

pub open spec fn kept_entries(pieces: Seq<Seq<char>>) -> Seq<Seq<char>>
    decreases pieces.len(),
{
    if pieces.len() == 0 {
        pieces
    } else {
        let entry = trimmed(pieces.last());
        if entry.len() > 0 {
            kept_entries(pieces.drop_last()).push(entry)
        } else {
            kept_entries(pieces.drop_last())
        }
    }
}

/// The entries of a list of folders.
pub fn entries_of_path(path: &str, separator: char) -> (r: Vec<String>)
    ensures
        r.deep_view() == path_entries(path@, separator),
{
    let pieces = split_char(path, separator);
    let ghost all = pieces.deep_view();
    let mut r: Vec<String> = Vec::new();
    let mut i: usize = 0;
    assert(r.deep_view() =~= kept_entries(all.take(0)));
    while i < pieces.len()
        invariant
            i <= pieces@.len(),
            all == pieces.deep_view(),
            r.deep_view() == kept_entries(all.take(i as int)),
        decreases pieces@.len() - i,
    {
        assert(all.take(i + 1).drop_last() =~= all.take(i as int));
        let entry = trim(pieces[i].as_str());
        if !entry.as_str().is_empty() {
            push_text(&mut r, entry);
        }
        i += 1;
    }
    assert(all.take(i as int) =~= all);
    r
}

/// The bytes of a number of kilobytes, the greatest number where they are more.
pub open spec fn bytes_of_kb(kb: nat) -> u64 {
    if kb * 1024 <= u64::MAX {
        (kb * 1024) as u64
    } else {
        u64::MAX
    }
}

/// The bytes of a number of kilobytes, the greatest number where they are more.
pub fn kb_to_bytes(kb: u64) -> (r: u64)
    ensures
        r == bytes_of_kb(kb as nat),
{
    match kb.checked_mul(1024) {
        Some(bytes) => bytes,
        None => u64::MAX,
    }
}

// ---------------------------------------------------------------------------
// netstat
// ---------------------------------------------------------------------------

/// The port at the end of an address.
pub open spec fn port_of(addr: Seq<char>) -> Option<nat> {
    parse_uint(after_last(addr, ':'), 65535)
}

/// The port at the end of an address such as `127.0.0.1:3000` or `[::1]:3000`.
pub fn port_suffix(addr: &str) -> (r: Option<u16>)
    ensures
        r is Some <==> port_of(addr@) is Some,
        r matches Some(port) ==> port_of(addr@) == Some(port as nat),
{
    let suffix = tail_after(addr, ':');
    parse_u16(suffix.as_str())
}

/// An address that stands for any peer.
pub open spec fn is_wildcard(addr: Seq<char>) -> bool {
    port_of(addr) == Some(0nat) || addr == "*:*"@
}

/// The port of the other end of a connection, `0` where it is any.
pub fn foreign_port(addr: &str) -> (r: Option<u16>)
    ensures
        r == Some(0u16) <==> is_wildcard(addr@),
        r matches Some(port) ==> port_of(addr@) == Some(port as nat) || addr@ == "*:*"@,
        r is None ==> port_of(addr@) is None,
{
    if same_text(addr, "*:*") {
        return Some(0);
    }
    port_suffix(addr)
}

/// The port and the process of a listening socket, by the columns of a `netstat -ano` row:
/// protocol, local address, foreign address, state, process. A socket that listens has a
/// wildcard for a foreign address, whatever the language of the state.
pub open spec fn listener_of(columns: Seq<Seq<char>>) -> Option<(u16, u32)> {
    if columns.len() < 4 || upper(columns[0]) != "TCP"@ {
        None
    } else if !is_wildcard(columns[2]) && !has_prefix(upper(columns[3]), "LISTEN"@) {
        None
    } else {
        let pid_column = if columns.len() > 4 {
            columns[4]
        } else {
            columns[3]
        };
        match (port_of(columns[1]), parse_uint(pid_column, u32::MAX as nat)) {
            (Some(port), Some(pid)) => Some((port as u16, pid as u32)),
            _ => None,
        }
    }
}

/// The port and the process of the listening socket that a row of `netstat -ano` tells of.
pub fn parse_netstat_listen_line(line: &str) -> (r: Option<(u16, u32)>)
    ensures
        r == listener_of(words(line@)),
{
    let columns = split_whitespace(line);
    assert(columns.deep_view().len() == columns@.len());
    if columns.len() < 4 {
        return None;
    }
    assert(forall|i: int|
        0 <= i < columns@.len() ==> #[trigger] columns.deep_view()[i] == columns@[i]@);
    let protocol = to_upper(columns[0].as_str());
    if !same_text(protocol.as_str(), "TCP") {
        return None;
    }
    let state = to_upper(columns[3].as_str());
    let foreign_is_wildcard = foreign_port(columns[2].as_str()) == Some(0);
    if !foreign_is_wildcard && !starts_with(state.as_str(), "LISTEN") {
        return None;
    }
    let pid_column = if columns.len() > 4 {
        &columns[4]
    } else {
        &columns[3]
    };
    match (port_suffix(columns[1].as_str()), parse_u32(pid_column.as_str())) {
        (Some(port), Some(pid)) => Some((port, pid)),
        _ => None,
    }
}

/// Where the foreign address is a wildcard, the word for the state does not matter.
pub proof fn law_listener_in_any_language(columns: Seq<Seq<char>>, state: Seq<char>)
    requires
        columns.len() >= 5,
        is_wildcard(columns[2]),
    ensures
        listener_of(columns.update(3, state)) == listener_of(columns),
{
}

// ---------------------------------------------------------------------------
// tasklist
// ---------------------------------------------------------------------------

/// A row of `tasklist /FO CSV`: the plain form has five columns, the verbose one adds the status
/// and the user.
#[derive(Debug, PartialEq)]
pub struct TasklistRow {
    pub image: String,
    pub pid: u32,
    pub memory_kb: u64,
    pub status: String,
    pub user: String,
}

/// The model of [`TasklistRow`].
#[verifier::ext_equal]
pub struct TasklistRowView {
    pub image: Seq<char>,
    pub pid: u32,
    pub memory_kb: u64,
    pub status: Seq<char>,
    pub user: Seq<char>,
}

impl DeepView for TasklistRow {
    type V = TasklistRowView;

    open spec fn deep_view(&self) -> TasklistRowView {
        TasklistRowView {
            image: self.image@,
            pid: self.pid,
            memory_kb: self.memory_kb,
            status: self.status@,
            user: self.user@,
        }
    }
}

impl Duplicate for TasklistRow {
    fn duplicate(&self) -> (r: Self) {
        TasklistRow {
            image: self.image.clone(),
            pid: self.pid,
            memory_kb: self.memory_kb,
            status: self.status.clone(),
            user: self.user.clone(),
        }
    }
}

/// What has been read of a row: the complete fields, the field that is open, and whether a quote
/// is open.
#[verifier::ext_equal]
pub struct CsvScan {
    pub fields: Seq<Seq<char>>,
    pub current: Seq<char>,
    pub in_quotes: bool,
}

/// Reading one character: commas outside quotes end a field, quotes are part of none.
pub open spec fn csv_char(scan: CsvScan, c: char) -> CsvScan {
    if c == '"' {
        CsvScan { in_quotes: !scan.in_quotes, ..scan }
    } else if c == ',' && !scan.in_quotes {
        CsvScan { fields: scan.fields.push(scan.current), current: Seq::empty(), ..scan }
    } else {
        CsvScan { current: scan.current.push(c), ..scan }
    }
}

pub open spec fn csv_text(scan: CsvScan, s: Seq<char>) -> CsvScan
    decreases s.len(),
{
    if s.len() == 0 {
        scan
    } else {
        csv_char(csv_text(scan, s.drop_last()), s.last())
    }
}

pub open spec fn csv_start() -> CsvScan {
    CsvScan { fields: Seq::empty(), current: Seq::empty(), in_quotes: false }
}

/// The fields of a row.
pub open spec fn csv_fields(line: Seq<char>) -> Seq<Seq<char>> {
    let scan = csv_text(csv_start(), line);
    scan.fields.push(scan.current)
}

/// The fields of a row, with double quotes grouping.
pub fn split_csv_fields(line: &str) -> (r: Vec<String>)
    ensures
        r.deep_view() == csv_fields(line@),
{
    let v = chars_of(line);
    let mut fields: Vec<String> = Vec::new();
    let mut current = String::new();
    let mut in_quotes = false;
    let mut i: usize = 0;
    assert(fields.deep_view() =~= Seq::<Seq<char>>::empty());
    while i < v.len()
        invariant
            v@ == line@,
            i <= v@.len(),
            csv_text(csv_start(), line@.take(i as int)) == (CsvScan {
                fields: fields.deep_view(),
                current: current@,
                in_quotes,
            }),
        decreases v@.len() - i,
    {
        assert(line@.take(i + 1).drop_last() =~= line@.take(i as int));
        let c = v[i];
        if c == '"' {
            in_quotes = !in_quotes;
        } else if c == ',' && !in_quotes {
            push_text(&mut fields, current);
            current = String::new();
        } else {
            current.push(c);
        }
        i += 1;
    }
    assert(line@.take(i as int) =~= line@);
    push_text(&mut fields, current);
    fields
}

/// The digits of a text.
pub open spec fn digits_of(s: Seq<char>) -> Seq<char> {
    kept_where(s, |c: char| is_digit(c))
}

/// The kilobytes of a cell such as `123,456 K`: its digits, whatever stands between them.
pub open spec fn cell_kb(cell: Seq<char>) -> Option<nat> {
    parse_uint(digits_of(cell), u64::MAX as nat)
}

/// The kilobytes of a cell such as `123,456 K`.
pub fn parse_mem_usage_kb(cell: &str) -> (r: Option<u64>)
    ensures
        r is Some <==> cell_kb(cell@) is Some,
        r matches Some(kb) ==> cell_kb(cell@) == Some(kb as nat),
{
    let v = chars_of(cell);
    let ghost kept = |c: char| is_digit(c);
    let mut digits = String::new();
    let mut i: usize = 0;
    assert(digits@ =~= kept_where(cell@.take(0), kept));
    while i < v.len()
        invariant
            v@ == cell@,
            i <= v@.len(),
            kept == (|c: char| is_digit(c)),
            digits@ == kept_where(cell@.take(i as int), kept),
        decreases v@.len() - i,
    {
        assert(cell@.take(i + 1).drop_last() =~= cell@.take(i as int));
        let c = v[i];
        if '0' <= c && c <= '9' {
            digits.push(c);
        }
        i += 1;
    }
    assert(cell@.take(i as int) =~= cell@);
    parse_u64(digits.as_str())
}

/// The field at a position, empty where there is none.
pub open spec fn field_at(fields: Seq<Seq<char>>, i: int) -> Seq<char> {
    if i < fields.len() {
        fields[i]
    } else {
        Seq::empty()
    }
}

/// The process that a row of `tasklist /FO CSV` tells of.
pub open spec fn tasklist_row(line: Seq<char>) -> Option<TasklistRowView> {
    let fields = csv_fields(line);
    if fields.len() < 5 {
        None
    } else {
        match parse_uint(trimmed(fields[1]), u32::MAX as nat) {
            None => None,
            Some(pid) => Some(
                TasklistRowView {
                    image: fields[0],
                    pid: pid as u32,
                    memory_kb: match cell_kb(fields[4]) {
                        Some(kb) => kb as u64,
                        None => 0,
                    },
                    status: field_at(fields, 5),
                    user: field_at(fields, 6),
                },
            ),
        }
    }
}

fn field_or_empty(fields: &Vec<String>, i: usize) -> (r: String)
    ensures
        r@ == field_at(fields.deep_view(), i as int),
{
    if i < fields.len() {
        fields[i].clone()
    } else {
        let r = String::new();
        assert(r@ =~= Seq::<char>::empty());
        r
    }
}

/// The process that a row of `tasklist /FO CSV` tells of; none for a header or a broken row.
pub fn parse_tasklist_csv(line: &str) -> (r: Option<TasklistRow>)
    ensures
        r.deep_view() == tasklist_row(line@),
{
    let fields = split_csv_fields(line);
    assert(fields.deep_view().len() == fields@.len());
    if fields.len() < 5 {
        return None;
    }
    assert(forall|i: int|
        0 <= i < fields@.len() ==> #[trigger] fields.deep_view()[i] == fields@[i]@);
    let pid_text = trim(fields[1].as_str());
    match parse_u32(pid_text.as_str()) {
        None => None,
        Some(pid) => Some(
            TasklistRow {
                image: fields[0].clone(),
                pid,
                memory_kb: match parse_mem_usage_kb(fields[4].as_str()) {
                    Some(kb) => kb,
                    None => 0,
                },
                status: field_or_empty(&fields, 5),
                user: field_or_empty(&fields, 6),
            },
        ),
    }
}

/// A field in double quotes.
pub open spec fn csv_quoted(field: Seq<char>) -> Seq<char> {
    seq!['"'] + field + seq!['"']
}

/// Fields as a row, each in double quotes.
pub open spec fn csv_row(fields: Seq<Seq<char>>) -> Seq<char> {
    joined(fields.map_values(|field: Seq<char>| csv_quoted(field)), seq![','])
}

pub proof fn lemma_csv_concat(scan: CsvScan, a: Seq<char>, b: Seq<char>)
    ensures
        csv_text(scan, a + b) == csv_text(csv_text(scan, a), b),
    decreases b.len(),
{
    if b.len() == 0 {
        assert(a + b =~= a);
    } else {
        lemma_csv_concat(scan, a, b.drop_last());
        assert((a + b).drop_last() =~= a + b.drop_last());
        assert((a + b).last() == b.last());
    }
}

pub proof fn lemma_csv_one(scan: CsvScan, c: char)
    ensures
        csv_text(scan, seq![c]) == csv_char(scan, c),
{
    assert(seq![c].drop_last() =~= Seq::<char>::empty());
    reveal_with_fuel(csv_text, 2);
}

proof fn lemma_csv_inner(scan: CsvScan, s: Seq<char>)
    requires
        scan.in_quotes,
        !s.contains('"'),
    ensures
        csv_text(scan, s) == (CsvScan { current: scan.current + s, ..scan }),
    decreases s.len(),
{
    if s.len() == 0 {
        assert(scan.current + s =~= scan.current);
    } else {
        assert forall|i: int| 0 <= i < s.drop_last().len() implies s.drop_last()[i] != '"' by {
            assert(s[i] != '"');
        }
        lemma_csv_inner(scan, s.drop_last());
        assert(s[s.len() - 1] != '"');
        assert((scan.current + s.drop_last()).push(s.last()) =~= scan.current + s);
    }
}

proof fn lemma_csv_quoted(scan: CsvScan, field: Seq<char>)
    requires
        !scan.in_quotes,
        scan.current.len() == 0,
        !field.contains('"'),
    ensures
        csv_text(scan, csv_quoted(field)) == (CsvScan { current: field, ..scan }),
{
    let q = seq!['"'];
    lemma_csv_concat(scan, q + field, q);
    lemma_csv_concat(scan, q, field);
    lemma_csv_one(scan, '"');
    let opened = csv_char(scan, '"');
    lemma_csv_inner(opened, field);
    let read = csv_text(opened, field);
    assert(scan.current + field =~= field);
    lemma_csv_one(read, '"');
}

proof fn lemma_csv_row(fields: Seq<Seq<char>>)
    requires
        fields.len() > 0,
        forall|i: int| 0 <= i < fields.len() ==> !(#[trigger] fields[i]).contains('"'),
    ensures
        csv_text(csv_start(), csv_row(fields)) == (CsvScan {
            fields: fields.drop_last(),
            current: fields.last(),
            in_quotes: false,
        }),
    decreases fields.len(),
{
    let f = |field: Seq<char>| csv_quoted(field);
    let parts = fields.map_values(f);
    assert(!fields[fields.len() - 1].contains('"'));
    if fields.len() == 1 {
        assert(parts[0] == csv_quoted(fields[0]));
        lemma_csv_quoted(csv_start(), fields[0]);
        assert(fields.drop_last() =~= Seq::<Seq<char>>::empty());
    } else {
        let front = fields.drop_last();
        assert forall|i: int| 0 <= i < front.len() implies !(#[trigger] front[i]).contains('"') by {
            assert(!fields[i].contains('"'));
        }
        lemma_csv_row(front);
        assert(parts.drop_last() =~= front.map_values(f));
        assert(parts.last() == csv_quoted(fields.last()));
        let comma = seq![','];
        let text = csv_row(front);
        assert(csv_row(fields) =~= text + comma + csv_quoted(fields.last()));
        lemma_csv_concat(csv_start(), text + comma, csv_quoted(fields.last()));
        lemma_csv_concat(csv_start(), text, comma);
        let read = csv_text(csv_start(), text);
        lemma_csv_one(read, ',');
        let next = csv_char(read, ',');
        assert(next.fields =~= front);
        lemma_csv_quoted(next, fields.last());
    }
}

/// Quoted fields come back as they are: no comma inside quotes splits a field.
pub proof fn law_quoted_fields_come_back(fields: Seq<Seq<char>>)
    requires
        fields.len() > 0,
        forall|i: int| 0 <= i < fields.len() ==> !(#[trigger] fields[i]).contains('"'),
    ensures
        csv_fields(csv_row(fields)) == fields,
{
    lemma_csv_row(fields);
    assert(fields.drop_last().push(fields.last()) =~= fields);
}

// ---------------------------------------------------------------------------
// The command line of cmd.exe
// ---------------------------------------------------------------------------

/// A character that cmd.exe does not take as it is.
pub open spec fn is_special(c: char) -> bool {
    ||| is_space(c)
    ||| c == '&'
    ||| c == '|'
    ||| c == '<'
    ||| c == '>'
    ||| c == '^'
    ||| c == '('
    ||| c == ')'
    ||| c == '"'
}

/// A word as it is written for cmd.exe: in double quotes where it needs them, with quotes inside
/// written twice.
pub open spec fn cmd_quoted(token: Seq<char>) -> Seq<char> {
    if token.len() == 0 || exists|i: int| 0 <= i < token.len() && is_special(#[trigger] token[i]) {
        seq!['"'] + replaced(token, '"', seq!['"', '"']) + seq!['"']
    } else {
        token
    }
}

fn needs_quotes(token: &str) -> (r: bool)
    ensures
        r == (token@.len() == 0 || exists|i: int|
            0 <= i < token@.len() && is_special(#[trigger] token@[i])),
{
    if token.is_empty() {
        return true;
    }
    let v = chars_of(token);
    let mut i: usize = 0;
    while i < v.len()
        invariant
            v@ == token@,
            i <= v@.len(),
            forall|k: int| 0 <= k < i ==> !is_special(#[trigger] token@[k]),
        decreases v@.len() - i,
    {
        let c = v[i];
        if is_whitespace(c) || c == '&' || c == '|' || c == '<' || c == '>' || c == '^' || c == '('
            || c == ')' || c == '"' {
            assert(is_special(token@[i as int]));
            return true;
        }
        i += 1;
    }
    false
}

/// Words as one command line for `cmd /C`.
pub fn windows_command_line(tokens: &Vec<String>) -> (r: String)
    ensures
        r@ == joined(
            tokens.deep_view().map_values(|token: Seq<char>| cmd_quoted(token)),
            seq![' '],
        ),
{
    let ghost all = tokens.deep_view().map_values(|token: Seq<char>| cmd_quoted(token));
    proof {
        reveal_strlit(" ");
        reveal_strlit("\"");
        reveal_strlit("\"\"");
        assert(" "@ =~= seq![' ']);
        assert("\""@ =~= seq!['"']);
        assert("\"\""@ =~= seq!['"', '"']);
    }
    let mut parts: Vec<String> = Vec::new();
    let mut i: usize = 0;
    while i < tokens.len()
        invariant
            i <= tokens@.len(),
            "\""@ == seq!['"'],
            "\"\""@ == seq!['"', '"'],
            all == tokens.deep_view().map_values(|token: Seq<char>| cmd_quoted(token)),
            parts.deep_view() == all.take(i as int),
        decreases tokens@.len() - i,
    {
        let token = tokens[i].as_str();
        let part = if needs_quotes(token) {
            let inner = replace_char(token, '"', "\"\"");
            concat3("\"", inner.as_str(), "\"")
        } else {
            token.to_string()
        };
        push_text(&mut parts, part);
        assert(all.take(i + 1) =~= all.take(i as int).push(cmd_quoted(tokens@[i as int]@)));
        i += 1;
    }
    assert(all.take(i as int) =~= all);
    join(&parts, " ")
}

} // verus!
