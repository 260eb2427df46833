//! How what the system lists is read.
use vstd::prelude::*;

use crate::laws::texts::{blank, is_word, law_blanks_are_trimmed, law_numbers_read_back};
use crate::models::CommandOutputView;
use crate::percent::is_number;
use crate::platform::lsof::{
    anything_printed, current_process, first_listener, first_name, listener_scan, names_by_process,
    ports_by_process,
};
use crate::platform::unix::{
    first_live, first_space, first_token, first_tokens, group_row, live_rows, metrics, process_info,
    process_row,
};
use crate::platform::windows::{
    listener_on, listeners, printed_row, row_of, row_process, task_rows, taskkill_error,
    wanted_ports, TaskkillReplyView,
};
use crate::platform::{
    bytes_of_kb, cell_kb, csv_fields, csv_row, csv_start, csv_text, digits_of,
    law_quoted_fields_come_back, lemma_csv_concat, lemma_csv_one, CsvScan, listener_of, printed,
    tasklist_row, ExternalProcessRowView, GroupErrorView, TasklistRowView,
};
use crate::text::{
    after_last, decimal, has_prefix, is_digit, is_space, joined, lemma_decimal_digits, lines,
    parse_uint, trimmed_start, upper, words,
};

verus! {

proof fn lemma_space_at(word: Seq<char>, rest: Seq<char>)
    requires
        forall|i: int| 0 <= i < word.len() ==> !is_space(#[trigger] word[i]),
        rest.len() == 0 || is_space(rest[0]),
    ensures
        first_space(word + rest) == word.len(),
    decreases word.len(),
{
    let all = word + rest;
    if word.len() == 0 {
        assert(all =~= rest);
    } else {
        let tail = word.skip(1);
        assert forall|i: int| 0 <= i < tail.len() implies !is_space(#[trigger] tail[i]) by {
            assert(tail[i] == word[i + 1]);
        }
        lemma_space_at(tail, rest);
        assert(all[0] == word[0]);
        assert(all.skip(1) =~= tail + rest);
    }
}

/// The first word of a line is what stands before the next whitespace, and the rest stays.
pub proof fn law_first_word_of_a_line(gap: Seq<char>, word: Seq<char>, rest: Seq<char>)
    requires
        blank(gap),
        is_word(word),
        rest.len() == 0 || is_space(rest[0]),
    ensures
        first_token(gap + word + rest) == Some((word, rest)),
        first_token(gap) is None,
{
    let e = Seq::<char>::empty();
    law_blanks_are_trimmed(gap, word, e);
    assert(gap + word + e =~= gap + word);
    lemma_start_trimmed(gap, word + rest);
    assert(gap + (word + rest) =~= gap + word + rest);
    assert((word + rest)[0] == word[0]);
    assert(trimmed_start(word + rest) == word + rest);
    lemma_space_at(word, rest);
    assert((word + rest).take(word.len() as int) =~= word);
    assert((word + rest).skip(word.len() as int) =~= rest);
    lemma_start_trimmed(gap, e);
    assert(gap + e =~= gap);
}

proof fn lemma_start_trimmed(a: Seq<char>, b: Seq<char>)
    requires
        blank(a),
    ensures
        trimmed_start(a + b) == trimmed_start(b),
    decreases a.len(),
{
    if a.len() == 0 {
        assert(a + b =~= b);
    } else {
        let rest = a.skip(1);
        assert forall|i: int| 0 <= i < rest.len() implies is_space(#[trigger] rest[i]) by {
            assert(rest[i] == a[i + 1]);
        }
        lemma_start_trimmed(rest, b);
        assert((a + b)[0] == a[0]);
        assert((a + b).skip(1) =~= rest + b);
    }
}

/// Columns, each behind a blank.
pub open spec fn spaced(columns: Seq<Seq<char>>) -> Seq<char>
    decreases columns.len(),
{
    if columns.len() == 0 {
        Seq::empty()
    } else {
        spaced(columns.drop_last()) + seq![' '] + columns.last()
    }
}

proof fn lemma_columns(columns: Seq<Seq<char>>, rest: Seq<char>)
    requires
        forall|i: int| 0 <= i < columns.len() ==> is_word(#[trigger] columns[i]),
        rest.len() == 0 || is_space(rest[0]),
    ensures
        first_tokens(spaced(columns) + rest, columns.len()) == Some((columns, rest)),
    decreases columns.len(),
{
    if columns.len() == 0 {
        assert(spaced(columns) + rest =~= rest);
        assert(columns =~= Seq::<Seq<char>>::empty());
    } else {
        let front = columns.drop_last();
        let last = columns.last();
        assert(is_word(columns[columns.len() - 1]));
        assert forall|i: int| 0 <= i < front.len() implies is_word(#[trigger] front[i]) by {
            assert(front[i] == columns[i]);
        }
        let tail = seq![' '] + last + rest;
        lemma_columns(front, tail);
        assert(spaced(columns) + rest =~= spaced(front) + tail);
        assert(blank(seq![' ']));
        law_first_word_of_a_line(seq![' '], last, rest);
        assert(front.push(last) =~= columns);
    }
}

/// A line of twelve columns and a command reads as the process that it lists: its number, its
/// group, its user, its memory, its share of the processor, how long it runs, its state, since
/// when it runs, and its command.
pub proof fn law_listed_process(
    pid: u32,
    group: u32,
    user: Seq<char>,
    kb: u64,
    cpu: Seq<char>,
    etime: Seq<char>,
    stat: Seq<char>,
    start: Seq<Seq<char>>,
    command: Seq<char>,
)
    requires
        is_word(user),
        is_word(cpu),
        is_number(cpu),
        is_word(etime),
        is_word(stat),
        start.len() == 5,
        forall|i: int| 0 <= i < start.len() ==> is_word(#[trigger] start[i]),
        command.len() > 0,
        !is_space(command[0]),
    ensures
        process_row(
            spaced(
                seq![
                    decimal(pid as nat),
                    decimal(group as nat),
                    user,
                    decimal(kb as nat),
                    cpu,
                    etime,
                    stat,
                ] + start,
            ) + seq![' '] + command,
        ) == Some(
            ExternalProcessRowView {
                pid,
                process_group_id: group,
                stat,
                command,
                user,
                memory_kb: kb,
                cpu_percent: cpu,
                etime,
                started_at: joined(start, seq![' ']),
            },
        ),
{
    let head = seq![
        decimal(pid as nat),
        decimal(group as nat),
        user,
        decimal(kb as nat),
        cpu,
        etime,
        stat,
    ];
    let columns = head + start;
    lemma_number_word(pid as nat);
    lemma_number_word(group as nat);
    lemma_number_word(kb as nat);
    assert forall|i: int| 0 <= i < columns.len() implies is_word(#[trigger] columns[i]) by {
        if i >= 7 {
            assert(columns[i] == start[i - 7]);
        } else {
            assert(columns[i] == head[i]);
        }
    }
    let rest = seq![' '] + command;
    lemma_columns(columns, rest);
    assert(spaced(columns) + rest =~= spaced(columns) + seq![' '] + command);
    law_numbers_read_back(pid as nat, u32::MAX as nat);
    law_numbers_read_back(group as nat, u32::MAX as nat);
    law_numbers_read_back(kb as nat, u64::MAX as nat);
    assert(blank(seq![' ']));
    lemma_start_trimmed(seq![' '], command);
    assert(columns.subrange(7, 12) =~= start);
    assert(columns.len() == 12);
}

proof fn lemma_number_word(n: nat)
    ensures
        is_word(decimal(n)),
{
    lemma_decimal_digits(n);
    assert forall|i: int| 0 <= i < decimal(n).len() implies !is_space(#[trigger] decimal(n)[i]) by {
        assert(is_digit(decimal(n)[i]));
    }
}

/// A line whose number or group is no number lists no process; memory that is no number counts as
/// none.
pub proof fn law_unreadable_lines(columns: Seq<Seq<char>>, rest: Seq<char>)
    requires
        columns.len() == 12,
        forall|i: int| 0 <= i < columns.len() ==> is_word(#[trigger] columns[i]),
        rest.len() == 0 || is_space(rest[0]),
    ensures
        process_row(spaced(columns) + rest) is Some <==> parse_uint(
            columns[0],
            u32::MAX as nat,
        ) is Some && parse_uint(columns[1], u32::MAX as nat) is Some,
        process_row(spaced(columns) + rest) matches Some(row) ==> {
            &&& parse_uint(columns[3], u64::MAX as nat) is None ==> row.memory_kb == 0
            &&& !is_number(columns[4]) ==> row.cpu_percent == "0.0"@
        },
{
    lemma_columns(columns, rest);
}

/// A process that is listed is live exactly if its state is not that of a zombie; lines that list
/// none are passed over.
pub proof fn law_live_rows_one_by_one(list: Seq<Seq<char>>, line: Seq<char>)
    ensures
        live_rows(Seq::empty()).len() == 0,
        live_rows(list.push(line)) == (match process_row(line) {
            Some(row) => if exists|i: int|
                0 <= i < row.stat.len() && #[trigger] row.stat[i] == 'Z' {
                live_rows(list)
            } else {
                live_rows(list).push(row)
            },
            None => live_rows(list),
        }),
{
    assert(list.push(line).drop_last() =~= list);
    if let Some(row) = process_row(line) {
        if row.stat.contains('Z') {
            let i = choose|i: int| 0 <= i < row.stat.len() && row.stat[i] == 'Z';
            assert(row.stat[i] == 'Z');
        }
    }
}

/// The group and the state of a process stand in two columns; a line with fewer, or whose group is
/// no number, tells nothing.
pub proof fn law_process_info(group: u32, stat: Seq<char>, more: Seq<Seq<char>>, one: Seq<char>)
    ensures
        process_info(seq![decimal(group as nat), stat] + more) == Some((group, stat)),
        process_info(seq![one]) is None,
        process_info(Seq::empty()) is None,
        parse_uint(one, u32::MAX as nat) is None ==> process_info(seq![one, stat] + more) is None,
{
    law_numbers_read_back(group as nat, u32::MAX as nat);
    let tokens = seq![decimal(group as nat), stat] + more;
    assert(tokens[0] == decimal(group as nat) && tokens[1] == stat);
    let other = seq![one, stat] + more;
    assert(other[0] == one);
}

/// A line of a number, a group and a state reads as these.
pub proof fn law_group_rows(pid: u32, group: u32, stat: Seq<char>, more: Seq<Seq<char>>)
    ensures
        group_row(seq![decimal(pid as nat), decimal(group as nat), stat] + more) == Some(
            (pid, group, stat),
        ),
        group_row(seq![decimal(pid as nat), decimal(group as nat)]) is None,
{
    law_numbers_read_back(pid as nat, u32::MAX as nat);
    law_numbers_read_back(group as nat, u32::MAX as nat);
    let tokens = seq![decimal(pid as nat), decimal(group as nat), stat] + more;
    assert(tokens[0] == decimal(pid as nat));
    assert(tokens[1] == decimal(group as nat));
    assert(tokens[2] == stat);
}

/// The live process of a group is the first listed in it that is no zombie.
pub proof fn law_first_live_of_a_group(line: Seq<char>, rest: Seq<Seq<char>>, group: u32)
    ensures
        first_live(Seq::empty(), group) is None,
        first_live(seq![line] + rest, group) == (match group_row(words(line)) {
            Some((pid, listed, stat)) => if listed == group && !stat.contains('Z') {
                Some(pid)
            } else {
                first_live(rest, group)
            },
            None => first_live(rest, group),
        }),
{
    assert((seq![line] + rest).skip(1) =~= rest);
}

/// Memory is listed in units of 1024 bytes; the share of the processor is told only where it
/// reads as a number.
pub proof fn law_metrics(kb: u64, share: Seq<char>, more: Seq<Seq<char>>, other: Seq<char>)
    ensures
        metrics(seq![decimal(kb as nat)]) == Some(
            (
                if kb * 1024 <= u64::MAX {
                    (kb * 1024) as u64
                } else {
                    u64::MAX
                },
                None::<Seq<char>>,
            ),
        ),
        metrics(seq![decimal(kb as nat), share] + more) matches Some((bytes, told)) && bytes
            == bytes_of_kb(kb as nat) && told == (if is_number(share) {
            Some(share)
        } else {
            None
        }),
        metrics(Seq::empty()) is None,
        parse_uint(other, u64::MAX as nat) is None ==> metrics(seq![other] + more) is None,
{
    law_numbers_read_back(kb as nat, u64::MAX as nat);
    let tokens = seq![decimal(kb as nat), share] + more;
    assert(tokens[0] == decimal(kb as nat) && tokens[1] == share);
    assert((seq![other] + more)[0] == other);
}

/// The directory of a process is that of the first line that names one.
pub proof fn law_first_named_directory(line: Seq<char>, rest: Seq<Seq<char>>)
    ensures
        first_name(Seq::empty()) is None,
        first_name(seq![line] + rest) == (if line.len() > 0 && line[0] == 'n' {
            Some(line.skip(1))
        } else {
            first_name(rest)
        }),
{
    assert((seq![line] + rest).skip(1) =~= rest);
}

/// The process that lines speak of is that of the last line with a number.
pub proof fn law_process_spoken_of(list: Seq<Seq<char>>, pid: u32, name: char, text: Seq<char>)
    requires
        name != 'p',
    ensures
        current_process(Seq::empty()) is None,
        current_process(list.push(seq!['p'] + decimal(pid as nat))) == Some(pid),
        current_process(list.push(seq![name] + text)) == current_process(list),
        current_process(list.push(Seq::empty())) == current_process(list),
{
    let line = seq!['p'] + decimal(pid as nat);
    assert(list.push(line).drop_last() =~= list);
    lemma_field_number(pid);
    assert(list.push(seq![name] + text).drop_last() =~= list);
    assert((seq![name] + text)[0] == name);
    assert(list.push(Seq::<char>::empty()).drop_last() =~= list);
}

proof fn lemma_field_number(n: u32)
    ensures
        ({
            let line = seq!['p'] + decimal(n as nat);
            &&& line.len() > 0 && line[0] == 'p'
            &&& crate::platform::lsof::field_number(line) == Some(n)
            &&& crate::platform::lsof::field_number(seq!['g'] + decimal(n as nat)) == Some(n)
        }),
{
    let number = decimal(n as nat);
    let e = Seq::<char>::empty();
    assert((seq!['p'] + number).skip(1) =~= number);
    assert((seq!['g'] + number).skip(1) =~= number);
    lemma_number_word(n as nat);
    law_blanks_are_trimmed(e, number, e);
    assert(e + number + e =~= number);
    law_numbers_read_back(n as nat, u32::MAX as nat);
}

/// A line with a name gives the process that is spoken of its directory; other lines give none
/// anything.
pub proof fn law_directories_one_by_one(list: Seq<Seq<char>>, line: Seq<char>)
    ensures
        names_by_process(Seq::empty()) == Map::<u32, Seq<char>>::empty(),
        names_by_process(list.push(line)) == (if line.len() > 0 && line[0] == 'n'
            && current_process(list) is Some {
            names_by_process(list).insert(current_process(list)->0, line.skip(1))
        } else {
            names_by_process(list)
        }),
{
    assert(list.push(line).drop_last() =~= list);
}

/// A line with a name that ends in a port gives the process that is spoken of that port; other
/// lines give none any.
pub proof fn law_ports_one_by_one(list: Seq<Seq<char>>, host: Seq<char>, port: u32, pid: u32)
    requires
        current_process(list) == Some(pid),
    ensures
        ({
            let before = ports_by_process(list);
            let after = ports_by_process(
                list.push(seq!['n'] + host + seq![':'] + decimal(port as nat)),
            );
            &&& after.contains_key(pid)
            &&& after[pid] == (if before.contains_key(pid) {
                before[pid].insert(port)
            } else {
                Set::empty().insert(port)
            })
            &&& after.remove(pid) == before.remove(pid)
            &&& ports_by_process(Seq::empty()) == Map::<u32, Set<u32>>::empty()
        }),
{
    let line = seq!['n'] + host + seq![':'] + decimal(port as nat);
    assert(list.push(line).drop_last() =~= list);
    assert(line[0] == 'n');
    assert(line.skip(1) =~= host + seq![':'] + decimal(port as nat));
    lemma_after_colon(host, decimal(port as nat));
    lemma_decimal_digits(port as nat);
    assert forall|i: int| 0 <= i < decimal(port as nat).len() implies #[trigger] decimal(
        port as nat,
    )[i] != ':' by {
        assert(is_digit(decimal(port as nat)[i]));
    }
    law_numbers_read_back(port as nat, u32::MAX as nat);
    let before = ports_by_process(list);
    let after = ports_by_process(list.push(line));
    assert(after.remove(pid) =~= before.remove(pid));
}

proof fn lemma_after_colon(host: Seq<char>, end: Seq<char>)
    ensures
        (forall|i: int| 0 <= i < end.len() ==> #[trigger] end[i] != ':') ==> after_last(
            host + seq![':'] + end,
            ':',
        ) == end,
    decreases end.len(),
{
    if forall|i: int| 0 <= i < end.len() ==> #[trigger] end[i] != ':' {
        let all = host + seq![':'] + end;
        if end.len() == 0 {
            assert(all.last() == ':');
            assert(end =~= Seq::<char>::empty());
        } else {
            let front = end.drop_last();
            assert forall|i: int| 0 <= i < front.len() implies #[trigger] front[i] != ':' by {
                assert(front[i] == end[i]);
            }
            lemma_after_colon(host, front);
            assert(all.drop_last() =~= host + seq![':'] + front);
            assert(all.last() == end[end.len() - 1]);
            assert(front.push(end.last()) =~= end);
        }
    }
}

/// The first process that is listed with a group listens, with its command.
pub proof fn law_first_listener(pid: u32, group: u32, command: Seq<char>, next: u32)
    ensures
        first_listener(
            seq![
                seq!['p'] + decimal(pid as nat),
                seq!['g'] + decimal(group as nat),
                seq!['c'] + command,
            ],
        ) == Some((pid, group, command)),
        first_listener(
            seq![
                seq!['p'] + decimal(pid as nat),
                seq!['c'] + command,
                seq!['g'] + decimal(group as nat),
                seq!['p'] + decimal(next as nat),
            ],
        ) == Some((pid, group, command)),
        first_listener(
            seq![seq!['p'] + decimal(pid as nat), seq!['g'] + decimal(group as nat)],
        ) == Some((pid, group, Seq::<char>::empty())),
        first_listener(seq![seq!['p'] + decimal(pid as nat), seq!['c'] + command]) is None,
        first_listener(Seq::empty()) is None,
{
    lemma_field_number(pid);
    lemma_field_number(group);
    lemma_field_number(next);
    let p = seq!['p'] + decimal(pid as nat);
    let g = seq!['g'] + decimal(group as nat);
    let c = seq!['c'] + command;
    let n = seq!['p'] + decimal(next as nat);
    assert(p[0] == 'p' && g[0] == 'g' && c[0] == 'c' && n[0] == 'p');
    assert(c.skip(1) =~= command);
    reveal_with_fuel(listener_scan, 5);
    assert(seq![p, g, c].drop_last() =~= seq![p, g]);
    assert(seq![p, g].drop_last() =~= seq![p]);
    assert(seq![p].drop_last() =~= Seq::<Seq<char>>::empty());
    assert(seq![p, c, g, n].drop_last() =~= seq![p, c, g]);
    assert(seq![p, c, g].drop_last() =~= seq![p, c]);
    assert(seq![p, c].drop_last() =~= seq![p]);
}

/// What was found as listening stays, whatever lines follow.
pub proof fn law_listener_stays(list: Seq<Seq<char>>, line: Seq<char>)
    requires
        listener_scan(list).found is Some,
    ensures
        first_listener(list.push(line)) == first_listener(list),
{
    assert(list.push(line).drop_last() =~= list);
}

/// A row of five quoted fields or more reads as the program that it lists: the name, the number,
/// the memory by its digits, and, where they are there, the state and the user.
pub proof fn law_listed_task(
    image: Seq<char>,
    pid: u32,
    middle: Seq<Seq<char>>,
    memory: Seq<char>,
    status: Seq<char>,
    user: Seq<char>,
)
    requires
        middle.len() == 2,
        forall|i: int| 0 <= i < middle.len() ==> !(#[trigger] middle[i]).contains('"'),
        !image.contains('"'),
        !memory.contains('"'),
        !status.contains('"'),
        !user.contains('"'),
    ensures
        tasklist_row(
            csv_row(
                seq![
                    image,
                    decimal(pid as nat),
                    middle[0],
                    middle[1],
                    memory,
                    status,
                    user,
                ],
            ),
        ) == Some(
            TasklistRowView {
                image,
                pid,
                memory_kb: match cell_kb(memory) {
                    Some(kb) => kb as u64,
                    None => 0,
                },
                status,
                user,
            },
        ),
        tasklist_row(csv_row(seq![image, decimal(pid as nat), middle[0], middle[1]])) is None,
        tasklist_row(csv_row(seq![image, decimal(pid as nat), middle[0], middle[1], memory]))
            == Some(
            TasklistRowView {
                image,
                pid,
                memory_kb: match cell_kb(memory) {
                    Some(kb) => kb as u64,
                    None => 0,
                },
                status: Seq::empty(),
                user: Seq::empty(),
            },
        ),
{
    let number = decimal(pid as nat);
    lemma_number_word(pid as nat);
    lemma_decimal_digits(pid as nat);
    assert forall|i: int| 0 <= i < number.len() implies number[i] != '"' by {
        assert(is_digit(number[i]));
    }
    assert(!number.contains('"'));
    let fields = seq![image, number, middle[0], middle[1], memory, status, user];
    assert forall|i: int| 0 <= i < fields.len() implies !(#[trigger] fields[i]).contains('"') by {
    }
    law_quoted_fields_come_back(fields);
    let few = seq![image, number, middle[0], middle[1]];
    assert forall|i: int| 0 <= i < few.len() implies !(#[trigger] few[i]).contains('"') by {
    }
    law_quoted_fields_come_back(few);
    let five = seq![image, number, middle[0], middle[1], memory];
    assert forall|i: int| 0 <= i < five.len() implies !(#[trigger] five[i]).contains('"') by {
    }
    law_quoted_fields_come_back(five);
    let e = Seq::<char>::empty();
    law_blanks_are_trimmed(e, number, e);
    assert(e + number + e =~= number);
    law_numbers_read_back(pid as nat, u32::MAX as nat);
}

proof fn lemma_csv_plain(scan: CsvScan, s: Seq<char>)
    requires
        !scan.in_quotes,
        forall|i: int| 0 <= i < s.len() ==> #[trigger] s[i] != '"' && s[i] != ',',
    ensures
        csv_text(scan, s) == (CsvScan { current: scan.current + s, ..scan }),
    decreases s.len(),
{
    if s.len() == 0 {
        assert(scan.current + s =~= scan.current);
    } else {
        let front = s.drop_last();
        assert forall|i: int| 0 <= i < front.len() implies #[trigger] front[i] != '"' && front[i]
            != ',' by {
            assert(front[i] == s[i]);
        }
        lemma_csv_plain(scan, front);
        assert(s[s.len() - 1] == s.last());
        assert((scan.current + front).push(s.last()) =~= scan.current + s);
    }
}

/// One more field without quotes behind a comma is one more field.
pub proof fn law_plain_fields_one_by_one(line: Seq<char>, field: Seq<char>)
    requires
        !csv_text(csv_start(), line).in_quotes,
        forall|i: int| 0 <= i < field.len() ==> #[trigger] field[i] != '"' && field[i] != ',',
    ensures
        csv_fields(field) == seq![field],
        csv_fields(line + seq![','] + field) == csv_fields(line).push(field),
{
    lemma_csv_plain(csv_start(), field);
    assert(Seq::<char>::empty() + field =~= field);
    assert(csv_fields(field) =~= seq![field]);
    lemma_csv_concat(csv_start(), line + seq![','], field);
    lemma_csv_concat(csv_start(), line, seq![',']);
    let scan = csv_text(csv_start(), line);
    lemma_csv_one(scan, ',');
    let next = csv_text(scan, seq![',']);
    lemma_csv_plain(next, field);
    assert(next.current + field =~= field);
}

/// Memory is read by its digits, whatever stands between them.
pub proof fn law_digits_of_a_cell(cell: Seq<char>, c: char)
    ensures
        digits_of(Seq::empty()).len() == 0,
        digits_of(cell.push(c)) == (if '0' <= c <= '9' {
            digits_of(cell).push(c)
        } else {
            digits_of(cell)
        }),
        cell_kb(cell) == parse_uint(digits_of(cell), u64::MAX as nat),
{
    assert(cell.push(c).drop_last() =~= cell);
}

/// Rows are read one by one; those that list nothing are passed over.
pub proof fn law_tasks_one_by_one(
    list: Seq<Seq<char>>,
    line: Seq<char>,
    row: TasklistRowView,
    rest: Seq<TasklistRowView>,
    pid: u32,
)
    ensures
        task_rows(Seq::empty()).len() == 0,
        task_rows(list.push(line)) == (match tasklist_row(line) {
            Some(found) => task_rows(list).push(found),
            None => task_rows(list),
        }),
        row_of(Seq::empty(), pid) is None,
        row_of(seq![row] + rest, pid) == (if row.pid == pid {
            Some(row)
        } else {
            row_of(rest, pid)
        }),
{
    assert(list.push(line).drop_last() =~= list);
    assert((seq![row] + rest).skip(1) =~= rest);
}

/// On Windows a process is a group of its own.
pub proof fn law_tasks_are_their_own_groups(row: TasklistRowView)
    ensures
        ({
            let process = row_process(row);
            &&& process.pid == row.pid && process.process_group_id == row.pid
            &&& process.command == row.image
            &&& process.stat == row.status
            &&& process.user == row.user
            &&& process.memory_kb == row.memory_kb
            &&& process.cpu_percent == "0.0"@
            &&& process.etime.len() == 0 && process.started_at.len() == 0
        }),
{
}

/// A request to end a process went well, or found none where the code says so, or failed with
/// what was complained.
pub proof fn law_taskkill_answers(reply: TaskkillReplyView)
    ensures
        match reply {
            TaskkillReplyView::Finished { success, code, stderr } => {
                &&& success ==> taskkill_error(reply) is None
                &&& !success && code == Some(128i32) ==> taskkill_error(reply) == Some(
                    GroupErrorView::NotFound,
                )
                &&& !success && code != Some(128i32) ==> taskkill_error(reply) == Some(
                    GroupErrorView::Other(crate::text::trimmed(stderr)),
                )
            },
            TaskkillReplyView::NotRun { error } => taskkill_error(reply) == Some(
                GroupErrorView::Other(error),
            ),
        },
{
}

/// The first socket on a port is the one that listens there.
pub proof fn law_listener_on_a_port(socket: (u16, u32), rest: Seq<(u16, u32)>, port: u16)
    ensures
        listener_on(Seq::empty(), port) is None,
        listener_on(seq![socket] + rest, port) == (if socket.0 == port {
            Some(socket.1)
        } else {
            listener_on(rest, port)
        }),
{
    assert((seq![socket] + rest).skip(1) =~= rest);
}

/// A socket gives its process a port exactly if somebody asked for that process.
pub proof fn law_wanted_ports_one_by_one(
    sockets: Seq<(u16, u32)>,
    port: u16,
    pid: u32,
    wanted: Seq<u32>,
)
    ensures
        ({
            let before = wanted_ports(sockets, wanted);
            let after = wanted_ports(sockets.push((port, pid)), wanted);
            &&& wanted_ports(Seq::empty(), wanted) == Map::<u32, Set<u32>>::empty()
            &&& !wanted.contains(pid) ==> after == before
            &&& wanted.contains(pid) ==> after.contains_key(pid) && after[pid] == (
            if before.contains_key(pid) {
                before[pid].insert(port as u32)
            } else {
                Set::empty().insert(port as u32)
            }) && after.remove(pid) == before.remove(pid)
        }),
{
    assert(sockets.push((port, pid)).drop_last() =~= sockets);
    let before = wanted_ports(sockets, wanted);
    let after = wanted_ports(sockets.push((port, pid)), wanted);
    assert(after.remove(pid) =~= before.remove(pid));
}

/// A socket that waits for any peer listens on the port of its own address, for the process in the
/// last column.
pub proof fn law_listening_socket(
    host: Seq<char>,
    port: u16,
    peer: Seq<char>,
    state: Seq<char>,
    pid: u32,
)
    ensures
        ({
            let own = host + seq![':'] + decimal(port as nat);
            let open = peer + seq![':'] + decimal(0);
            let number = decimal(pid as nat);
            &&& listener_of(seq!["TCP"@, own, open, state, number]) == Some((port, pid))
            &&& listener_of(seq!["TCP"@, own, open, number]) == Some((port, pid))
            &&& listener_of(seq!["TCP"@, own, open]) is None
            &&& listener_of(seq!["UDP"@, own, open, state, number]) is None
        }),
{
    let own = host + seq![':'] + decimal(port as nat);
    let open = peer + seq![':'] + decimal(0);
    lemma_no_colon(port as nat);
    lemma_no_colon(0);
    lemma_after_colon(host, decimal(port as nat));
    lemma_after_colon(peer, decimal(0));
    law_numbers_read_back(port as nat, 65535);
    law_numbers_read_back(0, 65535);
    law_numbers_read_back(pid as nat, u32::MAX as nat);
    reveal_strlit("TCP");
    reveal_strlit("UDP");
    assert(upper("TCP"@) =~= "TCP"@);
    assert(upper("UDP"@)[0] == 'U');
}

proof fn lemma_no_colon(n: nat)
    ensures
        forall|i: int| 0 <= i < decimal(n).len() ==> #[trigger] decimal(n)[i] != ':',
{
    lemma_decimal_digits(n);
    assert forall|i: int| 0 <= i < decimal(n).len() implies #[trigger] decimal(n)[i] != ':' by {
        assert(is_digit(decimal(n)[i]));
    }
}

/// Sockets are read one by one; lines that list none are passed over.
pub proof fn law_sockets_one_by_one(list: Seq<Seq<char>>, line: Seq<char>)
    ensures
        listeners(Seq::empty()).len() == 0,
        listeners(list.push(line)) == (match listener_of(words(line)) {
            Some(socket) => listeners(list).push(socket),
            None => listeners(list),
        }),
{
    assert(list.push(line).drop_last() =~= list);
}

/// What a command printed counts only where it went well; but what `lsof` prints counts in any
/// case.
pub proof fn law_what_was_printed(output: CommandOutputView)
    ensures
        printed(None).len() == 0,
        anything_printed(None).len() == 0,
        output.success ==> printed(Some(output)) == output.stdout,
        !output.success ==> printed(Some(output)).len() == 0,
        anything_printed(Some(output)) == output.stdout,
{
}

/// A row is looked up by its number among those that were printed.
pub proof fn law_printed_rows(output: Option<CommandOutputView>, pid: u32)
    ensures
        printed_row(output, pid) == row_of(task_rows(lines(printed(output))), pid),
        printed_row(None, pid) is None,
{
    reveal_with_fuel(crate::text::split, 2);
    assert(lines(Seq::<char>::empty()) =~= Seq::<Seq<char>>::empty());
}

/// A socket with a peer listens only where its state says so.
pub proof fn law_connected_sockets_do_not_listen(
    columns: Seq<Seq<char>>,
    peer: Seq<char>,
    port: u16,
)
    requires
        columns.len() >= 4,
        columns[2] == peer + seq![':'] + decimal(port as nat),
        port > 0,
        !has_prefix(upper(columns[3]), "LISTEN"@),
    ensures
        listener_of(columns) is None,
{
    lemma_no_colon(port as nat);
    lemma_after_colon(peer, decimal(port as nat));
    law_numbers_read_back(port as nat, 65535);
    reveal_strlit("*:*");
    if columns[2] == "*:*"@ {
        assert(columns[2].last() == '*');
        lemma_decimal_digits(port as nat);
        let d = decimal(port as nat);
        assert(is_digit(d[d.len() - 1]));
        assert(columns[2].last() == d[d.len() - 1]);
    }
}

} // verus!
