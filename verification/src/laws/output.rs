//! What becomes of output and of errors.
use vstd::prelude::*;

use crate::clock::Timestamp;
use crate::laws::frames::{same_tracking, shows};
use crate::logs::{
    cleared_logs, exported_logs, frontend_error_detail, frontend_error_entry, log_entry,
    log_history, newest, problem_logs, project_logs, recent_filters, with_record, StreamEndView,
};
use crate::lookup::kept_where;
use crate::models::{
    ConfigView, FrontendErrorRecordView, LogEntryView, LogHistoryFiltersView, LogLevel,
    ProcessDefinitionView, StreamType,
};
use crate::runtime::{EffectView, RuntimeView, StampView};
use crate::text::{decimal, without_trailing};

verus! {

/// A list with one more item, shortened at its front to a length.
pub open spec fn pushed_within<T>(list: Seq<T>, item: T, most: nat) -> Seq<T> {
    if most == 0 {
        Seq::empty()
    } else if list.len() < most {
        list.push(item)
    } else {
        list.skip(list.len() - most + 1).push(item)
    }
}

proof fn lemma_pushed_within<T>(list: Seq<T>, item: T, most: nat)
    ensures
        newest(list.push(item), most) == pushed_within(list, item, most),
        newest(list.push(item), most) == pushed_within(newest(list, most), item, most),
{
    assert(newest(list.push(item), most) =~= pushed_within(list, item, most));
    assert(newest(list.push(item), most) =~= pushed_within(newest(list, most), item, most));
}

/// A line is kept as the latest, with its stream, level and time, and only as many lines as the
/// settings say are. A line of the application itself is shown at once; output waits until there
/// are 32 lines of the process, and then all of them are shown, in order.
pub proof fn law_lines_are_kept_and_shown(
    rt: RuntimeView,
    config: ConfigView,
    process: ProcessDefinitionView,
    stream: StreamType,
    level: LogLevel,
    message: Seq<char>,
    stamp: StampView,
)
    ensures
        ({
            let after = rt.with_log(config, process, stream, level, message, stamp);
            let entry = log_entry(process, stream, level, message, stamp);
            let waiting = if rt.log_batches.contains_key(process.id) {
                rt.log_batches[process.id]
            } else {
                Seq::empty()
            };
            &&& entry.id == stamp.id && entry.timestamp == stamp.at
            &&& entry.process_id == process.id && entry.project_id == process.project_id
            &&& entry.stream == stream && entry.level == level
            &&& entry.message == message && entry.raw == Some(message)
            &&& after.logs == pushed_within(
                rt.logs,
                entry,
                config.settings.log_retention_lines as nat,
            )
            &&& after.states == rt.states && same_tracking(rt, after)
            &&& after.stopping_processes == rt.stopping_processes
            &&& stream == StreamType::System ==> after.effects == rt.effects.push(
                EffectView::Log { entry },
            ) && after.log_batches == rt.log_batches
            &&& stream != StreamType::System && waiting.len() < 31 ==> after.effects == rt.effects
                && after.log_batches == rt.log_batches.insert(process.id, waiting.push(entry))
            &&& stream != StreamType::System && waiting.len() >= 31 ==> after.effects
                == rt.effects.push(EffectView::LogBatch { entries: waiting.push(entry) })
                && after.log_batches == rt.log_batches.insert(process.id, Seq::empty())
        }),
{
    let entry = log_entry(process, stream, level, message, stamp);
    lemma_pushed_within(rt.logs, entry, config.settings.log_retention_lines as nat);
}

/// An entry meets the wishes for a project and a process.
pub open spec fn asked_for(filters: LogHistoryFiltersView, entry: LogEntryView) -> bool {
    &&& filters.project_id is None || filters.project_id == Some(entry.project_id)
    &&& filters.process_id is None || filters.process_id == Some(entry.process_id)
}

/// One more line comes last in the history if it is of the project and the process asked for, and
/// not of before the time asked for; the history holds at most as many lines as asked for, or a
/// thousand, the latest.
pub proof fn law_history_with_one_more_line(
    logs: Seq<LogEntryView>,
    filters: LogHistoryFiltersView,
    entry: LogEntryView,
)
    ensures
        log_history(Seq::empty(), filters).len() == 0,
        ({
            let most: nat = match filters.limit {
                Some(limit) => limit as nat,
                None => 1000,
            };
            let wanted = asked_for(filters, entry) && (filters.since matches Some(since)
                ==> since.total_nanos() <= entry.timestamp.total_nanos());
            log_history(logs.push(entry), filters) == (if wanted {
                pushed_within(log_history(logs, filters), entry, most)
            } else {
                log_history(logs, filters)
            })
        }),
{
    let wanted = |e: LogEntryView| crate::logs::entry_wanted(filters, e);
    let most: nat = match filters.limit {
        Some(limit) => limit as nat,
        None => 1000,
    };
    assert(logs.push(entry).drop_last() =~= logs);
    lemma_pushed_within(kept_where(logs, wanted), entry, most);
}

/// An export holds every line of the project and the process asked for, however many and however
/// old.
pub proof fn law_export_with_one_more_line(
    logs: Seq<LogEntryView>,
    filters: LogHistoryFiltersView,
    entry: LogEntryView,
)
    ensures
        exported_logs(Seq::empty(), filters).len() == 0,
        exported_logs(logs.push(entry), filters) == (if asked_for(filters, entry) {
            exported_logs(logs, filters).push(entry)
        } else {
            exported_logs(logs, filters)
        }),
{
    assert(logs.push(entry).drop_last() =~= logs);
}

/// Clearing the lines of a project leaves those of the others, in their order; clearing all leaves
/// none.
pub proof fn law_clearing_with_one_more_line(
    logs: Seq<LogEntryView>,
    entry: LogEntryView,
    project_id: Seq<char>,
)
    ensures
        cleared_logs(logs, None).len() == 0,
        cleared_logs(Seq::empty(), Some(project_id)).len() == 0,
        cleared_logs(logs.push(entry), Some(project_id)) == (if entry.project_id == project_id {
            cleared_logs(logs, Some(project_id))
        } else {
            cleared_logs(logs, Some(project_id)).push(entry)
        }),
{
    assert(logs.push(entry).drop_last() =~= logs);
}

/// The lines that are shown first are those of any process since a time, a thousand at most.
pub proof fn law_recent_lines(since: Timestamp)
    ensures
        recent_filters(since).project_id is None,
        recent_filters(since).process_id is None,
        recent_filters(since).limit == Some(1000usize),
        recent_filters(since).since == Some(since),
{
}

/// A list with one more item at its front, shortened at its end to a length.
pub open spec fn led_within<T>(list: Seq<T>, item: T, most: nat) -> Seq<T> {
    if most == 0 {
        Seq::empty()
    } else if list.len() < most {
        seq![item] + list
    } else {
        seq![item] + list.take(most - 1)
    }
}

proof fn lemma_led_within<T>(list: Seq<T>, item: T, most: nat)
    ensures
        newest(list.push(item), most).reverse() == led_within(
            newest(list, most).reverse(),
            item,
            most,
        ),
{
    assert(newest(list.push(item), most).reverse() =~= led_within(
        newest(list, most).reverse(),
        item,
        most,
    ));
}

/// A new line leads the lines shown of its project, and the problems where it is a warning or an
/// error; other lines change nothing there.
pub proof fn law_latest_lines_lead(
    logs: Seq<LogEntryView>,
    entry: LogEntryView,
    project_id: Seq<char>,
    most: nat,
)
    ensures
        project_logs(Seq::empty(), project_id, most).len() == 0,
        problem_logs(Seq::empty(), most).len() == 0,
        project_logs(logs.push(entry), project_id, most) == (if entry.project_id == project_id {
            led_within(project_logs(logs, project_id, most), entry, most)
        } else {
            project_logs(logs, project_id, most)
        }),
        problem_logs(logs.push(entry), most) == (if entry.level == LogLevel::Warn || entry.level
            == LogLevel::Error {
            led_within(problem_logs(logs, most), entry, most)
        } else {
            problem_logs(logs, most)
        }),
{
    assert(logs.push(entry).drop_last() =~= logs);
    let of_project = |e: LogEntryView| e.project_id == project_id;
    let problem = |e: LogEntryView| crate::logs::is_problem(e);
    lemma_led_within(kept_where(logs, of_project), entry, most);
    lemma_led_within(kept_where(logs, problem), entry, most);
    assert(Seq::<LogEntryView>::empty().reverse() =~= Seq::empty());
}

proof fn lemma_trailing_gone(text: Seq<char>, c: char, n: nat)
    requires
        text.len() == 0 || text.last() != c,
    ensures
        without_trailing(text + Seq::new(n, |i: int| c), c) == text,
    decreases n,
{
    let all = text + Seq::new(n, |i: int| c);
    if n == 0 {
        assert(all =~= text);
    } else {
        assert(all.drop_last() =~= text + Seq::new((n - 1) as nat, |i: int| c));
        assert(all.last() == c);
        lemma_trailing_gone(text, c, (n - 1) as nat);
    }
}

/// A line of output is logged under its stream: errors as warnings, the rest as information. From
/// another machine it comes without the carriage returns at its end.
pub proof fn law_output_lines(
    rt: RuntimeView,
    config: ConfigView,
    process: ProcessDefinitionView,
    stream: StreamType,
    is_remote: bool,
    text: Seq<char>,
    ends: nat,
    stamp: StampView,
)
    requires
        text.len() == 0 || text.last() != '\r',
        is_remote || ends == 0,
    ensures
        rt.with_line_read(
            config,
            process,
            stream,
            is_remote,
            text + Seq::new(ends, |i: int| '\r'),
            None,
            stamp,
        ) == rt.with_log(
            config,
            process,
            stream,
            if stream == StreamType::Stderr {
                LogLevel::Warn
            } else {
                LogLevel::Info
            },
            text,
            stamp,
        ),
{
    lemma_trailing_gone(text, '\r', ends);
    if ends == 0 {
        assert(text + Seq::new(0, |i: int| '\r') =~= text);
    }
}

/// A number that another machine announces among the errors is that of the process there. From
/// this machine, or in the output, such a line is a line like any other.
pub proof fn law_announced_numbers(
    rt: RuntimeView,
    config: ConfigView,
    process: ProcessDefinitionView,
    stream: StreamType,
    is_remote: bool,
    line: Seq<char>,
    pid: u32,
    stamp: StampView,
)
    ensures
        ({
            let after = rt.with_line_read(
                config,
                process,
                stream,
                is_remote,
                line,
                Some(pid),
                stamp,
            );
            if is_remote && stream == StreamType::Stderr {
                &&& after.remote_pids == rt.remote_pids.insert(process.id, pid)
                &&& after.effects.len() == rt.effects.len() + 1
                &&& shows(
                    after,
                    rt.effects.len() as int,
                    process,
                    LogLevel::Debug,
                    "Remote pid "@ + decimal(pid as nat) + " captured"@,
                )
                &&& after.log_batches == rt.log_batches
                &&& after.states == rt.states
            } else {
                after == rt.with_line_read(config, process, stream, is_remote, line, None, stamp)
            }
        }),
{
}

/// The end of a stream is told, and all output of the process that waits is shown then.
pub proof fn law_end_of_a_stream(
    rt: RuntimeView,
    config: ConfigView,
    process: ProcessDefinitionView,
    end: StreamEndView,
    stamp: StampView,
)
    ensures
        ({
            let n = rt.effects.len() as int;
            let waits = rt.log_batches.contains_key(process.id)
                && rt.log_batches[process.id].len() > 0;
            let out = rt.with_stream_ended(config, process, StreamType::Stdout, end, stamp);
            let err = rt.with_stream_ended(config, process, StreamType::Stderr, end, stamp);
            &&& end matches StreamEndView::Closed ==> shows(
                out,
                n,
                process,
                LogLevel::Debug,
                "Stdout stream closed"@,
            ) && shows(err, n, process, LogLevel::Debug, "Stderr stream closed"@)
            &&& end matches StreamEndView::Failed { error } ==> shows(
                out,
                n,
                process,
                LogLevel::Warn,
                "Stdout reader error: "@ + error,
            ) && shows(err, n, process, LogLevel::Warn, "Stderr reader error: "@ + error)
            &&& waits ==> out.effects.len() == n + 2 && out.effects[n + 1] == (
            EffectView::LogBatch { entries: rt.log_batches[process.id] }) && out.log_batches
                == rt.log_batches.insert(process.id, Seq::empty())
            &&& !waits ==> out.effects.len() == n + 1 && out.log_batches == rt.log_batches
            &&& waits ==> err.effects.len() == n + 2 && err.effects[n + 1] == out.effects[n + 1]
            &&& out.states == rt.states && err.states == rt.states
        }),
{
    reveal_strlit("Stdout");
    reveal_strlit("Stderr");
    reveal_strlit(" stream closed");
    reveal_strlit(" reader error: ");
    reveal_strlit("Stdout stream closed");
    reveal_strlit("Stderr stream closed");
    reveal_strlit("Stdout reader error: ");
    reveal_strlit("Stderr reader error: ");
    assert("Stdout"@ + " stream closed"@ =~= "Stdout stream closed"@);
    assert("Stderr"@ + " stream closed"@ =~= "Stderr stream closed"@);
    assert("Stdout"@ + " reader error: "@ =~= "Stdout reader error: "@);
    assert("Stderr"@ + " reader error: "@ =~= "Stderr reader error: "@);
}

/// Of the errors of the interface the latest are kept, as many as wanted but at least one. Each
/// is a line of its own too, an error, with all that is known of it.
pub proof fn law_interface_errors(
    rt: RuntimeView,
    config: ConfigView,
    record: FrontendErrorRecordView,
    retention: nat,
    id: Seq<char>,
)
    requires
        rt.frontend_errors.len() <= retention,
        retention > 0,
    ensures
        ({
            let after = rt.with_frontend_error(config, record, retention, id);
            let entry = frontend_error_entry(record, id);
            &&& after.frontend_errors == pushed_within(rt.frontend_errors, record, retention)
            &&& after.logs == pushed_within(
                rt.logs,
                entry,
                config.settings.log_retention_lines as nat,
            )
            &&& after.effects == rt.effects.push(EffectView::Log { entry })
            &&& after.states == rt.states && same_tracking(rt, after)
            &&& entry.id == id
            &&& entry.timestamp == record.timestamp
            &&& entry.level == LogLevel::Error
            &&& entry.stream == StreamType::System
            &&& entry.process_id == "_frontend"@ && entry.project_id == "_app"@
            &&& entry.message == "[frontend:"@ + record.source + "] "@ + record.message
            &&& entry.raw == Some(frontend_error_detail(record))
        }),
{
    lemma_pushed_within(
        rt.logs,
        frontend_error_entry(record, id),
        config.settings.log_retention_lines as nat,
    );
    assert(with_record(rt.frontend_errors, record, retention) =~= pushed_within(
        rt.frontend_errors,
        record,
        retention,
    ));
}

/// A new error of the interface comes last; where as many as wanted are there, the first goes for
/// it.
pub proof fn law_interface_errors_make_room(
    records: Seq<FrontendErrorRecordView>,
    record: FrontendErrorRecordView,
    retention: nat,
)
    ensures
        ({
            let after = with_record(records, record, retention);
            &&& records.len() == 0 || records.len() < retention ==> after == records.push(record)
            &&& records.len() > 0 && records.len() >= retention ==> after == records.skip(1).push(
                record,
            )
        }),
{
    if records.len() > 0 {
        assert(records.drop_first() =~= records.skip(1));
    }
}

/// What is known of an error of the interface is its message, then its stack, then that of its
/// components, as far as they are there and not empty.
pub proof fn law_interface_error_details(record: FrontendErrorRecordView)
    ensures
        ({
            let stack = match record.stack {
                Some(text) => text,
                None => Seq::empty(),
            };
            let components = match record.component_stack {
                Some(text) => text,
                None => Seq::empty(),
            };
            let detail = frontend_error_detail(record);
            &&& stack.len() == 0 && components.len() == 0 ==> detail == record.message
            &&& stack.len() > 0 && components.len() == 0 ==> detail == record.message + "\n"@
                + stack
            &&& stack.len() == 0 && components.len() > 0 ==> detail == record.message
                + "\nComponentStack:\n"@ + components
            &&& stack.len() > 0 && components.len() > 0 ==> detail == record.message + "\n"@
                + stack + "\nComponentStack:\n"@ + components
        }),
{
}

} // verus!
