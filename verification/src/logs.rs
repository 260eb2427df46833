//! Logs: what is kept, what is sent and when, and what can be asked of them.
use std::collections::VecDeque;
use vstd::prelude::*;

use crate::clock::{log_history_since, nanos_of, Timestamp, LOG_HISTORY_WINDOW_MINUTES};
use crate::lookup::{kept_where, lemma_kept_contains, push_item, reverse_items};
use crate::models::{
    Config, ConfigView, Duplicate, FrontendErrorRecord, FrontendErrorRecordView, LogEntry,
    LogEntryView, LogHistoryFilters, LogHistoryFiltersView, LogLevel, ProcessDefinition,
    ProcessDefinitionView, StreamType,
};
use crate::runtime::{Effect, EffectView, Runtime, RuntimeView, Stamp, StampView};
use crate::text::{
    around_number, concat, concat3, decimal, same_text, trim_end_char, without_trailing,
};
use crate::text_map::TextMap;

verus! {

/// So many entries of a process's output are sent together.
pub const LOG_BATCH_FLUSH_LIMIT: usize = 32;

/// So many entries are handed out where the request names no limit.
pub const LOG_HISTORY_DEFAULT_LIMIT: usize = 1000;

/// The newest `n` of a list that has the oldest first.
pub open spec fn newest<T>(list: Seq<T>, n: nat) -> Seq<T> {
    if list.len() > n {
        list.skip(list.len() - n)
    } else {
        list
    }
}

// ---------------------------------------------------------------------------
// Appending
// ---------------------------------------------------------------------------

/// An entry in the log of a process.
pub open spec fn log_entry(
    process: ProcessDefinitionView,
    stream: StreamType,
    level: LogLevel,
    message: Seq<char>,
    stamp: StampView,
) -> LogEntryView {
    LogEntryView {
        id: stamp.id,
        process_id: process.id,
        project_id: process.project_id,
        timestamp: stamp.at,
        stream,
        level,
        raw: Some(message),
        message,
    }
}

impl RuntimeView {
    /// An entry is kept, and the oldest ones go where there are too many.
    pub open spec fn with_entry_kept(self, config: ConfigView, entry: LogEntryView) -> RuntimeView {
        RuntimeView {
            logs: newest(self.logs.push(entry), config.settings.log_retention_lines as nat),
            ..self
        }
    }

    /// The output of a process that has not been sent yet.
    pub open spec fn waiting_output(self, process_id: Seq<char>) -> Seq<LogEntryView> {
        if self.log_batches.contains_key(process_id) {
            self.log_batches[process_id]
        } else {
            Seq::empty()
        }
    }

    /// An entry of a process's output waits to be sent; enough of them are sent together.
    pub open spec fn with_output_queued(self, entry: LogEntryView) -> RuntimeView {
        let batch = self.waiting_output(entry.process_id).push(entry);
        if batch.len() >= LOG_BATCH_FLUSH_LIMIT {
            RuntimeView {
                log_batches: self.log_batches.insert(entry.process_id, Seq::empty()),
                ..self
            }.with_effect(EffectView::LogBatch { entries: batch })
        } else {
            RuntimeView { log_batches: self.log_batches.insert(entry.process_id, batch), ..self }
        }
    }

    /// A process's log has a new entry. The orchestrator's own entries are sent at once.
    pub open spec fn with_log(
        self,
        config: ConfigView,
        process: ProcessDefinitionView,
        stream: StreamType,
        level: LogLevel,
        message: Seq<char>,
        stamp: StampView,
    ) -> RuntimeView {
        let entry = log_entry(process, stream, level, message, stamp);
        let kept = self.with_entry_kept(config, entry);
        match stream {
            StreamType::System => kept.with_effect(EffectView::Log { entry }),
            _ => kept.with_output_queued(entry),
        }
    }

    /// The orchestrator tells of a process in its log.
    pub open spec fn with_note(
        self,
        config: ConfigView,
        process: ProcessDefinitionView,
        level: LogLevel,
        message: Seq<char>,
        stamp: StampView,
    ) -> RuntimeView {
        self.with_log(config, process, StreamType::System, level, message, stamp)
    }

    /// The waiting output of a process is sent.
    pub open spec fn with_output_sent(self, process_id: Seq<char>) -> RuntimeView {
        let batch = self.waiting_output(process_id);
        if batch.len() == 0 {
            self
        } else {
            RuntimeView {
                log_batches: self.log_batches.insert(process_id, Seq::empty()),
                ..self
            }.with_effect(EffectView::LogBatch { entries: batch })
        }
    }

    /// The waiting output of several processes is sent, one process after the other.
    pub open spec fn with_outputs_sent(self, process_ids: Seq<Seq<char>>) -> RuntimeView
        decreases process_ids.len(),
    {
        if process_ids.len() == 0 {
            self
        } else {
            self.with_outputs_sent(process_ids.drop_last()).with_output_sent(process_ids.last())
        }
    }
}

/// `ids` holds each key of `map` once.
pub open spec fn lists_keys<T>(ids: Seq<Seq<char>>, map: Map<Seq<char>, T>) -> bool {
    &&& ids.no_duplicates()
    &&& forall|id: Seq<char>| #[trigger] ids.contains(id) <==> map.contains_key(id)
}

impl Runtime {
    fn keep_entry(&mut self, config: &Config, entry: LogEntry)
        ensures
            final(self).deep_view() == old(self).deep_view().with_entry_kept(
                config.deep_view(),
                entry.deep_view(),
            ),
    {
        let retention = config.settings.log_retention_lines;
        let ghost before = self.logs@;
        self.logs.push_back(entry);
        let ghost all = self.logs@;
        assert(all.skip(0) =~= all);
        let ghost mut dropped: int = 0;
        while self.logs.len() > retention
            invariant
                self.logs@ == all.skip(dropped),
                0 <= dropped <= all.len(),
                dropped > 0 ==> self.logs@.len() >= retention,
                self.states == old(self).states,
                self.pids == old(self).pids,
                self.remote_pids == old(self).remote_pids,
                self.process_records == old(self).process_records,
                self.stopping_processes == old(self).stopping_processes,
                self.log_batches == old(self).log_batches,
                self.frontend_errors == old(self).frontend_errors,
                self.metrics_history == old(self).metrics_history,
                self.effects == old(self).effects,
            decreases self.logs@.len(),
        {
            let _ = self.logs.pop_front();
            proof {
                dropped = dropped + 1;
                assert(self.logs@ =~= all.skip(dropped));
            }
        }
        proof {
            let views = old(self).logs.deep_view().push(entry.deep_view());
            assert(self.logs.deep_view() =~= newest(views, retention as nat));
        }
    }

    fn queue_output(&mut self, entry: LogEntry)
        ensures
            final(self).deep_view() == old(self).deep_view().with_output_queued(entry.deep_view()),
    {
        let process_id = entry.process_id.clone();
        let mut batch = match self.log_batches.remove(process_id.as_str()) {
            Some(batch) => batch,
            None => {
                let batch: Vec<LogEntry> = Vec::new();
                assert(batch.deep_view() =~= Seq::<LogEntryView>::empty());
                batch
            },
        };
        push_item(&mut batch, entry);
        let ghost map = old(self).log_batches.deep_view();
        assert(batch.deep_view().len() == batch@.len());
        if batch.len() >= LOG_BATCH_FLUSH_LIMIT {
            let none: Vec<LogEntry> = Vec::new();
            assert(none.deep_view() =~= Seq::<LogEntryView>::empty());
            self.log_batches.insert(process_id, none);
            assert(self.log_batches.deep_view() =~= map.insert(process_id@, Seq::empty()));
            self.queue(Effect::LogBatch { entries: batch });
        } else {
            let ghost waiting = batch.deep_view();
            self.log_batches.insert(process_id, batch);
            assert(self.log_batches.deep_view() =~= map.insert(process_id@, waiting));
        }
    }

    /// Adds an entry to a process's log.
    pub fn append_log(
        &mut self,
        config: &Config,
        process: &ProcessDefinition,
        stream: StreamType,
        level: LogLevel,
        message: String,
        stamp: Stamp,
    )
        ensures
            final(self).deep_view() == old(self).deep_view().with_log(
                config.deep_view(),
                process.deep_view(),
                stream,
                level,
                message@,
                stamp.deep_view(),
            ),
    {
        let entry = LogEntry {
            id: stamp.id,
            process_id: process.id.clone(),
            project_id: process.project_id.clone(),
            timestamp: stamp.at,
            stream,
            level,
            raw: Some(message.clone()),
            message,
        };
        self.keep_entry(config, entry.duplicate());
        match stream {
            StreamType::System => {
                self.queue(Effect::Log { entry });
            },
            StreamType::Stdout | StreamType::Stderr => {
                self.queue_output(entry);
            },
        }
    }

    /// Tells of a process in its log.
    pub fn note(
        &mut self,
        config: &Config,
        process: &ProcessDefinition,
        level: LogLevel,
        message: String,
        stamp: Stamp,
    )
        ensures
            final(self).deep_view() == old(self).deep_view().with_note(
                config.deep_view(),
                process.deep_view(),
                level,
                message@,
                stamp.deep_view(),
            ),
    {
        self.append_log(config, process, StreamType::System, level, message, stamp);
    }

    /// Sends the waiting output of a process.
    pub fn flush_process_log_batch(&mut self, process_id: &str)
        ensures
            final(self).deep_view() == old(self).deep_view().with_output_sent(process_id@),
    {
        let ghost map = self.log_batches.deep_view();
        match self.log_batches.remove(process_id) {
            None => {
                assert(self.log_batches.deep_view() =~= map);
            },
            Some(batch) => {
                assert(batch.deep_view().len() == batch@.len());
                let none: Vec<LogEntry> = Vec::new();
                assert(none.deep_view() =~= Seq::<LogEntryView>::empty());
                let sends = batch.len() > 0;
                if sends {
                    self.log_batches.insert(process_id.to_string(), none);
                    assert(self.log_batches.deep_view() =~= map.insert(process_id@, Seq::empty()));
                    self.queue(Effect::LogBatch { entries: batch });
                } else {
                    assert(batch.deep_view() =~= Seq::<LogEntryView>::empty());
                    self.log_batches.insert(process_id.to_string(), batch);
                    assert(self.log_batches.deep_view() =~= map);
                }
            },
        }
    }

    /// Sends all the waiting output, one process after the other.
    pub fn flush_log_batches(&mut self)
        ensures
            exists|ids: Seq<Seq<char>>| #[trigger]
                lists_keys(ids, old(self).deep_view().log_batches) && final(self).deep_view()
                    == old(self).deep_view().with_outputs_sent(ids),
    {
        let ids = map_keys(&self.log_batches);
        let ghost all = ids.deep_view();
        let mut i: usize = 0;
        while i < ids.len()
            invariant
                i <= ids@.len(),
                all == ids.deep_view(),
                self.deep_view() == old(self).deep_view().with_outputs_sent(all.take(i as int)),
            decreases ids@.len() - i,
        {
            assert(all.take(i + 1).drop_last() =~= all.take(i as int));
            self.flush_process_log_batch(ids[i].as_str());
            i += 1;
        }
        assert(all.take(i as int) =~= all);
        assert(lists_keys(all, old(self).deep_view().log_batches));
    }
}

/// The keys of a map, each once.
pub fn map_keys<T: DeepView>(map: &TextMap<T>) -> (r: Vec<String>)
    ensures
        lists_keys(r.deep_view(), map.deep_view()),
        r.deep_view() == map.listing().map_values(|entry: (Seq<char>, T::V)| entry.0),
{
    let n = map.len();
    let ghost list = map.listing();
    let ghost keys = list.map_values(|entry: (Seq<char>, T::V)| entry.0);
    let mut r: Vec<String> = Vec::new();
    let mut i: usize = 0;
    while i < n
        invariant
            i <= n,
            n == list.len(),
            list == map.listing(),
            keys == list.map_values(|entry: (Seq<char>, T::V)| entry.0),
            r.deep_view() =~= keys.take(i as int),
        decreases n - i,
    {
        push_item(&mut r, map.key_at(i).clone());
        i += 1;
    }
    assert(keys.take(i as int) =~= keys);
    assert forall|id: Seq<char>| #[trigger] keys.contains(id) <==> map.deep_view().contains_key(
        id,
    ) by {
        if keys.contains(id) {
            let k = choose|k: int| 0 <= k < keys.len() && keys[k] == id;
            assert(list[k].0 == id);
        }
        if map.deep_view().contains_key(id) {
            let k = choose|k: int| 0 <= k < list.len() && (#[trigger] list[k]).0 == id;
            assert(keys[k] == id);
        }
    }
    assert(keys.no_duplicates()) by {
        assert forall|a: int, b: int|
            0 <= a < keys.len() && 0 <= b < keys.len() && a != b implies keys[a] != keys[b] by {
            assert(list[a].0 != list[b].0);
        }
    }
    r
}

// ---------------------------------------------------------------------------
// Reading the output of a process
// ---------------------------------------------------------------------------

/// The name of a stream.
pub open spec fn stream_name(stream: StreamType) -> Seq<char> {
    match stream {
        StreamType::Stdout => "Stdout"@,
        StreamType::Stderr => "Stderr"@,
        StreamType::System => "System"@,
    }
}

fn stream_text(stream: StreamType) -> (r: &'static str)
    ensures
        r@ == stream_name(stream),
{
    match stream {
        StreamType::Stdout => "Stdout",
        StreamType::Stderr => "Stderr",
        StreamType::System => "System",
    }
}

/// The level of what comes out of a stream.
pub open spec fn stream_level(stream: StreamType) -> LogLevel {
    if stream is Stderr {
        LogLevel::Warn
    } else {
        LogLevel::Info
    }
}

/// How the reading of a stream ended.
#[derive(Debug, PartialEq)]
pub enum StreamEnd {
    Closed,
    Failed { error: String },
}

/// The model of [`StreamEnd`].
pub enum StreamEndView {
    Closed,
    Failed { error: Seq<char> },
}

impl DeepView for StreamEnd {
    type V = StreamEndView;

    open spec fn deep_view(&self) -> StreamEndView {
        match self {
            StreamEnd::Closed => StreamEndView::Closed,
            StreamEnd::Failed { error } => StreamEndView::Failed { error: error@ },
        }
    }
}

impl RuntimeView {
    /// A process printed a line. On the error stream of a remote process the line that announces
    /// the process's number is taken out; what else a remote process prints loses the carriage
    /// returns at its end.
    pub open spec fn with_line_read(
        self,
        config: ConfigView,
        process: ProcessDefinitionView,
        stream: StreamType,
        is_remote: bool,
        line: Seq<char>,
        announced_pid: Option<u32>,
        stamp: StampView,
    ) -> RuntimeView {
        match announced_pid {
            Some(pid) if is_remote && stream is Stderr => RuntimeView {
                remote_pids: self.remote_pids.insert(process.id, pid),
                ..self
            }.with_note(
                config,
                process,
                LogLevel::Debug,
                "Remote pid "@ + decimal(pid as nat) + " captured"@,
                stamp,
            ),
            _ => self.with_log(
                config,
                process,
                stream,
                stream_level(stream),
                if is_remote {
                    without_trailing(line, '\r')
                } else {
                    line
                },
                stamp,
            ),
        }
    }

    /// A stream of a process ended: that is noted, and the waiting output is sent.
    pub open spec fn with_stream_ended(
        self,
        config: ConfigView,
        process: ProcessDefinitionView,
        stream: StreamType,
        end: StreamEndView,
        stamp: StampView,
    ) -> RuntimeView {
        let (level, message) = match end {
            StreamEndView::Closed => (LogLevel::Debug, stream_name(stream) + " stream closed"@),
            StreamEndView::Failed { error } => (
                LogLevel::Warn,
                stream_name(stream) + " reader error: "@ + error,
            ),
        };
        self.with_note(config, process, level, message, stamp).with_output_sent(process.id)
    }
}

impl Runtime {
    /// Remembers the process on the other machine behind a remote process.
    pub fn record_remote_pid(&mut self, process_id: &str, remote_pid: u32)
        ensures
            final(self).deep_view() == (RuntimeView {
                remote_pids: old(self).deep_view().remote_pids.insert(process_id@, remote_pid),
                ..old(self).deep_view()
            }),
    {
        self.remote_pids.insert(process_id.to_string(), remote_pid);
    }

    /// Takes in a line that a process printed; `announced_pid` is the process's number on the
    /// other machine where the line announces it.
    pub fn line_read(
        &mut self,
        config: &Config,
        process: &ProcessDefinition,
        stream: StreamType,
        is_remote: bool,
        line: String,
        announced_pid: Option<u32>,
        stamp: Stamp,
    )
        ensures
            final(self).deep_view() == old(self).deep_view().with_line_read(
                config.deep_view(),
                process.deep_view(),
                stream,
                is_remote,
                line@,
                announced_pid,
                stamp.deep_view(),
            ),
    {
        let is_stderr = matches!(stream, StreamType::Stderr);
        if is_remote && is_stderr {
            if let Some(pid) = announced_pid {
                self.record_remote_pid(process.id.as_str(), pid);
                let message = around_number("Remote pid ", pid as u64, " captured");
                self.note(config, process, LogLevel::Debug, message, stamp);
                return;
            }
        }
        let clean_line = if is_remote {
            trim_end_char(line.as_str(), '\r')
        } else {
            line
        };
        let level = if is_stderr {
            LogLevel::Warn
        } else {
            LogLevel::Info
        };
        self.append_log(config, process, stream, level, clean_line, stamp);
    }

    /// Takes in that a stream of a process ended.
    pub fn stream_ended(
        &mut self,
        config: &Config,
        process: &ProcessDefinition,
        stream: StreamType,
        end: &StreamEnd,
        stamp: Stamp,
    )
        ensures
            final(self).deep_view() == old(self).deep_view().with_stream_ended(
                config.deep_view(),
                process.deep_view(),
                stream,
                end.deep_view(),
                stamp.deep_view(),
            ),
    {
        match end {
            StreamEnd::Closed => {
                let message = concat(stream_text(stream), " stream closed");
                self.note(config, process, LogLevel::Debug, message, stamp);
            },
            StreamEnd::Failed { error } => {
                let message = concat3(stream_text(stream), " reader error: ", error.as_str());
                self.note(config, process, LogLevel::Warn, message, stamp);
            },
        }
        self.flush_process_log_batch(process.id.as_str());
    }
}

// ---------------------------------------------------------------------------
// Errors of the frontend
// ---------------------------------------------------------------------------

pub open spec fn filled(text: Option<Seq<char>>) -> bool {
    text is Some && text->0.len() > 0
}

/// The whole of what an error record says.
pub open spec fn frontend_error_detail(record: FrontendErrorRecordView) -> Seq<char> {
    let with_stack = if filled(record.stack) {
        record.message + "\n"@ + record.stack->0
    } else {
        record.message
    };
    if filled(record.component_stack) {
        with_stack + "\nComponentStack:\n"@ + record.component_stack->0
    } else {
        with_stack
    }
}

/// The log entry for an error of the frontend.
pub open spec fn frontend_error_entry(
    record: FrontendErrorRecordView,
    id: Seq<char>,
) -> LogEntryView {
    LogEntryView {
        id,
        process_id: "_frontend"@,
        project_id: "_app"@,
        timestamp: record.timestamp,
        stream: StreamType::System,
        level: LogLevel::Error,
        raw: Some(frontend_error_detail(record)),
        message: "[frontend:"@ + record.source + "] "@ + record.message,
    }
}

/// A record is added; the oldest makes room where there are `retention` already.
pub open spec fn with_record(
    records: Seq<FrontendErrorRecordView>,
    record: FrontendErrorRecordView,
    retention: nat,
) -> Seq<FrontendErrorRecordView> {
    if records.len() >= retention && records.len() > 0 {
        records.drop_first().push(record)
    } else {
        records.push(record)
    }
}

impl RuntimeView {
    /// An error of the frontend is recorded and logged.
    pub open spec fn with_frontend_error(
        self,
        config: ConfigView,
        record: FrontendErrorRecordView,
        retention: nat,
        id: Seq<char>,
    ) -> RuntimeView {
        let entry = frontend_error_entry(record, id);
        RuntimeView {
            frontend_errors: with_record(self.frontend_errors, record, retention),
            ..self
        }.with_entry_kept(config, entry).with_effect(EffectView::Log { entry })
    }
}

impl Runtime {
    /// Records an error of the frontend, keeping `retention` of them, and logs it.
    pub fn record_frontend_error(
        &mut self,
        config: &Config,
        record: &FrontendErrorRecord,
        retention: usize,
        id: String,
    )
        ensures
            final(self).deep_view() == old(self).deep_view().with_frontend_error(
                config.deep_view(),
                record.deep_view(),
                retention as nat,
                id@,
            ),
    {
        let ghost errors = self.frontend_errors.deep_view();
        if self.frontend_errors.len() >= retention {
            let _ = self.frontend_errors.pop_front();
        }
        let copy = record.duplicate();
        self.frontend_errors.push_back(copy);
        assert(self.frontend_errors.deep_view() =~= with_record(
            errors,
            record.deep_view(),
            retention as nat,
        ));
        let mut detail = record.message.clone();
        if let Some(stack) = &record.stack {
            if !stack.as_str().is_empty() {
                detail = concat3(detail.as_str(), "\n", stack.as_str());
            }
        }
        if let Some(component_stack) = &record.component_stack {
            if !component_stack.as_str().is_empty() {
                detail = concat3(detail.as_str(), "\nComponentStack:\n", component_stack.as_str());
            }
        }
        assert(detail@ == frontend_error_detail(record.deep_view()));
        let head = concat3("[frontend:", record.source.as_str(), "] ");
        let entry = LogEntry {
            id,
            process_id: "_frontend".to_string(),
            project_id: "_app".to_string(),
            timestamp: record.timestamp,
            stream: StreamType::System,
            level: LogLevel::Error,
            raw: Some(detail),
            message: concat(head.as_str(), record.message.as_str()),
        };
        assert(entry.deep_view() =~= frontend_error_entry(record.deep_view(), id@));
        self.keep_entry(config, entry.duplicate());
        self.queue(Effect::Log { entry });
    }

    /// The recorded errors of the frontend, oldest first.
    pub fn recent_frontend_errors(&self) -> (r: Vec<FrontendErrorRecord>)
        ensures
            r.deep_view() == self.deep_view().frontend_errors,
    {
        let ghost all = self.frontend_errors.deep_view();
        let mut r: Vec<FrontendErrorRecord> = Vec::new();
        let mut i: usize = 0;
        assert(r.deep_view() =~= all.take(0));
        while i < self.frontend_errors.len()
            invariant
                i <= self.frontend_errors@.len(),
                all == self.frontend_errors.deep_view(),
                r.deep_view() == all.take(i as int),
            decreases self.frontend_errors@.len() - i,
        {
            push_item(&mut r, self.frontend_errors[i].duplicate());
            assert(all.take(i + 1) =~= all.take(i as int).push(all[i as int]));
            i += 1;
        }
        assert(all.take(i as int) =~= all);
        r
    }
}

// ---------------------------------------------------------------------------
// Asking
// ---------------------------------------------------------------------------

/// A wish is met by a text: there is none, or it is that text.
pub open spec fn meets(wish: Option<Seq<char>>, text: Seq<char>) -> bool {
    wish is None || wish == Some(text)
}

/// An entry is of the wished project and process.
pub open spec fn entry_of(filters: LogHistoryFiltersView, entry: LogEntryView) -> bool {
    meets(filters.project_id, entry.project_id) && meets(filters.process_id, entry.process_id)
}

/// An entry is of the wished project and process and not too old.
pub open spec fn entry_wanted(filters: LogHistoryFiltersView, entry: LogEntryView) -> bool {
    &&& entry_of(filters, entry)
    &&& filters.since matches Some(since) ==> since.total_nanos() <= entry.timestamp.total_nanos()
}

/// The newest entries that are wanted, oldest first.
pub open spec fn log_history(
    logs: Seq<LogEntryView>,
    filters: LogHistoryFiltersView,
) -> Seq<LogEntryView> {
    let limit = match filters.limit {
        Some(limit) => limit as nat,
        None => LOG_HISTORY_DEFAULT_LIMIT as nat,
    };
    newest(kept_where(logs, |entry: LogEntryView| entry_wanted(filters, entry)), limit)
}

/// The entries of the wished project and process, oldest first.
pub open spec fn exported_logs(
    logs: Seq<LogEntryView>,
    filters: LogHistoryFiltersView,
) -> Seq<LogEntryView> {
    kept_where(logs, |entry: LogEntryView| entry_of(filters, entry))
}

/// What is left of the lines when those of a project, or all of them, are cleared.
pub open spec fn cleared_logs(
    logs: Seq<LogEntryView>,
    project_id: Option<Seq<char>>,
) -> Seq<LogEntryView> {
    match project_id {
        Some(id) => kept_where(logs, |entry: LogEntryView| entry.project_id != id),
        None => Seq::empty(),
    }
}

/// An entry that tells of a problem.
pub open spec fn is_problem(entry: LogEntryView) -> bool {
    entry.level is Warn || entry.level is Error
}

/// The newest `n` problems, newest first.
pub open spec fn problem_logs(logs: Seq<LogEntryView>, n: nat) -> Seq<LogEntryView> {
    newest(kept_where(logs, |entry: LogEntryView| is_problem(entry)), n).reverse()
}

/// The newest `n` entries of a project, newest first.
pub open spec fn project_logs(
    logs: Seq<LogEntryView>,
    project_id: Seq<char>,
    n: nat,
) -> Seq<LogEntryView> {
    newest(kept_where(logs, |entry: LogEntryView| entry.project_id == project_id), n).reverse()
}

fn meets_wish(wish: &Option<String>, text: &str) -> (r: bool)
    ensures
        r == meets(wish.deep_view(), text@),
{
    match wish {
        Some(wished) => same_text(wished.as_str(), text),
        None => true,
    }
}

/// The newest `n` items of a list.
pub fn take_newest<T: Duplicate>(list: &Vec<T>, n: usize) -> (r: Vec<T>)
    ensures
        r.deep_view() == newest(list.deep_view(), n as nat),
{
    let ghost all = list.deep_view();
    let start: usize = if list.len() > n {
        list.len() - n
    } else {
        0
    };
    let mut r: Vec<T> = Vec::new();
    let mut i: usize = start;
    while i < list.len()
        invariant
            start <= i <= list@.len(),
            all == list.deep_view(),
            r.deep_view() =~= all.subrange(start as int, i as int),
        decreases list@.len() - i,
    {
        push_item(&mut r, list[i].duplicate());
        i += 1;
    }
    assert(r.deep_view() =~= newest(all, n as nat));
    r
}

impl Runtime {
    fn entries_of(&self, filters: &LogHistoryFilters) -> (r: Vec<LogEntry>)
        ensures
            r.deep_view() == exported_logs(self.deep_view().logs, filters.deep_view()),
    {
        let ghost all = self.logs.deep_view();
        let ghost kept = |entry: LogEntryView| entry_of(filters.deep_view(), entry);
        let mut r: Vec<LogEntry> = Vec::new();
        let mut i: usize = 0;
        assert(r.deep_view() =~= kept_where(all.take(0), kept));
        while i < self.logs.len()
            invariant
                i <= self.logs@.len(),
                all == self.logs.deep_view(),
                kept == (|entry: LogEntryView| entry_of(filters.deep_view(), entry)),
                r.deep_view() == kept_where(all.take(i as int), kept),
            decreases self.logs@.len() - i,
        {
            assert(all.take(i + 1).drop_last() =~= all.take(i as int));
            let entry = &self.logs[i];
            if meets_wish(&filters.project_id, entry.project_id.as_str()) && meets_wish(
                &filters.process_id,
                entry.process_id.as_str(),
            ) {
                push_item(&mut r, entry.duplicate());
            }
            i += 1;
        }
        assert(all.take(i as int) =~= all);
        r
    }

    /// The newest entries that the filters let through, oldest first.
    pub fn log_history(&self, filters: &LogHistoryFilters) -> (r: Vec<LogEntry>)
        ensures
            r.deep_view() == log_history(self.deep_view().logs, filters.deep_view()),
    {
        let limit: usize = match filters.limit {
            Some(limit) => limit,
            None => LOG_HISTORY_DEFAULT_LIMIT,
        };
        let ghost all = self.logs.deep_view();
        let ghost kept = |entry: LogEntryView| entry_wanted(filters.deep_view(), entry);
        let mut r: Vec<LogEntry> = Vec::new();
        let mut i: usize = 0;
        assert(r.deep_view() =~= kept_where(all.take(0), kept));
        while i < self.logs.len()
            invariant
                i <= self.logs@.len(),
                all == self.logs.deep_view(),
                kept == (|entry: LogEntryView| entry_wanted(filters.deep_view(), entry)),
                r.deep_view() == kept_where(all.take(i as int), kept),
            decreases self.logs@.len() - i,
        {
            assert(all.take(i + 1).drop_last() =~= all.take(i as int));
            let entry = &self.logs[i];
            let recent = match &filters.since {
                Some(since) => since.not_after(&entry.timestamp),
                None => true,
            };
            if recent && meets_wish(&filters.project_id, entry.project_id.as_str()) && meets_wish(
                &filters.process_id,
                entry.process_id.as_str(),
            ) {
                push_item(&mut r, entry.duplicate());
            }
            i += 1;
        }
        assert(all.take(i as int) =~= all);
        take_newest(&r, limit)
    }

    /// The newest entries that the filters let through, oldest first. Without filters these are
    /// the newest thousand of the last five minutes.
    pub fn get_log_history(&self, filters: Option<LogHistoryFilters>) -> (r: Vec<LogEntry>)
        ensures
            match filters {
                Some(filters) => r.deep_view() == log_history(
                    self.deep_view().logs,
                    filters.deep_view(),
                ),
                None => exists|since: Timestamp|
                    since.total_nanos() >= -nanos_of(LOG_HISTORY_WINDOW_MINUTES * 60)
                        && r.deep_view() == log_history(
                        self.deep_view().logs,
                        #[trigger] recent_filters(since),
                    ),
            },
    {
        match filters {
            Some(filters) => self.log_history(&filters),
            None => {
                let since = log_history_since();
                let filters = LogHistoryFilters {
                    project_id: None,
                    process_id: None,
                    limit: Some(LOG_HISTORY_DEFAULT_LIMIT),
                    since: Some(since),
                };
                assert(filters.deep_view() =~= recent_filters(since));
                self.log_history(&filters)
            },
        }
    }

    /// The entries to be exported: those of the wished project and process.
    pub fn export_logs(&self, filters: &LogHistoryFilters) -> (r: Vec<LogEntry>)
        ensures
            r.deep_view() == exported_logs(self.deep_view().logs, filters.deep_view()),
    {
        self.entries_of(filters)
    }

    /// The newest `n` entries of a project, newest first.
    pub fn project_logs(&self, project_id: &str, n: usize) -> (r: Vec<LogEntry>)
        ensures
            r.deep_view() == project_logs(self.deep_view().logs, project_id@, n as nat),
    {
        let filters = LogHistoryFilters {
            project_id: Some(project_id.to_string()),
            process_id: None,
            limit: None,
            since: None,
        };
        let entries = self.entries_of(&filters);
        proof {
            let logs = self.logs.deep_view();
            lemma_kept_same(
                logs,
                |entry: LogEntryView| entry_of(filters.deep_view(), entry),
                |entry: LogEntryView| entry.project_id == project_id@,
            );
        }
        let newest_entries = take_newest(&entries, n);
        reverse_items(&newest_entries)
    }

    /// The newest `n` problems, newest first.
    pub fn problem_logs(&self, n: usize) -> (r: Vec<LogEntry>)
        ensures
            r.deep_view() == problem_logs(self.deep_view().logs, n as nat),
    {
        let ghost all = self.logs.deep_view();
        let ghost kept = |entry: LogEntryView| is_problem(entry);
        let mut r: Vec<LogEntry> = Vec::new();
        let mut i: usize = 0;
        assert(r.deep_view() =~= kept_where(all.take(0), kept));
        while i < self.logs.len()
            invariant
                i <= self.logs@.len(),
                all == self.logs.deep_view(),
                kept == (|entry: LogEntryView| is_problem(entry)),
                r.deep_view() == kept_where(all.take(i as int), kept),
            decreases self.logs@.len() - i,
        {
            assert(all.take(i + 1).drop_last() =~= all.take(i as int));
            if matches!(self.logs[i].level, LogLevel::Warn | LogLevel::Error) {
                push_item(&mut r, self.logs[i].duplicate());
            }
            i += 1;
        }
        assert(all.take(i as int) =~= all);
        let newest_entries = take_newest(&r, n);
        reverse_items(&newest_entries)
    }

    /// Forgets the entries of a project, or all of them.
    pub fn clear_log_history(&mut self, project_id: &Option<String>)
        ensures
            final(self).deep_view() == (RuntimeView {
                logs: cleared_logs(old(self).deep_view().logs, project_id.deep_view()),
                ..old(self).deep_view()
            }),
    {
        let mut logs: VecDeque<LogEntry> = VecDeque::new();
        if let Some(id) = project_id {
            let ghost all = self.logs.deep_view();
            let ghost kept = |entry: LogEntryView| entry.project_id != id@;
            let mut i: usize = 0;
            assert(logs.deep_view() =~= kept_where(all.take(0), kept));
            while i < self.logs.len()
                invariant
                    i <= self.logs@.len(),
                    all == self.logs.deep_view(),
                    kept == (|entry: LogEntryView| entry.project_id != id@),
                    logs.deep_view() == kept_where(all.take(i as int), kept),
                decreases self.logs@.len() - i,
            {
                assert(all.take(i + 1).drop_last() =~= all.take(i as int));
                if !same_text(self.logs[i].project_id.as_str(), id.as_str()) {
                    let ghost before = logs.deep_view();
                    let entry = self.logs[i].duplicate();
                    logs.push_back(entry);
                    assert(logs.deep_view() =~= before.push(entry.deep_view()));
                }
                i += 1;
            }
            assert(all.take(i as int) =~= all);
        } else {
            assert(logs.deep_view() =~= Seq::<LogEntryView>::empty());
        }
        self.logs = logs;
    }
}

/// The filters of a request that brings none.
pub open spec fn recent_filters(since: Timestamp) -> LogHistoryFiltersView {
    LogHistoryFiltersView {
        project_id: None,
        process_id: None,
        limit: Some(LOG_HISTORY_DEFAULT_LIMIT),
        since: Some(since),
    }
}

/// Two tests that agree on the items keep the same ones.
pub proof fn lemma_kept_same<T>(list: Seq<T>, a: spec_fn(T) -> bool, b: spec_fn(T) -> bool)
    requires
        forall|i: int| 0 <= i < list.len() ==> a(#[trigger] list[i]) == b(list[i]),
    ensures
        kept_where(list, a) == kept_where(list, b),
    decreases list.len(),
{
    if list.len() > 0 {
        let front = list.drop_last();
        assert forall|i: int| 0 <= i < front.len() implies a(#[trigger] front[i]) == b(
            front[i],
        ) by {
            assert(front[i] == list[i]);
        }
        lemma_kept_same(front, a, b);
        assert(a(list[list.len() - 1]) == b(list[list.len() - 1]));
    }
}

// ---------------------------------------------------------------------------
// Laws
// ---------------------------------------------------------------------------

/// No more entries are kept than configured, and those that are kept are the newest: the new
/// entry comes last and the ones before it are the end of what was kept before.
pub proof fn law_newest_entries_are_kept(
    rt: RuntimeView,
    config: ConfigView,
    process: ProcessDefinitionView,
    stream: StreamType,
    level: LogLevel,
    message: Seq<char>,
    stamp: StampView,
)
    ensures
        ({
            let logs = rt.with_log(config, process, stream, level, message, stamp).logs;
            let retention = config.settings.log_retention_lines as nat;
            &&& logs.len() <= retention
            &&& retention > 0 ==> logs.last() == log_entry(process, stream, level, message, stamp)
            &&& retention > 0 ==> logs.drop_last() == newest(rt.logs, (retention - 1) as nat)
        }),
{
    let entry = log_entry(process, stream, level, message, stamp);
    let logs = newest(rt.logs.push(entry), config.settings.log_retention_lines as nat);
    let retention = config.settings.log_retention_lines as nat;
    if retention > 0 {
        assert(logs.drop_last() =~= newest(rt.logs, (retention - 1) as nat));
    }
}

/// The entries of a process among those that were sent in batches.
pub open spec fn sent_output(effects: Seq<EffectView>, process_id: Seq<char>) -> Seq<LogEntryView>
    decreases effects.len(),
{
    if effects.len() == 0 {
        Seq::empty()
    } else {
        let before = sent_output(effects.drop_last(), process_id);
        match effects.last() {
            EffectView::LogBatch { entries } => before + kept_where(
                entries,
                |entry: LogEntryView| entry.process_id == process_id,
            ),
            _ => before,
        }
    }
}

/// What a process printed and was sent or waits to be sent.
pub open spec fn whole_output(rt: RuntimeView, process_id: Seq<char>) -> Seq<LogEntryView> {
    sent_output(rt.effects, process_id) + rt.waiting_output(process_id)
}

/// Under each process waits only what that process printed.
pub open spec fn batches_sorted(rt: RuntimeView) -> bool {
    forall|process_id: Seq<char>, i: int|
        #![trigger rt.log_batches[process_id][i]]
        rt.log_batches.contains_key(process_id) && 0 <= i < rt.log_batches[process_id].len()
            ==> rt.log_batches[process_id][i].process_id == process_id
}

proof fn lemma_kept_all<T>(list: Seq<T>, kept: spec_fn(T) -> bool)
    requires
        forall|i: int| 0 <= i < list.len() ==> kept(#[trigger] list[i]),
    ensures
        kept_where(list, kept) == list,
    decreases list.len(),
{
    if list.len() > 0 {
        let front = list.drop_last();
        assert forall|i: int| 0 <= i < front.len() implies kept(#[trigger] front[i]) by {
            assert(kept(list[i]));
        }
        lemma_kept_all(front, kept);
        assert(kept(list[list.len() - 1]));
        assert(front.push(list.last()) =~= list);
    } else {
        assert(kept_where(list, kept) =~= list);
    }
}

proof fn lemma_kept_none<T>(list: Seq<T>, kept: spec_fn(T) -> bool)
    requires
        forall|i: int| 0 <= i < list.len() ==> !kept(#[trigger] list[i]),
    ensures
        kept_where(list, kept) == Seq::<T>::empty(),
    decreases list.len(),
{
    if list.len() > 0 {
        let front = list.drop_last();
        assert forall|i: int| 0 <= i < front.len() implies !kept(#[trigger] front[i]) by {
            assert(!kept(list[i]));
        }
        lemma_kept_none(front, kept);
        assert(!kept(list[list.len() - 1]));
    }
}

/// Sending a batch that one process printed adds it to what that process sent, and to no other's.
proof fn lemma_batch_sent(
    effects: Seq<EffectView>,
    entries: Seq<LogEntryView>,
    owner: Seq<char>,
    process_id: Seq<char>,
)
    requires
        forall|i: int| 0 <= i < entries.len() ==> (#[trigger] entries[i]).process_id == owner,
    ensures
        sent_output(effects.push(EffectView::LogBatch { entries }), process_id) == (
        if process_id == owner {
            sent_output(effects, process_id) + entries
        } else {
            sent_output(effects, process_id)
        }),
{
    let all = effects.push(EffectView::LogBatch { entries });
    assert(all.drop_last() =~= effects);
    let kept = |entry: LogEntryView| entry.process_id == process_id;
    if process_id == owner {
        lemma_kept_all(entries, kept);
    } else {
        lemma_kept_none(entries, kept);
        assert(sent_output(effects, process_id) + Seq::<LogEntryView>::empty() =~= sent_output(
            effects,
            process_id,
        ));
    }
}

/// What a process prints is neither lost nor reordered nor sent twice: with a new entry, all
/// that was sent or waits is what it was before and then the entry. The orchestrator's own
/// entries do not touch it, nor do the entries of another process.
pub proof fn law_output_is_sent_in_order(
    rt: RuntimeView,
    config: ConfigView,
    process: ProcessDefinitionView,
    stream: StreamType,
    level: LogLevel,
    message: Seq<char>,
    stamp: StampView,
    process_id: Seq<char>,
)
    requires
        batches_sorted(rt),
    ensures
        ({
            let after = rt.with_log(config, process, stream, level, message, stamp);
            let entry = log_entry(process, stream, level, message, stamp);
            &&& batches_sorted(after)
            &&& whole_output(after, process_id) == (if stream is System || process_id
                != process.id {
                whole_output(rt, process_id)
            } else {
                whole_output(rt, process_id).push(entry)
            })
        }),
{
    let after = rt.with_log(config, process, stream, level, message, stamp);
    let entry = log_entry(process, stream, level, message, stamp);
    if stream is System {
        assert(after.effects.drop_last() =~= rt.effects);
        assert(after.log_batches == rt.log_batches);
        assert(batches_sorted(after)) by {
            assert forall|id: Seq<char>, i: int|
                #![trigger after.log_batches[id][i]]
                after.log_batches.contains_key(id) && 0 <= i
                    < after.log_batches[id].len() implies after.log_batches[id][i].process_id
                == id by {
                assert(rt.log_batches[id][i].process_id == id);
            }
        }
    } else {
        let waiting = rt.waiting_output(process.id);
        let batch = waiting.push(entry);
        assert forall|i: int| 0 <= i < batch.len() implies (#[trigger] batch[i]).process_id
            == process.id by {
            if i < waiting.len() {
                assert(rt.log_batches[process.id][i].process_id == process.id);
            }
        }
        assert forall|id: Seq<char>, i: int|
            #![trigger after.log_batches[id][i]]
            after.log_batches.contains_key(id) && 0 <= i < after.log_batches[id].len() implies
            after.log_batches[id][i].process_id == id by {
            if id != process.id {
                assert(rt.log_batches[id][i].process_id == id);
            } else {
                assert(after.log_batches[id] == batch);
            }
        }
        let sent = sent_output(rt.effects, process_id);
        if batch.len() >= LOG_BATCH_FLUSH_LIMIT {
            lemma_batch_sent(rt.effects, batch, process.id, process_id);
            if process_id == process.id {
                assert(whole_output(after, process_id) =~= sent + batch);
                assert(whole_output(rt, process_id).push(entry) =~= sent + batch);
            }
        } else if process_id == process.id {
            assert(whole_output(rt, process_id).push(entry) =~= sent + batch);
        }
    }
}

/// Sending what waits loses nothing, reorders nothing and leaves nothing waiting.
pub proof fn law_flush_sends_everything(
    rt: RuntimeView,
    flushed: Seq<char>,
    process_id: Seq<char>,
)
    requires
        batches_sorted(rt),
    ensures
        batches_sorted(rt.with_output_sent(flushed)),
        whole_output(rt.with_output_sent(flushed), process_id) == whole_output(rt, process_id),
        rt.with_output_sent(flushed).waiting_output(flushed).len() == 0,
{
    let after = rt.with_output_sent(flushed);
    let batch = rt.waiting_output(flushed);
    if batch.len() > 0 {
        assert forall|i: int| 0 <= i < batch.len() implies (#[trigger] batch[i]).process_id
            == flushed by {
            assert(rt.log_batches[flushed][i].process_id == flushed);
        }
        lemma_batch_sent(rt.effects, batch, flushed, process_id);
        assert forall|id: Seq<char>, i: int|
            #![trigger after.log_batches[id][i]]
            after.log_batches.contains_key(id) && 0 <= i < after.log_batches[id].len() implies
            after.log_batches[id][i].process_id == id by {
            assert(rt.log_batches[id][i].process_id == id);
        }
        if process_id == flushed {
            assert(whole_output(after, process_id) =~= sent_output(rt.effects, process_id)
                + batch);
        }
    }
}

proof fn lemma_flush_several(rt: RuntimeView, ids: Seq<Seq<char>>, process_id: Seq<char>)
    requires
        batches_sorted(rt),
    ensures
        batches_sorted(rt.with_outputs_sent(ids)),
        whole_output(rt.with_outputs_sent(ids), process_id) == whole_output(rt, process_id),
        ids.contains(process_id) || rt.waiting_output(process_id).len() == 0
            ==> rt.with_outputs_sent(ids).waiting_output(process_id).len() == 0,
    decreases ids.len(),
{
    if ids.len() > 0 {
        let front = ids.drop_last();
        lemma_flush_several(rt, front, process_id);
        let before = rt.with_outputs_sent(front);
        law_flush_sends_everything(before, ids.last(), process_id);
        if ids.contains(process_id) && ids.last() != process_id {
            let k = choose|k: int| 0 <= k < ids.len() && ids[k] == process_id;
            assert(front[k] == process_id);
        }
    }
}

/// Sending what waits of all processes loses nothing, reorders nothing and leaves nothing
/// waiting.
pub proof fn law_flushing_all_sends_everything(
    rt: RuntimeView,
    ids: Seq<Seq<char>>,
    process_id: Seq<char>,
)
    requires
        batches_sorted(rt),
        lists_keys(ids, rt.log_batches),
    ensures
        batches_sorted(rt.with_outputs_sent(ids)),
        whole_output(rt.with_outputs_sent(ids), process_id) == whole_output(rt, process_id),
        rt.with_outputs_sent(ids).waiting_output(process_id).len() == 0,
{
    lemma_flush_several(rt, ids, process_id);
}

/// A log history holds no more entries than asked for, only wanted ones, and all of the wanted
/// ones where they are not too many.
pub proof fn law_history_holds_the_newest_wanted(
    logs: Seq<LogEntryView>,
    filters: LogHistoryFiltersView,
    limit: usize,
)
    requires
        filters.limit == Some(limit),
    ensures
        log_history(logs, filters).len() <= limit,
        forall|entry: LogEntryView| #[trigger]
            log_history(logs, filters).contains(entry) ==> logs.contains(entry) && entry_wanted(
                filters,
                entry,
            ),
        forall|entry: LogEntryView|
            logs.contains(entry) && #[trigger] entry_wanted(filters, entry) ==> log_history(
                logs,
                filters,
            ).contains(entry) || log_history(logs, filters).len() == limit,
{
    let kept = |entry: LogEntryView| entry_wanted(filters, entry);
    let all = kept_where(logs, kept);
    let history = log_history(logs, filters);
    assert forall|entry: LogEntryView| #[trigger] history.contains(entry) implies logs.contains(
        entry,
    ) && entry_wanted(filters, entry) by {
        let i = choose|i: int| 0 <= i < history.len() && history[i] == entry;
        if all.len() > limit {
            assert(all[i + all.len() - limit] == entry);
        } else {
            assert(all[i] == entry);
        }
        lemma_kept_contains(logs, kept, entry);
    }
    assert forall|entry: LogEntryView|
        logs.contains(entry) && #[trigger] entry_wanted(filters, entry) implies history.contains(
        entry,
    ) || history.len() == limit by {
        lemma_kept_contains(logs, kept, entry);
    }
}

/// No more errors of the frontend are kept than wished, once there were no more.
pub proof fn law_frontend_errors_bounded(
    records: Seq<FrontendErrorRecordView>,
    record: FrontendErrorRecordView,
    retention: nat,
)
    requires
        0 < retention,
        records.len() <= retention,
    ensures
        with_record(records, record, retention).len() <= retention,
        with_record(records, record, retention).last() == record,
{
}

} // verus!
