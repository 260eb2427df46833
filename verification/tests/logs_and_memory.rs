#![allow(dead_code)]
use karvon::clock::Timestamp;
use karvon::models::{
    Config, HealthCheck, Machine, ProcessDefinition, ProcessRuntimeState, ProcessStatus, Project,
    RestartPolicy, RestartPolicyKind, RuntimeProcessRecord, Settings,
};
use karvon::runtime::{Effect, Runtime, Stamp};
use karvon::text_map::TextMap;
use karvon::logs::StreamEnd;
use karvon::memory::{metrics_delta_significant, WatchStep};
use karvon::models::{
    FrontendErrorRecord, HealthStatus, LogHistoryFilters, LogLevel, StreamType,
};

fn at(seconds: i64) -> Timestamp {
    Timestamp::new(1_700_000_000 + seconds, 0).unwrap()
}

fn stamp(id: &str) -> Stamp {
    Stamp { id: id.to_string(), at: at(0) }
}

fn policy(kind: RestartPolicyKind, max_retries: Option<u32>) -> RestartPolicy {
    RestartPolicy { kind, max_retries, retry_delay_ms: None }
}

fn process(id: &str, key: &str, depends_on: &[&str]) -> ProcessDefinition {
    ProcessDefinition {
        id: id.to_string(),
        project_id: "proj".to_string(),
        key: key.to_string(),
        name: format!("Process {id}"),
        command: "npm run dev".to_string(),
        args: vec!["--port=3000".to_string()],
        env: TextMap::new(),
        working_directory: None,
        depends_on: depends_on.iter().map(|key| key.to_string()).collect(),
        restart_policy: policy(RestartPolicyKind::Never, None),
        health_check: HealthCheck::Disabled,
        memory_limit_mb: None,
        startup_delay_ms: None,
        auto_start: false,
        visible: true,
        machine_id: None,
        launchd: None,
    }
}

fn project(id: &str) -> Project {
    Project {
        id: id.to_string(),
        name: "Shop".to_string(),
        root_path: "/srv/shop".to_string(),
        auto_start: false,
        startup_order: 0,
        memory_limit_mb: None,
    }
}

fn config(processes: Vec<ProcessDefinition>) -> Config {
    Config {
        projects: vec![project("proj")],
        processes,
        machines: vec![
            Machine {
                id: "local".to_string(),
                hostname: "localhost".to_string(),
                ssh_user: "me".to_string(),
                ssh_port: 22,
                is_default_local: true,
            },
            Machine {
                id: "far".to_string(),
                hostname: "far.example".to_string(),
                ssh_user: "dev".to_string(),
                ssh_port: 2222,
                is_default_local: false,
            },
        ],
        settings: Settings {
            stop_timeout_ms: 5000,
            log_retention_lines: 100,
            notifications_enabled: true,
            auto_start_marked_projects: false,
        },
    }
}

fn state(id: &str, status: ProcessStatus) -> ProcessRuntimeState {
    let mut runtime = ProcessRuntimeState::stopped(id.to_string());
    runtime.current_status = status;
    runtime
}

fn record(id: &str, pid: u32, group: u32) -> RuntimeProcessRecord {
    RuntimeProcessRecord {
        process_id: id.to_string(),
        project_id: "proj".to_string(),
        pid,
        process_group_id: group,
        started_at: at(-100),
        command: "npm run dev".to_string(),
    }
}

fn messages(rt: &Runtime) -> Vec<String> {
    rt.logs.iter().map(|entry| entry.message.clone()).collect()
}

/// What is to be done, in short.
fn effects(rt: &mut Runtime) -> Vec<String> {
    rt.take_effects()
        .into_iter()
        .map(|effect| match effect {
            Effect::Emit { event, runtime } => {
                format!("{} {} {:?}", event.name(), runtime.process_id, runtime.current_status)
            }
            Effect::Notify { title, body } => format!("notify {title}|{body}"),
            Effect::Log { entry } => format!("log {:?} {}", entry.level, entry.message),
            Effect::LogBatch { entries } => format!("batch {}", entries.len()),
            Effect::StoreRecords { records } => format!("store {}", records.len()),
            Effect::WatchMemory { process_id, pid, .. } => format!("watch {process_id} {pid}"),
            Effect::ForceKill { process_group_id } => format!("kill {process_group_id}"),
            Effect::KillRemote { machine, pid } => format!("kill {} {pid}", machine.id),
            Effect::RestartLater { process_id, delay_ms } => {
                format!("restart {process_id} {delay_ms}")
            }
        })
        .collect()
}

fn filters(project_id: Option<&str>, process_id: Option<&str>, limit: Option<usize>) -> LogHistoryFilters {
    LogHistoryFilters {
        project_id: project_id.map(|id| id.to_string()),
        process_id: process_id.map(|id| id.to_string()),
        limit,
        since: None,
    }
}

fn print(rt: &mut Runtime, config: &Config, id: &str, line: &str) {
    let process = config.find_process(id).unwrap();
    rt.append_log(
        config,
        process,
        StreamType::Stdout,
        LogLevel::Info,
        line.to_string(),
        stamp(line),
    );
}

#[test]
fn only_the_newest_entries_are_kept() {
    let mut config = config(vec![process("p", "web", &[])]);
    config.settings.log_retention_lines = 3;
    let mut rt = Runtime::new();
    for line in ["a", "b", "c", "d", "e"] {
        print(&mut rt, &config, "p", line);
    }
    assert_eq!(messages(&rt), ["c", "d", "e"]);
    config.settings.log_retention_lines = 0;
    print(&mut rt, &config, "p", "f");
    assert!(rt.logs.is_empty());
}

#[test]
fn entries_say_where_they_come_from() {
    let config = config(vec![process("p", "web", &[])]);
    let mut rt = Runtime::new();
    print(&mut rt, &config, "p", "hello");
    let entry = &rt.logs[0];
    assert_eq!((entry.id.as_str(), entry.process_id.as_str()), ("hello", "p"));
    assert_eq!((entry.project_id.as_str(), entry.timestamp), ("proj", at(0)));
    assert_eq!((entry.stream, entry.level), (StreamType::Stdout, LogLevel::Info));
    assert_eq!((entry.message.as_str(), entry.raw.as_deref()), ("hello", Some("hello")));
}

#[test]
fn output_is_sent_in_batches() {
    let config = config(vec![process("p", "web", &[]), process("q", "db", &[])]);
    let mut rt = Runtime::new();
    for i in 0..31 {
        print(&mut rt, &config, "p", &i.to_string());
    }
    print(&mut rt, &config, "q", "other");
    assert!(effects(&mut rt).is_empty());
    print(&mut rt, &config, "p", "31");
    print(&mut rt, &config, "p", "32");
    let sent = rt.take_effects();
    assert_eq!(sent.len(), 1);
    match &sent[0] {
        Effect::LogBatch { entries } => {
            let lines: Vec<_> = entries.iter().map(|entry| entry.message.clone()).collect();
            assert_eq!(lines, (0..32).map(|i| i.to_string()).collect::<Vec<_>>());
        }
        _ => panic!("no batch"),
    }
    rt.flush_process_log_batch("nobody");
    rt.flush_process_log_batch("p");
    rt.flush_process_log_batch("p");
    assert_eq!(effects(&mut rt), ["batch 1"]);
    print(&mut rt, &config, "p", "33");
    rt.flush_log_batches();
    rt.flush_log_batches();
    assert_eq!(effects(&mut rt), ["batch 1", "batch 1"]);
}

#[test]
fn streams_are_read_line_by_line() {
    let config = config(vec![process("p", "web", &[])]);
    let web = &config.processes[0];
    let mut rt = Runtime::new();
    let line = |text: &str| text.to_string();
    rt.line_read(&config, web, StreamType::Stderr, true, line("PID 9"), Some(9), stamp("a"));
    assert_eq!(effects(&mut rt), ["log Debug Remote pid 9 captured"]);
    assert_eq!(rt.remote_pids.get("p"), Some(&9));
    rt.line_read(&config, web, StreamType::Stdout, true, line("x\r\r"), Some(8), stamp("b"));
    rt.line_read(&config, web, StreamType::Stderr, false, line("y\r"), Some(7), stamp("c"));
    assert_eq!(rt.remote_pids.get("p"), Some(&9));
    assert_eq!(messages(&rt), ["Remote pid 9 captured", "x", "y\r"]);
    assert_eq!((rt.logs[1].level, rt.logs[2].level), (LogLevel::Info, LogLevel::Warn));
    rt.stream_ended(&config, web, StreamType::Stderr, &StreamEnd::Closed, stamp("d"));
    assert_eq!(effects(&mut rt), ["log Debug Stderr stream closed", "batch 2"]);
    let broken = StreamEnd::Failed { error: "pipe".to_string() };
    rt.stream_ended(&config, web, StreamType::Stdout, &broken, stamp("e"));
    assert_eq!(effects(&mut rt), ["log Warn Stdout reader error: pipe"]);
}

#[test]
fn history_is_filtered_and_limited() {
    let mut other = process("q", "db", &[]);
    other.project_id = "proj2".to_string();
    let config = config(vec![process("p", "web", &[]), other]);
    let mut rt = Runtime::new();
    for (id, line) in [("p", "1"), ("q", "2"), ("p", "3"), ("q", "4"), ("p", "5")] {
        print(&mut rt, &config, id, line);
    }
    let read = |rt: &Runtime, filters| {
        rt.get_log_history(Some(filters))
            .into_iter()
            .map(|entry| entry.message)
            .collect::<Vec<_>>()
    };
    assert_eq!(read(&rt, filters(None, None, None)), ["1", "2", "3", "4", "5"]);
    assert_eq!(read(&rt, filters(None, None, Some(2))), ["4", "5"]);
    assert_eq!(read(&rt, filters(Some("proj"), None, Some(2))), ["3", "5"]);
    assert_eq!(read(&rt, filters(None, Some("q"), None)), ["2", "4"]);
    assert_eq!(read(&rt, filters(Some("proj"), Some("q"), None)), Vec::<String>::new());
    assert_eq!(read(&rt, filters(None, None, Some(0))), Vec::<String>::new());
    let mut late = filters(None, None, None);
    late.since = Some(at(0));
    assert_eq!(read(&rt, late).len(), 5);
    let mut later = filters(None, None, None);
    later.since = Some(at(1));
    assert!(read(&rt, later).is_empty());
    // Without filters only the last minutes count, and the entries are old.
    assert!(rt.get_log_history(None).is_empty());
    let mut exported = filters(Some("proj2"), None, Some(1));
    exported.since = Some(at(1));
    assert_eq!(rt.export_logs(&exported).len(), 2);
    rt.clear_log_history(&Some("proj".to_string()));
    assert_eq!(messages(&rt), ["2", "4"]);
    rt.clear_log_history(&None);
    assert!(rt.logs.is_empty());
}

#[test]
fn recent_entries_are_found_without_filters() {
    let config = config(vec![process("p", "web", &[])]);
    let mut rt = Runtime::new();
    let now = Stamp { id: "now".to_string(), at: karvon::clock::utc_now() };
    let web = &config.processes[0];
    rt.append_log(&config, web, StreamType::System, LogLevel::Info, "new".to_string(), now);
    print(&mut rt, &config, "p", "old");
    let recent = rt.get_log_history(None);
    assert_eq!(recent.len(), 1);
    assert_eq!(recent[0].message, "new");
}

#[test]
fn frontend_errors_are_recorded_and_logged() {
    let config = config(vec![]);
    let mut rt = Runtime::new();
    let error = |message: &str, stack: Option<&str>, component: Option<&str>| FrontendErrorRecord {
        source: "window".to_string(),
        message: message.to_string(),
        stack: stack.map(|text| text.to_string()),
        component_stack: component.map(|text| text.to_string()),
        timestamp: at(7),
    };
    rt.record_frontend_error(&config, &error("a", Some("s"), Some("c")), 2, "1".to_string());
    rt.record_frontend_error(&config, &error("b", Some(""), None), 2, "2".to_string());
    rt.record_frontend_error(&config, &error("c", None, Some("")), 2, "3".to_string());
    let kept: Vec<_> =
        rt.recent_frontend_errors().into_iter().map(|record| record.message).collect();
    assert_eq!(kept, ["b", "c"]);
    assert_eq!(rt.logs[0].raw.as_deref(), Some("a\ns\nComponentStack:\nc"));
    assert_eq!(rt.logs[0].message, "[frontend:window] a");
    assert_eq!(rt.logs[1].raw.as_deref(), Some("b"));
    assert_eq!((rt.logs[0].process_id.as_str(), rt.logs[0].project_id.as_str()), ("_frontend", "_app"));
    assert_eq!((rt.logs[0].timestamp, rt.logs[0].level), (at(7), LogLevel::Error));
    assert_eq!(effects(&mut rt)[0], "log Error [frontend:window] a");
}

#[test]
fn small_changes_are_not_told() {
    let mb = 1_048_576;
    assert!(metrics_delta_significant(None, 0, None, None, false));
    assert!(!metrics_delta_significant(Some(mb), mb, None, None, true));
    assert!(!metrics_delta_significant(Some(0), mb - 1, None, None, false));
    assert!(metrics_delta_significant(Some(0), mb, None, None, false));
    assert!(metrics_delta_significant(Some(mb), 0, None, None, false));
    assert!(!metrics_delta_significant(Some(200 * mb), 202 * mb - 1, None, None, false));
    assert!(metrics_delta_significant(Some(200 * mb), 202 * mb, None, None, false));
    assert!(metrics_delta_significant(Some(mb), mb, None, Some(1), false));
    assert!(metrics_delta_significant(Some(mb), mb, Some(1), None, false));
    assert!(!metrics_delta_significant(Some(mb), mb, Some(1), Some(2), false));
    assert!(metrics_delta_significant(Some(mb), mb, Some(1), Some(2), true));
}

#[test]
fn measurements_update_running_processes_only() {
    let config = config(vec![process("p", "web", &[])]);
    let mut rt = Runtime::new();
    rt.update_process_metrics(&config, "p", 5, None, false);
    rt.states.insert("p".to_string(), state("p", ProcessStatus::Stopped));
    rt.update_process_metrics(&config, "p", 5, None, false);
    assert!(effects(&mut rt).is_empty());
    rt.states.insert("p".to_string(), state("p", ProcessStatus::Running));
    rt.update_process_metrics(&config, "p", 5, Some(1), false);
    assert_eq!(effects(&mut rt), ["process_metrics_changed p Running"]);
    rt.update_process_metrics(&config, "p", 6, None, false);
    assert_eq!(effects(&mut rt), ["process_metrics_changed p Running"]);
    let runtime = rt.get_runtime_state("p");
    assert_eq!((runtime.memory_usage, runtime.cpu_usage), (Some(6), Some(1)));
    rt.update_process_metrics(&config, "p", 7, Some(2), false);
    assert_eq!(rt.get_runtime_state("p").memory_usage, Some(6));
}

#[test]
fn samples_are_kept_for_a_while() {
    let mut rt = Runtime::new();
    for second in [0, 1, 601, 602] {
        rt.append_metric_sample("p", 1, None, at(second));
    }
    let times: Vec<_> =
        rt.metrics_history.get("p").unwrap().iter().map(|sample| sample.timestamp).collect();
    assert_eq!(times, [at(601), at(602)]);
    rt.append_metric_sample("p", 1, None, at(1201));
    assert_eq!(rt.metrics_history.get("p").unwrap().len(), 3);
    for _ in 0..500 {
        rt.append_metric_sample("p", 2, Some(3), at(1202));
    }
    let history = rt.metrics_history.get("p").unwrap();
    assert_eq!(history.len(), 400);
    assert_eq!((history[399].memory_usage, history[399].cpu_usage), (Some(2), Some(3)));
}

fn watched(limit: Option<u64>, project_limit: Option<u64>) -> (Config, Runtime) {
    let mut web = process("p", "web", &[]);
    web.memory_limit_mb = limit;
    let mut config = config(vec![web, process("q", "db", &[])]);
    config.projects[0].memory_limit_mb = project_limit;
    let mut rt = Runtime::new();
    for (id, memory) in [("p", 10_u64), ("q", 20)] {
        let mut runtime = state(id, ProcessStatus::Running);
        runtime.memory_usage = Some(memory << 20);
        rt.states.insert(id.to_string(), runtime);
    }
    rt.track_runtime_process(record("p", 5, 5));
    (config, rt)
}

#[test]
fn the_watch_goes_on_below_the_limits() {
    let (config, mut rt) = watched(Some(100), None);
    let target = rt.watch_target("p").unwrap();
    assert_eq!((target.pid, target.process_group_id), (5, 5));
    assert!(rt.watch_target("q").is_none());
    let step =
        rt.measured(&config, "proj", "p", 5, 100 << 20, None, false, at(0), stamp("m"));
    assert!(matches!(step, WatchStep::Continue));
    assert_eq!(rt.get_runtime_state("p").memory_usage, Some(100 << 20));
    let step = rt.measured(&config, "proj", "x", 5, 1, None, false, at(0), stamp("m"));
    assert!(matches!(step, WatchStep::Done));
}

#[test]
fn a_process_over_its_limit_is_killed() {
    let (config, mut rt) = watched(Some(100), Some(1));
    let step = rt.measured(
        &config,
        "proj",
        "p",
        5,
        (100 << 20) + 1,
        None,
        false,
        at(0),
        stamp("m"),
    );
    assert!(matches!(step, WatchStep::Done));
    let reason = "Process memory limit exceeded: 100.0 MB used over 100.0 MB limit";
    assert_eq!(
        effects(&mut rt),
        [
            "process_metrics_changed p Running".to_string(),
            format!("log Error {reason}"),
            "process_failed p Failed".to_string(),
            format!("notify Process p failed|Shop: {reason}"),
            "kill 5".to_string(),
        ]
    );
}

#[test]
fn a_project_over_its_limit_is_killed_once() {
    let (config, mut rt) = watched(None, Some(25));
    let usage = rt.project_memory_usage(&config, "proj").unwrap();
    assert_eq!(usage, 30 << 20);
    let step = rt.measured(&config, "proj", "p", 5, 10 << 20, None, false, at(0), stamp("m"));
    let WatchStep::ProjectLimit { project, limit } = step else {
        panic!("no limit");
    };
    assert_eq!(limit, 25 << 20);
    assert!(rt.project_measured(&config, &project, limit, limit, vec![stamp("a"), stamp("b")]));
    assert!(effects(&mut rt).is_empty());
    assert!(!rt.project_measured(&config, &project, usage, limit, vec![stamp("a"), stamp("b")]));
    let reason = "Project memory limit exceeded: 30.0 MB used over 25.0 MB limit";
    assert_eq!(
        effects(&mut rt),
        [
            format!("log Error {reason}"),
            "process_failed p Failed".to_string(),
            format!("notify Process p failed|Shop: {reason}"),
            "kill 5".to_string(),
            format!("log Error {reason}"),
            "process_failed q Failed".to_string(),
            format!("notify Process q failed|Shop: {reason}"),
        ]
    );
    assert_eq!(rt.get_runtime_state("q").memory_usage, Some(20 << 20));
    assert!(!rt.project_measured(&config, &project, usage, limit, vec![stamp("a"), stamp("b")]));
    assert!(effects(&mut rt).is_empty());
    assert_eq!(rt.project_memory_usage(&config, "proj"), Some(0));
}

#[test]
fn project_memory_that_does_not_fit_is_none() {
    let (config, mut rt) = watched(None, None);
    let mut runtime = state("p", ProcessStatus::Starting);
    runtime.memory_usage = Some(u64::MAX);
    rt.states.insert("p".to_string(), runtime);
    assert_eq!(rt.project_memory_usage(&config, "proj"), None);
    assert_eq!(rt.project_memory_usage(&config, "other"), Some(0));
}

#[test]
fn processes_that_went_away() {
    let (config, mut rt) = watched(None, None);
    assert!(rt.unmeasured(&config, "proj", "p", 5, Some(6), at(1), stamp("a"), stamp("b")));
    assert_eq!(rt.watch_target("p").unwrap().pid, 6);
    assert_eq!(effects(&mut rt), ["store 1"]);
    assert!(!rt.unmeasured(&config, "proj", "p", 5, None, at(1), stamp("a"), stamp("b")));
    assert_eq!(
        effects(&mut rt),
        [
            "store 0",
            "process_failed p Crashed",
            "notify Process p failed|Shop: Recovered process group exited unexpectedly",
            "log Error Recovered process group 5 crashed",
        ]
    );
    assert!(rt.watch_target("p").is_none());

    let (config, mut rt) = watched(None, None);
    rt.mark_stop_requested("p", 5);
    assert!(!rt.unmeasured(&config, "proj", "p", 5, None, at(1), stamp("a"), stamp("b")));
    assert_eq!(
        effects(&mut rt),
        [
            "store 0",
            "process_stopped p Stopped",
            "log Info Recovered process group 5 exited",
        ]
    );
    assert_eq!(rt.get_runtime_state("p").stopped_at, Some(at(1)));
}

#[test]
fn health_checks_are_taken_in() {
    let config = config(vec![process("p", "web", &[])]);
    let mut rt = Runtime::new();
    let web = &config.processes[0];
    let runtime = rt.run_process_health_check(
        &config,
        web,
        &Ok(HealthStatus::Healthy),
        at(3),
        stamp("h"),
    );
    assert_eq!(runtime.health_status, Some(HealthStatus::Healthy));
    assert_eq!(runtime.last_heartbeat, Some(at(3)));
    assert_eq!(runtime, rt.get_runtime_state("p"));
    rt.take_effects();
    let broken = Err("timeout".to_string());
    rt.run_process_health_check(&config, web, &broken, at(4), stamp("h"));
    assert_eq!(
        effects(&mut rt),
        [
            "log Warn timeout",
            "process_health_changed p Stopped",
            "notify Process p health degraded|Shop: status changed",
        ]
    );
}

#[test]
fn processes_that_went_away_are_started_again() {
    let (mut config, mut rt) = watched(None, None);
    config.processes[0].restart_policy = policy(RestartPolicyKind::Always, None);
    assert!(!rt.unmeasured(&config, "proj", "p", 5, None, at(1), stamp("a"), stamp("b")));
    let done = effects(&mut rt);
    assert_eq!(
        done[done.len() - 2..],
        ["log Info Auto-restart scheduled in 3000ms (attempt 1)", "restart p 3000"]
    );
    assert!(rt.auto_restart_due(&config, "p"));
}
