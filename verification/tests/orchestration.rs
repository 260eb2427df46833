#![allow(dead_code)]
use karvon::clock::Timestamp;
use karvon::models::{
    Config, HealthCheck, Machine, ProcessDefinition, ProcessRuntimeState, ProcessStatus, Project,
    RestartPolicy, RestartPolicyKind, RuntimeProcessRecord, Settings,
};
use karvon::runtime::{Effect, Runtime, Stamp};
use karvon::text_map::TextMap;
use karvon::external::{
    adoptable_processes, external_leaders, external_stop_error, find_external_process_match,
    find_sync_candidates, list_external_project_processes, may_match, port_owner, project_root,
    Directory,
};
use karvon::launchd::{launchd_processes, LaunchdState};
use karvon::models::{
    CommandOutput, HealthStatus, LaunchdSupervision, LogLevel, PortBinding, ProjectStatus,
};
use karvon::order::{order_exists, ordered_processes};
use karvon::platform::{ExternalProcessRow, GroupError, Platform};
use karvon::ports::{detect_port_conflicts, detect_process_ports, parse_http_host_port};
use karvon::recovery::{groups_to_signal, live_pid_for_record, shutdown_groups};
use karvon::requests::{
    health_request, start_auto_start_processes, start_marked_projects_on_launch, start_project,
    stop_project, stop_wait_ms, RestartRequest,
};
use karvon::start::Admission;
use karvon::status::derive_project_status;
use karvon::stop::StopRequest;
use karvon::models::ProcessStatus::{
    Blocked, Crashed, Failed, Idle, Queued, Running, Starting, Stopped, Stopping,
    WaitingDependency,
};
use std::collections::HashMap;

fn at(seconds: i64) -> Timestamp {
    Timestamp::new(1_700_000_000 + seconds, 0).unwrap()
}

fn stamp(id: &str) -> Stamp {
    Stamp { id: id.to_string(), at: at(0) }
}

fn policy(kind: RestartPolicyKind, max_retries: Option<u32>) -> RestartPolicy {
    RestartPolicy { kind, max_retries, retry_delay_ms: None }
}

fn process(id: &str, key: &str, depends_on: &[&str]) -> ProcessDefinition {
    ProcessDefinition {
        id: id.to_string(),
        project_id: "proj".to_string(),
        key: key.to_string(),
        name: format!("Process {id}"),
        command: "npm run dev".to_string(),
        args: vec!["--port=3000".to_string()],
        env: TextMap::new(),
        working_directory: None,
        depends_on: depends_on.iter().map(|key| key.to_string()).collect(),
        restart_policy: policy(RestartPolicyKind::Never, None),
        health_check: HealthCheck::Disabled,
        memory_limit_mb: None,
        startup_delay_ms: None,
        auto_start: false,
        visible: true,
        machine_id: None,
        launchd: None,
    }
}

fn project(id: &str) -> Project {
    Project {
        id: id.to_string(),
        name: "Shop".to_string(),
        root_path: "/srv/shop".to_string(),
        auto_start: false,
        startup_order: 0,
        memory_limit_mb: None,
    }
}

fn config(processes: Vec<ProcessDefinition>) -> Config {
    Config {
        projects: vec![project("proj")],
        processes,
        machines: vec![
            Machine {
                id: "local".to_string(),
                hostname: "localhost".to_string(),
                ssh_user: "me".to_string(),
                ssh_port: 22,
                is_default_local: true,
            },
            Machine {
                id: "far".to_string(),
                hostname: "far.example".to_string(),
                ssh_user: "dev".to_string(),
                ssh_port: 2222,
                is_default_local: false,
            },
        ],
        settings: Settings {
            stop_timeout_ms: 5000,
            log_retention_lines: 100,
            notifications_enabled: true,
            auto_start_marked_projects: false,
        },
    }
}

fn state(id: &str, status: ProcessStatus) -> ProcessRuntimeState {
    let mut runtime = ProcessRuntimeState::stopped(id.to_string());
    runtime.current_status = status;
    runtime
}

fn record(id: &str, pid: u32, group: u32) -> RuntimeProcessRecord {
    RuntimeProcessRecord {
        process_id: id.to_string(),
        project_id: "proj".to_string(),
        pid,
        process_group_id: group,
        started_at: at(-100),
        command: "npm run dev".to_string(),
    }
}

fn messages(rt: &Runtime) -> Vec<String> {
    rt.logs.iter().map(|entry| entry.message.clone()).collect()
}

/// What is to be done, in short.
fn effects(rt: &mut Runtime) -> Vec<String> {
    rt.take_effects()
        .into_iter()
        .map(|effect| match effect {
            Effect::Emit { event, runtime } => {
                format!("{} {} {:?}", event.name(), runtime.process_id, runtime.current_status)
            }
            Effect::Notify { title, body } => format!("notify {title}|{body}"),
            Effect::Log { entry } => format!("log {:?} {}", entry.level, entry.message),
            Effect::LogBatch { entries } => format!("batch {}", entries.len()),
            Effect::StoreRecords { records } => format!("store {}", records.len()),
            Effect::WatchMemory { process_id, pid, .. } => format!("watch {process_id} {pid}"),
            Effect::ForceKill { process_group_id } => format!("kill {process_group_id}"),
            Effect::KillRemote { machine, pid } => format!("kill {} {pid}", machine.id),
            Effect::RestartLater { process_id, delay_ms } => {
                format!("restart {process_id} {delay_ms}")
            }
        })
        .collect()
}

fn ids(list: &[ProcessDefinition]) -> Vec<String> {
    list.iter().map(|process| process.id.clone()).collect()
}

fn supervised(id: &str) -> ProcessDefinition {
    let mut process = process(id, id, &[]);
    process.launchd =
        Some(LaunchdSupervision { label: "com.example.agent".to_string(), domain: None });
    process
}

fn row(pid: u32, group: u32, command: &str) -> ExternalProcessRow {
    ExternalProcessRow {
        pid,
        process_group_id: group,
        stat: "S".to_string(),
        command: command.to_string(),
        user: "dev".to_string(),
        memory_kb: 1,
        cpu_percent: "0.5".to_string(),
        etime: "01:00".to_string(),
        started_at: "then".to_string(),
    }
}

fn known(path: &str) -> Directory {
    Directory::Known { path: path.to_string() }
}

#[test]
fn dependencies_come_first() {
    let config = config(vec![
        process("w", "web", &["api", "db"]),
        process("a", "api", &["db", "missing"]),
        process("d", "db", &[]),
    ]);
    assert!(order_exists(&config, "proj"));
    assert_eq!(ids(&ordered_processes(&config, "proj")), ["d", "a", "w"]);
    assert_eq!(ids(&stop_project(&config, "proj")), ["w", "a", "d"]);
    assert!(ordered_processes(&config, "other").is_empty());
}

#[test]
fn circles_have_no_order() {
    let circle = config(vec![process("a", "a", &["b"]), process("b", "b", &["a"])]);
    assert!(!order_exists(&circle, "proj"));
    let own = config(vec![process("a", "a", &["a"])]);
    assert!(!order_exists(&own, "proj"));
    assert!(order_exists(&own, "other"));
}

#[test]
fn projects_start_what_is_visible_or_automatic() {
    let mut hidden = process("h", "h", &[]);
    hidden.visible = false;
    let mut automatic = process("a", "a", &["h"]);
    automatic.visible = false;
    automatic.auto_start = true;
    let config = config(vec![automatic, hidden, process("v", "v", &[])]);
    assert_eq!(ids(&start_project(&config, "proj")), ["a", "v"]);
    assert_eq!(ids(&start_auto_start_processes(&config, "proj")), ["a"]);
}

#[test]
fn marked_projects_start_in_their_order() {
    let mut config = config(vec![]);
    config.projects = [("c", 2, true), ("a", 1, true), ("x", 0, false), ("b", 1, true), ("n", -1, true)]
        .iter()
        .map(|(id, order, marked)| {
            let mut project = project(id);
            project.startup_order = *order;
            project.auto_start = *marked;
            project
        })
        .collect();
    assert!(start_marked_projects_on_launch(&config).is_empty());
    config.settings.auto_start_marked_projects = true;
    let order: Vec<_> =
        start_marked_projects_on_launch(&config).into_iter().map(|project| project.id).collect();
    assert_eq!(order, ["n", "a", "b", "c"]);
}

#[test]
fn project_status_sums_up() {
    let status = |list: &[ProcessStatus]| {
        let states: Vec<_> = list.iter().map(|status| state("p", *status)).collect();
        let mut turned: Vec<_> = list.iter().map(|status| state("p", *status)).collect();
        turned.reverse();
        assert_eq!(derive_project_status(&states), derive_project_status(&turned));
        derive_project_status(&states)
    };
    assert_eq!(status(&[]), ProjectStatus::Stopped);
    assert_eq!(status(&[Failed, Crashed, Blocked, WaitingDependency]), ProjectStatus::Failed);
    assert_eq!(status(&[Failed, Running]), ProjectStatus::Degraded);
    assert_eq!(status(&[Crashed, Starting]), ProjectStatus::Degraded);
    assert_eq!(status(&[Running, Starting]), ProjectStatus::Starting);
    assert_eq!(status(&[Stopped, Queued]), ProjectStatus::Starting);
    assert_eq!(status(&[Running, Running]), ProjectStatus::Running);
    assert_eq!(status(&[Stopped, Idle]), ProjectStatus::Stopped);
    assert_eq!(status(&[Running, Stopped]), ProjectStatus::Partial);
    assert_eq!(status(&[Stopping]), ProjectStatus::Partial);
}

#[test]
fn ports_are_detected() {
    let mut web = process("p", "web", &[]);
    web.args = ["--port=3000", "--port=x", "--port=70000", "-p", "--port=3001"]
        .iter()
        .map(|arg| arg.to_string())
        .collect();
    web.health_check = HealthCheck::Http { url: "http://localhost:8080/health".to_string() };
    let found: Vec<_> = detect_process_ports(&web)
        .into_iter()
        .map(|binding| (binding.host, binding.port, binding.protocol))
        .collect();
    let binding = |host: &str, port, protocol: &str| (host.to_string(), port, protocol.to_string());
    assert_eq!(
        found,
        [
            binding("127.0.0.1", 3000, "unknown"),
            binding("127.0.0.1", 3001, "unknown"),
            binding("localhost", 8080, "http"),
        ]
    );
    web.args.clear();
    web.health_check = HealthCheck::Tcp { host: "db".to_string(), port: 5432 };
    assert_eq!(detect_process_ports(&web)[0].protocol, "tcp");
    web.health_check = HealthCheck::Http { url: "https://localhost:8080".to_string() };
    assert!(detect_process_ports(&web).is_empty());
}

#[test]
fn http_addresses_are_parsed() {
    let some = |host: &str, port| Some((host.to_string(), port));
    assert_eq!(parse_http_host_port("http://a.b:81/x:9"), some("a.b", 81));
    assert_eq!(parse_http_host_port("http://a.b/x"), some("a.b", 80));
    assert_eq!(parse_http_host_port("http://"), some("", 80));
    assert_eq!(parse_http_host_port("http://a:b:1"), None);
    assert_eq!(parse_http_host_port("http://a:"), None);
    assert_eq!(parse_http_host_port("a:1"), None);
}

#[test]
fn repeated_ports_are_conflicts() {
    let with_ports = |ports: &[u16]| {
        let mut runtime = state("p", ProcessStatus::Running);
        runtime.port_bindings = ports
            .iter()
            .map(|port| PortBinding {
                host: "h".to_string(),
                port: *port,
                protocol: "tcp".to_string(),
            })
            .collect();
        runtime
    };
    let conflicts = detect_port_conflicts(&vec![with_ports(&[1, 2]), with_ports(&[2, 3, 1, 2])]);
    assert_eq!(conflicts.iter().map(|binding| binding.port).collect::<Vec<_>>(), [2, 1, 2]);
    assert!(detect_port_conflicts(&vec![with_ports(&[1]), with_ports(&[2])]).is_empty());
}

#[test]
fn launchd_processes_are_delegated() {
    let config = config(vec![process("p", "web", &[]), supervised("s")]);
    assert_eq!(ids(&launchd_processes(&config)), ["s"]);
    let mut rt = Runtime::new();
    assert!(matches!(rt.admit_start(&config, "s", stamp("a")), Admission::Delegated { .. }));
    assert!(matches!(
        rt.request_stop(&config, "s", at(0), stamp("a")),
        StopRequest::Delegated { .. }
    ));
    assert!(matches!(rt.restart_process(&config, "s"), RestartRequest::Delegated { .. }));
    assert!(effects(&mut rt).is_empty());
}

#[test]
fn launchd_states_are_mirrored() {
    let config = config(vec![supervised("s")]);
    let agent = &config.processes[0];
    let mut rt = Runtime::new();
    let running = LaunchdState::Running(9);
    let runtime = rt.reconcile_launchd_process(&config, agent, &running, at(0), stamp("r"));
    assert_eq!((runtime.pid, runtime.started_at), (Some(9), Some(at(0))));
    assert_eq!(effects(&mut rt), ["process_started s Running"]);
    let again = rt.reconcile_launchd_process(&config, agent, &running, at(5), stamp("r"));
    assert_eq!(again, runtime);
    assert!(effects(&mut rt).is_empty());
    let unknown = LaunchdState::Unknown("ssh".to_string());
    rt.reconcile_launchd_process(&config, agent, &unknown, at(6), stamp("r"));
    assert_eq!(
        effects(&mut rt),
        ["log Debug launchd status lookup failed (keeping last status): ssh"]
    );
    rt.reconcile_launchd_process(&config, agent, &LaunchdState::NotLoaded, at(7), stamp("r"));
    assert_eq!(effects(&mut rt), ["process_stopped s Stopped"]);
    let stopped = rt.get_runtime_state("s");
    assert_eq!((stopped.pid, stopped.health_status), (None, Some(HealthStatus::Unknown)));
    rt.reconcile_launchd_process(&config, agent, &LaunchdState::Stopped, at(8), stamp("r"));
    assert!(effects(&mut rt).is_empty());
}

#[test]
fn launchd_requests_are_noted() {
    let config = config(vec![supervised("s")]);
    let agent = &config.processes[0];
    let sup = agent.launchd.as_ref().unwrap();
    let mut rt = Runtime::new();
    let reply = |success, stderr: &str| {
        Ok(CommandOutput { success, stdout: String::new(), stderr: stderr.to_string() })
    };
    let mut ask = |restart, reply: Result<CommandOutput, String>| {
        let answer =
            rt.kickstarted(&config, agent, sup, restart, &reply, stamp("a"), stamp("b"));
        (answer, effects(&mut rt))
    };
    let (answer, done) = ask(false, reply(true, "ignored"));
    assert!(answer.is_ok());
    assert_eq!(done, ["log Info launchctl kickstart gui/501/com.example.agent"]);
    let (answer, done) = ask(true, reply(false, " denied "));
    assert!(answer.is_ok());
    assert_eq!(
        done,
        [
            "log Warn launchctl kickstart -k gui/501/com.example.agent",
            "log Warn launchctl stderr: denied",
        ]
    );
    let (answer, done) = ask(true, Err("no ssh".to_string()));
    let error = answer.unwrap_err();
    assert_eq!((error.code.as_str(), error.recoverable), ("LAUNCHCTL_FAILED", true));
    assert_eq!(error.message, "launchctl kickstart -k failed");
    assert_eq!(error.details.as_deref(), Some("no ssh"));
    assert!(done.is_empty());
    let (answer, _) = ask(false, Err("no ssh".to_string()));
    assert_eq!(answer.unwrap_err().message, "launchctl kickstart failed");
    rt.terminate_asked(&config, agent, sup, stamp("c"));
    assert_eq!(
        effects(&mut rt),
        ["log Info launchctl kill SIGTERM gui/501/com.example.agent (launchd KeepAlive may relaunch it)"]
    );
}

#[test]
fn records_stand_for_live_processes() {
    let info = |group, stat: &str| Some((group, stat.to_string()));
    let entry = record("p", 5, 4);
    let live = |info: &Option<(u32, String)>| {
        live_pid_for_record(Platform::Unix, &entry, info, Some(6))
    };
    assert_eq!(live(&info(4, "S")), Some(5));
    assert_eq!(live(&info(4, "Z")), Some(6));
    assert_eq!(live(&info(3, "S")), Some(6));
    assert_eq!(live(&None), Some(6));
    assert_eq!(live_pid_for_record(Platform::Windows, &entry, &info(4, "Z"), None), Some(5));
    assert_eq!(live_pid_for_record(Platform::Unix, &entry, &None, None), None);
}

#[test]
fn tracked_processes_are_recovered() {
    let config = config(vec![process("p", "web", &[]), process("q", "db", &[]), supervised("s")]);
    let mut rt = Runtime::new();
    let mut old = record("p", 5, 0);
    old.command = " ".to_string();
    old.project_id = "old".to_string();
    rt.track_runtime_process(old);
    rt.track_runtime_process(record("q", 7, 7));
    rt.track_runtime_process(record("s", 1, 1));
    rt.track_runtime_process(record("gone", 8, 8));
    let list = rt.recovery_candidates(&config);
    assert_eq!(list.len(), 2);
    let live: Vec<_> = list
        .iter()
        .map(|candidate| if candidate.process.id == "p" { Some(6) } else { None })
        .collect();
    rt.recover_tracked_processes(&config, &list, &live, at(9), &vec![stamp("a"), stamp("b")]);
    let done = effects(&mut rt);
    assert_eq!(
        done,
        [
            "process_started p Running",
            "log Info Recovered running process group 5",
            "watch p 6",
            "process_stopped q Stopped",
            "log Info Previous process group 7 is no longer running",
            "store 1",
        ]
    );
    let kept = rt.process_records.get("p").unwrap();
    assert_eq!((kept.pid, kept.process_group_id), (6, 5));
    assert_eq!((kept.command.as_str(), kept.project_id.as_str()), ("npm run dev", "proj"));
    assert_eq!(rt.process_records.len(), 1);
    assert_eq!((rt.pids.get("p"), rt.pids.len()), (Some(&5), 1));
    let runtime = rt.get_runtime_state("p");
    assert_eq!((runtime.pid, runtime.started_at), (Some(6), Some(at(-100))));
    assert_eq!(rt.get_runtime_state("q").stopped_at, Some(at(9)));
    let mut empty = Runtime::new();
    empty.recover_tracked_processes(&config, &vec![], &vec![], at(9), &vec![]);
    assert!(effects(&mut empty).is_empty());
}

#[test]
fn shutdown_leaves_survivors_tracked() {
    let mut rt = Runtime::new();
    rt.track_runtime_process(record("p", 5, 0));
    rt.track_runtime_process(record("q", 7, 7));
    for id in ["p", "q", "other"] {
        let mut runtime = state(id, ProcessStatus::Stopping);
        runtime.memory_usage = Some(1);
        rt.states.insert(id.to_string(), runtime);
    }
    let records = {
        let mut copy = TextMap::new();
        copy.insert("p".to_string(), record("p", 5, 0));
        copy.insert("q".to_string(), record("q", 7, 7));
        copy
    };
    assert_eq!(shutdown_groups(&records), [5, 7]);
    let mut twice = TextMap::new();
    for (id, pid, group) in [("a", 5, 0), ("b", 6, 5), ("c", 7, 7)] {
        twice.insert(id.to_string(), record(id, pid, group));
    }
    assert_eq!(shutdown_groups(&twice), [5, 5, 7]);
    assert_eq!(groups_to_signal(&twice), [5, 7]);
    rt.shutdown_tracked_processes(&records, &vec![Some(6), None], at(3));
    assert_eq!(effects(&mut rt), ["store 1"]);
    let kept = rt.process_records.get("p").unwrap();
    assert_eq!((kept.pid, kept.process_group_id), (6, 5));
    let p = rt.get_runtime_state("p");
    assert_eq!((p.pid, p.current_status, p.memory_usage), (Some(6), ProcessStatus::Running, Some(1)));
    let q = rt.get_runtime_state("q");
    assert_eq!((q.pid, q.current_status, q.stopped_at), (None, ProcessStatus::Stopped, Some(at(3))));
    assert_eq!(q.memory_usage, None);
    assert_eq!(rt.get_runtime_state("other").current_status, ProcessStatus::Stopping);
    let mut empty = Runtime::new();
    empty.shutdown_tracked_processes(&TextMap::new(), &vec![], at(3));
    assert!(effects(&mut empty).is_empty());
}

#[test]
fn rows_match_by_group_command_and_directory() {
    let tokens: Vec<String> = ["npm", "run"].iter().map(|word| word.to_string()).collect();
    let rows = vec![
        row(1, 10, "npm run dev"),
        row(2, 11, "npm test"),
        row(3, 12, "npm run dev"),
        row(4, 13, "npm run dev"),
        row(5, 14, "/bin/npm run x"),
    ];
    let places = vec![
        known("/srv/shop"),
        known("/srv/shop"),
        known("/srv/other"),
        Directory::Unknown,
        known("/srv/shop/a"),
    ];
    let found = |groups: &Vec<u32>| {
        find_external_process_match(Platform::Unix, &rows, &places, groups, "/srv/shop", &tokens)
    };
    assert_eq!(found(&vec![]), Some(0));
    assert_eq!(found(&vec![10]), Some(4));
    assert_eq!(found(&vec![10, 14]), None);
    let untold = vec![
        Directory::Untold,
        Directory::Untold,
        Directory::Untold,
        Directory::Untold,
        Directory::Untold,
    ];
    assert_eq!(
        find_external_process_match(Platform::Unix, &rows, &untold, &vec![10], "/srv/shop", &tokens),
        Some(2)
    );
    assert!(may_match(Platform::Unix, &rows[0], &vec![], &tokens));
    assert!(!may_match(Platform::Unix, &rows[0], &vec![10], &tokens));
    assert!(!may_match(Platform::Unix, &rows[1], &vec![], &tokens));
}

#[test]
fn running_processes_are_adopted_once() {
    let mut remote = process("r", "r", &[]);
    remote.machine_id = Some("far".to_string());
    let mut local = process("q", "q", &[]);
    local.machine_id = Some("local".to_string());
    let mut lost = process("l", "l", &[]);
    lost.project_id = "none".to_string();
    let mut broken = process("b", "b", &[]);
    broken.command = "'".to_string();
    let config = config(vec![
        process("p", "web", &[]),
        remote,
        local,
        lost,
        supervised("s"),
        broken,
        process("m", "m", &[]),
    ]);
    let list = adoptable_processes(&config);
    let names: Vec<_> = list.iter().map(|found| found.process.id.clone()).collect();
    assert_eq!(names, ["p", "q", "b", "m"]);
    assert_eq!(list[0].directory, "/srv/shop");
    let candidates = find_sync_candidates(&list, &vec![true, true, true, false]);
    let names: Vec<_> = candidates.iter().map(|found| found.process.id.clone()).collect();
    assert_eq!(names, ["p", "q"]);

    let mut rt = Runtime::new();
    let rows = vec![row(21, 20, "npm run dev --port=3000 --more")];
    let places = || vec![vec![known("/srv/shop")], vec![known("/srv/shop")]];
    let stamps = vec![stamp("a"), stamp("b")];
    rt.sync_external_processes(Platform::Unix, &config, &candidates, &rows, &places(), at(1), &stamps);
    assert_eq!(
        effects(&mut rt),
        [
            "process_started p Running",
            "log Info Adopted running process group 20",
            "watch p 21",
            "store 1",
        ]
    );
    let kept = rt.process_records.get("p").unwrap();
    assert_eq!((kept.pid, kept.process_group_id, kept.started_at), (21, 20, at(1)));
    assert_eq!(kept.command, "npm run dev --port=3000");
    rt.sync_external_processes(Platform::Unix, &config, &candidates, &rows, &places(), at(2), &stamps);
    assert!(effects(&mut rt).is_empty());
}

#[test]
fn foreign_processes_are_listed_by_group() {
    let config = config(vec![]);
    assert_eq!(project_root(&config, "proj"), Ok("/srv/shop".to_string()));
    assert_eq!(project_root(&config, "x").unwrap_err().code, "PROJECT_NOT_FOUND");
    let rows = vec![
        row(1, 10, "own"),
        row(2, 20, "a"),
        row(3, 20, "b"),
        row(4, 30, "far"),
        row(5, 40, "unknown"),
        row(6, 50, "t"),
    ];
    let mut cwds = HashMap::new();
    for (pid, path) in [(1, "/srv/shop"), (2, "/srv/shop/x"), (3, "/srv/shop"), (4, "/tmp"), (6, "/srv/shop")] {
        cwds.insert(pid, path.to_string());
    }
    let leaders = external_leaders(Platform::Unix, &rows, &vec![50], 1, &cwds, "/srv/shop");
    assert_eq!(leaders.iter().map(|row| row.pid).collect::<Vec<_>>(), [2]);
    let mut ports = HashMap::new();
    ports.insert(2, vec![80, 81]);
    let found = list_external_project_processes(&leaders, &rows, &cwds, &ports);
    assert_eq!(found.len(), 1);
    assert_eq!((found[0].pid, found[0].process_group_id), (2, 20));
    assert_eq!((found[0].cwd.as_str(), &found[0].ports), ("/srv/shop/x", &vec![80, 81]));
    assert_eq!(found[0].children.len(), 1);
    assert_eq!((found[0].children[0].pid, found[0].children[0].command.as_str()), (3, "b"));
    assert_eq!((found[0].user.as_str(), found[0].cpu_percent.as_str()), ("dev", "0.5"));
    let bare = list_external_project_processes(&leaders, &rows, &HashMap::new(), &HashMap::new());
    assert_eq!((bare[0].cwd.as_str(), bare[0].ports.len()), ("", 0));
}

#[test]
fn tracked_groups_are_not_foreign() {
    let mut rt = Runtime::new();
    rt.track_runtime_process(record("p", 5, 0));
    let error = rt.check_external_stop(5).unwrap_err();
    assert_eq!((error.code.as_str(), error.recoverable), ("PROCESS_TRACKED", false));
    assert!(rt.check_external_stop(6).is_ok());
    let error = external_stop_error(&GroupError::NotFound);
    assert_eq!((error.code.as_str(), error.recoverable), ("STOP_FAILED", true));
    assert_eq!(error.details.as_deref(), Some("no such process group"));
    let owner = port_owner(3, 4, "node".to_string(), Some("/x".to_string()));
    assert_eq!((owner.pid, owner.process_group_id, owner.cwd.as_str()), (3, 4, "/x"));
    assert_eq!(owner.cpu_percent, "0.0");
    assert_eq!(port_owner(3, 4, "node".to_string(), None).cwd, "");
}

#[test]
fn restarts_stop_first_what_runs() {
    let config = config(vec![process("p", "web", &[])]);
    let mut rt = Runtime::new();
    assert!(matches!(rt.restart_process(&config, "p"), RestartRequest::Start));
    for (status, stops) in [
        (ProcessStatus::Running, true),
        (ProcessStatus::Starting, true),
        (ProcessStatus::Stopping, true),
        (ProcessStatus::Queued, false),
        (ProcessStatus::Crashed, false),
    ] {
        rt.states.insert("p".to_string(), state("p", status));
        assert_eq!(matches!(rt.restart_process(&config, "p"), RestartRequest::StopFirst), stops);
    }
    rt.count_restart("p");
    rt.count_restart("new");
    assert_eq!(rt.get_runtime_state("p").restart_count, 1);
    assert_eq!(rt.get_runtime_state("new").restart_count, 1);
    assert!(!rt.any_active(&vec!["p".to_string(), "x".to_string()]));
    rt.states.insert("p".to_string(), state("p", ProcessStatus::Queued));
    assert!(rt.any_active(&vec!["x".to_string(), "p".to_string()]));
    assert!(rt.waits_for(&vec!["p".to_string()], false));
    assert!(!rt.waits_for(&vec!["p".to_string()], true));
    assert!(!rt.waits_for(&vec!["x".to_string()], false));
    assert!(rt.is_process_active("p") && !rt.is_process_active("x"));
    assert_eq!(stop_wait_ms(5000), 6000);
    assert_eq!(stop_wait_ms(u64::MAX), u64::MAX);
}

#[test]
fn failed_processes_are_found() {
    let mut other = process("o", "o", &[]);
    other.project_id = "proj2".to_string();
    let config = config(vec![process("p", "p", &[]), process("q", "q", &[]), other]);
    let mut rt = Runtime::new();
    rt.states.insert("p".to_string(), state("p", ProcessStatus::Blocked));
    rt.states.insert("q".to_string(), state("q", ProcessStatus::Running));
    rt.states.insert("o".to_string(), state("o", ProcessStatus::WaitingDependency));
    assert_eq!(ids(&rt.restart_failed_processes(&config, &None)), ["p", "o"]);
    let scope = Some("proj".to_string());
    assert_eq!(ids(&rt.restart_failed_processes(&config, &scope)), ["p"]);
}

#[test]
fn summaries_count() {
    let mut config = config(vec![process("p", "p", &[]), process("q", "q", &[])]);
    config.projects[0].auto_start = true;
    let mut rt = Runtime::new();
    for (id, status, health) in [
        ("p", ProcessStatus::Running, Some(HealthStatus::Healthy)),
        ("q", ProcessStatus::Crashed, Some(HealthStatus::Degraded)),
        ("r", ProcessStatus::Blocked, None),
    ] {
        let mut runtime = state(id, status);
        runtime.health_status = health;
        runtime.port_bindings = vec![PortBinding {
            host: "h".to_string(),
            port: 80,
            protocol: "tcp".to_string(),
        }];
        rt.states.insert(id.to_string(), runtime);
    }
    let web = &config.processes[0];
    for i in 0..14 {
        let level = if i % 2 == 0 { LogLevel::Warn } else { LogLevel::Error };
        rt.note(&config, web, level, i.to_string(), stamp("x"));
        rt.note(&config, web, LogLevel::Info, "fine".to_string(), stamp("y"));
    }
    let summary = rt.dashboard_summary(&config);
    assert_eq!((summary.project_count, summary.process_count), (1, 2));
    assert_eq!((summary.running_process_count, summary.failed_process_count), (1, 2));
    assert_eq!((summary.port_conflict_count, summary.auto_start_project_count), (2, 1));
    let problems: Vec<_> =
        summary.recent_problem_logs.iter().map(|entry| entry.message.clone()).collect();
    assert_eq!(problems, (2..14).rev().map(|i| i.to_string()).collect::<Vec<_>>());
    assert_eq!(rt.detect_ports_in_use().len(), 2);
    let counts = |health: TextMap<usize>| {
        let count = |name| *health.get(name).unwrap();
        assert_eq!(health.len(), 3);
        (count("healthy"), count("unhealthy"), count("unknown"))
    };
    assert_eq!(counts(rt.get_health_summary(&config, &None)), (1, 1, 0));
    rt.states.insert("q".to_string(), state("q", ProcessStatus::Running));
    assert_eq!(counts(rt.get_health_summary(&config, &Some("proj".to_string()))), (1, 0, 1));
    assert_eq!(counts(rt.get_health_summary(&config, &Some("none".to_string()))), (0, 0, 0));
    assert_eq!(rt.get_all_runtime_states().len(), 3);
}

#[test]
fn project_details_show_states_and_logs() {
    let config = config(vec![process("p", "p", &[]), process("q", "q", &[])]);
    let mut rt = Runtime::new();
    rt.states.insert("p".to_string(), state("p", ProcessStatus::Running));
    for i in 0..90 {
        for process in &config.processes {
            rt.note(&config, process, LogLevel::Info, i.to_string(), stamp("x"));
        }
    }
    let detail = rt.get_project_detail(&config, "proj").ok().unwrap();
    assert_eq!(detail.status, ProjectStatus::Partial);
    assert_eq!(detail.runtime_states.len(), 2);
    assert_eq!(detail.runtime_states[1], ProcessRuntimeState::stopped("q".to_string()));
    assert_eq!(detail.recent_logs.len(), 100);
    assert_eq!(detail.recent_logs[0].message, "89");
    assert_eq!(rt.get_project_detail(&config, "x").err().unwrap().code, "PROJECT_NOT_FOUND");
}

#[test]
fn health_checks_know_their_place() {
    let mut far = process("f", "f", &[]);
    far.machine_id = Some("far".to_string());
    far.working_directory = Some(" ".to_string());
    let mut lost = process("l", "l", &[]);
    lost.project_id = "none".to_string();
    let config = config(vec![process("p", "p", &[]), far, lost]);
    let near = health_request(&config, "p").ok().unwrap();
    assert_eq!((near.cwd.as_deref(), near.machine.is_none()), (Some("/srv/shop"), true));
    let far = health_request(&config, "f").ok().unwrap();
    assert_eq!(far.cwd.as_deref(), Some(" "));
    assert_eq!(far.machine.unwrap().hostname, "far.example");
    assert_eq!(health_request(&config, "l").ok().unwrap().cwd, None);
    assert_eq!(health_request(&config, "x").err().unwrap().code, "PROCESS_NOT_FOUND");
}
