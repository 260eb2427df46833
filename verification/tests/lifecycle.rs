#![allow(dead_code)]
use karvon::clock::Timestamp;
use karvon::models::{
    Config, HealthCheck, Machine, ProcessDefinition, ProcessRuntimeState, ProcessStatus, Project,
    RestartPolicy, RestartPolicyKind, RuntimeProcessRecord, Settings,
};
use karvon::runtime::{Effect, Runtime, Stamp};
use karvon::text_map::TextMap;
use karvon::models::HealthStatus;
use karvon::platform::GroupError;
use karvon::runtime::RuntimeEvent;
use karvon::start::{
    configured_directory, direct_process_command, falls_back_to_shell, resolve_working_directory,
    resolve_working_directory_with_locality, Admission, LaunchPlan,
};
use karvon::stop::{poll_stop, Exit, StopAnswer, StopPlan, StopPoll, StopRequest};
use karvon::tracking::{normalized_process_group_id, stop_request_key};

fn at(seconds: i64) -> Timestamp {
    Timestamp::new(1_700_000_000 + seconds, 0).unwrap()
}

fn stamp(id: &str) -> Stamp {
    Stamp { id: id.to_string(), at: at(0) }
}

fn policy(kind: RestartPolicyKind, max_retries: Option<u32>) -> RestartPolicy {
    RestartPolicy { kind, max_retries, retry_delay_ms: None }
}

fn process(id: &str, key: &str, depends_on: &[&str]) -> ProcessDefinition {
    ProcessDefinition {
        id: id.to_string(),
        project_id: "proj".to_string(),
        key: key.to_string(),
        name: format!("Process {id}"),
        command: "npm run dev".to_string(),
        args: vec!["--port=3000".to_string()],
        env: TextMap::new(),
        working_directory: None,
        depends_on: depends_on.iter().map(|key| key.to_string()).collect(),
        restart_policy: policy(RestartPolicyKind::Never, None),
        health_check: HealthCheck::Disabled,
        memory_limit_mb: None,
        startup_delay_ms: None,
        auto_start: false,
        visible: true,
        machine_id: None,
        launchd: None,
    }
}

fn project(id: &str) -> Project {
    Project {
        id: id.to_string(),
        name: "Shop".to_string(),
        root_path: "/srv/shop".to_string(),
        auto_start: false,
        startup_order: 0,
        memory_limit_mb: None,
    }
}

fn config(processes: Vec<ProcessDefinition>) -> Config {
    Config {
        projects: vec![project("proj")],
        processes,
        machines: vec![
            Machine {
                id: "local".to_string(),
                hostname: "localhost".to_string(),
                ssh_user: "me".to_string(),
                ssh_port: 22,
                is_default_local: true,
            },
            Machine {
                id: "far".to_string(),
                hostname: "far.example".to_string(),
                ssh_user: "dev".to_string(),
                ssh_port: 2222,
                is_default_local: false,
            },
        ],
        settings: Settings {
            stop_timeout_ms: 5000,
            log_retention_lines: 100,
            notifications_enabled: true,
            auto_start_marked_projects: false,
        },
    }
}

fn state(id: &str, status: ProcessStatus) -> ProcessRuntimeState {
    let mut runtime = ProcessRuntimeState::stopped(id.to_string());
    runtime.current_status = status;
    runtime
}

fn record(id: &str, pid: u32, group: u32) -> RuntimeProcessRecord {
    RuntimeProcessRecord {
        process_id: id.to_string(),
        project_id: "proj".to_string(),
        pid,
        process_group_id: group,
        started_at: at(-100),
        command: "npm run dev".to_string(),
    }
}

fn messages(rt: &Runtime) -> Vec<String> {
    rt.logs.iter().map(|entry| entry.message.clone()).collect()
}

/// What is to be done, in short.
fn effects(rt: &mut Runtime) -> Vec<String> {
    rt.take_effects()
        .into_iter()
        .map(|effect| match effect {
            Effect::Emit { event, runtime } => {
                format!("{} {} {:?}", event.name(), runtime.process_id, runtime.current_status)
            }
            Effect::Notify { title, body } => format!("notify {title}|{body}"),
            Effect::Log { entry } => format!("log {:?} {}", entry.level, entry.message),
            Effect::LogBatch { entries } => format!("batch {}", entries.len()),
            Effect::StoreRecords { records } => format!("store {}", records.len()),
            Effect::WatchMemory { process_id, pid, .. } => format!("watch {process_id} {pid}"),
            Effect::ForceKill { process_group_id } => format!("kill {process_group_id}"),
            Effect::KillRemote { machine, pid } => format!("kill {} {pid}", machine.id),
            Effect::RestartLater { process_id, delay_ms } => {
                format!("restart {process_id} {delay_ms}")
            }
        })
        .collect()
}

fn plan(rt: &mut Runtime, config: &Config, id: &str) -> LaunchPlan {
    let Admission::Admitted { launch } = rt.admit_start(config, id, stamp("admit")) else {
        panic!("not admitted");
    };
    rt.prepare_start(config, &launch, true, at(0), stamp("prepare")).ok().expect("plan")
}

fn run(rt: &mut Runtime, config: &Config, id: &str, pid: u32) {
    let plan = plan(rt, config, id);
    rt.launched(config, &plan, Some(pid), false, stamp("l"), stamp("r"), stamp("s"));
    rt.take_effects();
}

fn stopping(rt: &mut Runtime, config: &Config, id: &str) -> StopPlan {
    match rt.request_stop(config, id, at(5), stamp("stop")) {
        StopRequest::Signal { plan } => plan,
        _ => panic!("nothing to stop"),
    }
}

fn ended(success: bool, code: i32) -> Exit {
    Exit::Ended { success, code: Some(code), status: format!("exit status: {code}") }
}

#[test]
fn starting_a_process_goes_through_starting_to_running() {
    let config = config(vec![process("p", "web", &[])]);
    let mut rt = Runtime::new();
    let plan = plan(&mut rt, &config, "p");
    assert_eq!(plan.cwd, "/srv/shop");
    assert_eq!(plan.label, "npm run dev --port=3000");
    let command = direct_process_command(&plan.tokens);
    assert_eq!(command.program, "npm");
    assert_eq!(command.args, ["run", "dev", "--port=3000"]);
    assert_eq!(effects(&mut rt), ["process_started p Starting", "log Info Starting process"]);
    let runtime = rt.get_runtime_state("p");
    assert_eq!(runtime.current_status, ProcessStatus::Starting);
    assert_eq!(runtime.health_status, Some(HealthStatus::Starting));
    assert_eq!(runtime.port_bindings.len(), 1);

    let runtime =
        rt.launched(&config, &plan, Some(42), false, stamp("l"), stamp("r"), stamp("s"));
    assert_eq!(runtime, rt.get_runtime_state("p"));
    assert_eq!((runtime.pid, runtime.current_status), (Some(42), ProcessStatus::Running));
    assert_eq!(runtime.started_at, Some(at(0)));
    assert_eq!(
        effects(&mut rt),
        [
            "store 1",
            "process_started p Running",
            "log Info Process running with pid 42",
            "watch p 42",
        ]
    );
    assert_eq!(rt.pids.get("p"), Some(&42));
    assert_eq!(rt.process_records.get("p").unwrap().command, "npm run dev --port=3000");
}

#[test]
fn a_shell_and_the_settings_are_noted() {
    let mut web = process("p", "web", &[]);
    web.memory_limit_mb = Some(512);
    let mut config = config(vec![web]);
    config.settings.auto_start_marked_projects = true;
    let mut rt = Runtime::new();
    let plan = plan(&mut rt, &config, "p");
    rt.take_effects();
    assert!(falls_back_to_shell(&plan, true) && !falls_back_to_shell(&plan, false));
    rt.launched(&config, &plan, None, true, stamp("l"), stamp("r"), stamp("s"));
    assert_eq!(
        effects(&mut rt),
        [
            "log Debug Resolved command through login shell",
            "process_started p Running",
            "log Info Process running (RAM limit 512 MB)",
            "log Debug Autostart setting is enabled",
        ]
    );
    assert!(rt.pids.get("p").is_none());
}

#[test]
fn remote_processes_connect_through_ssh() {
    let mut web = process("p", "web", &[]);
    web.machine_id = Some("far".to_string());
    web.memory_limit_mb = Some(512);
    let config = config(vec![web]);
    let mut rt = Runtime::new();
    let plan = plan(&mut rt, &config, "p");
    rt.take_effects();
    assert!(!falls_back_to_shell(&plan, true));
    rt.launched(&config, &plan, Some(7), false, stamp("l"), stamp("r"), stamp("s"));
    assert_eq!(
        effects(&mut rt),
        [
            "log Info Connecting to dev@far.example:2222 via SSH",
            "store 1",
            "process_started p Running",
            "log Info Process running with pid 7 (remote)",
        ]
    );
    let error = rt.launch_failed(&config, &plan, "refused", &None, at(1), stamp("f"), stamp("g"));
    assert_eq!(error.message, "Unable to execute remote process command");
    assert_eq!(
        error.details.as_deref(),
        Some("npm run dev --port=3000 (ssh far.example): refused")
    );
}

#[test]
fn unknown_and_active_processes_are_refused() {
    let mut orphan = process("o", "o", &[]);
    orphan.project_id = "none".to_string();
    let config = config(vec![process("p", "web", &[]), orphan]);
    let mut rt = Runtime::new();
    for (id, code) in [("x", "PROCESS_NOT_FOUND"), ("o", "PROJECT_NOT_FOUND")] {
        match rt.admit_start(&config, id, stamp("a")) {
            Admission::Refused { error } => assert_eq!(error.code, code),
            _ => panic!("not refused"),
        }
    }
    for status in [
        ProcessStatus::Running,
        ProcessStatus::Starting,
        ProcessStatus::Queued,
        ProcessStatus::Stopping,
    ] {
        rt.states.insert("p".to_string(), state("p", status));
        match rt.admit_start(&config, "p", stamp("a")) {
            Admission::Refused { error } => assert_eq!(error.code, "PROCESS_ALREADY_RUNNING"),
            _ => panic!("not refused"),
        }
    }
    rt.states.insert("p".to_string(), state("p", ProcessStatus::Crashed));
    assert!(matches!(
        rt.admit_start(&config, "p", stamp("a")),
        Admission::Admitted { .. }
    ));
    assert!(effects(&mut rt).is_empty());
}

#[test]
fn dependencies_have_to_run_first() {
    let config = config(vec![process("d", "db", &[]), process("p", "web", &["db"])]);
    let mut rt = Runtime::new();
    rt.mark_stop_requested("p", 5);
    match rt.admit_start(&config, "p", stamp("a")) {
        Admission::Waiting { runtime } => {
            assert_eq!(runtime.current_status, ProcessStatus::WaitingDependency);
            assert_eq!(runtime.last_error.as_deref(), Some("Dependency is not running: db"));
        }
        _ => panic!("does not wait"),
    }
    assert!(!rt.stop_was_requested("p", 5));
    assert_eq!(
        effects(&mut rt),
        [
            "process_failed p WaitingDependency",
            "notify Process p failed|Shop: Dependency is not running: db",
            "log Warn Blocked by dependency db",
        ]
    );
    run(&mut rt, &config, "d", 9);
    assert_eq!(rt.missing_dependency(&config, &config.processes[1]), None);
    assert!(matches!(
        rt.admit_start(&config, "p", stamp("a")),
        Admission::Admitted { .. }
    ));
}

#[test]
fn directories_have_to_exist_on_this_machine() {
    let shop = project("proj");
    let mut web = process("p", "web", &[]);
    assert_eq!(configured_directory(&shop, &web), "/srv/shop");
    web.working_directory = Some("  ".to_string());
    assert_eq!(configured_directory(&shop, &web), "/srv/shop");
    web.working_directory = Some("/srv/web".to_string());
    assert_eq!(resolve_working_directory(&shop, &web, true), Ok("/srv/web".to_string()));
    let error = resolve_working_directory(&shop, &web, false).unwrap_err();
    assert_eq!((error.code.as_str(), error.recoverable), ("INVALID_PROJECT_PATH", false));
    assert_eq!(error.details.as_deref(), Some("/srv/web"));
    assert_eq!(
        resolve_working_directory_with_locality(&shop, &web, true, false),
        Ok("/srv/web".to_string())
    );
    let config = config(vec![web]);
    let mut rt = Runtime::new();
    let Admission::Admitted { launch } = rt.admit_start(&config, "p", stamp("a")) else {
        panic!("not admitted");
    };
    assert!(rt.prepare_start(&config, &launch, false, at(0), stamp("b")).is_err());
    assert!(effects(&mut rt).is_empty());
}

#[test]
fn broken_commands_leave_the_process_starting() {
    let mut web = process("p", "web", &[]);
    web.command = "npm 'run".to_string();
    let config = config(vec![web]);
    let mut rt = Runtime::new();
    let Admission::Admitted { launch } = rt.admit_start(&config, "p", stamp("a")) else {
        panic!("not admitted");
    };
    let error = rt.prepare_start(&config, &launch, true, at(0), stamp("b")).err().unwrap();
    assert_eq!(error.code, "INVALID_PROCESS_DEFINITION");
    assert_eq!(rt.get_runtime_state("p").current_status, ProcessStatus::Starting);
}

#[test]
fn failed_launches_are_told_and_retried() {
    let mut web = process("p", "web", &[]);
    web.restart_policy = policy(RestartPolicyKind::OnFailure, None);
    let config = config(vec![web]);
    let mut rt = Runtime::new();
    let plan = plan(&mut rt, &config, "p");
    rt.take_effects();
    let error = rt.launch_failed(
        &config,
        &plan,
        "not found",
        &Some("no zsh".to_string()),
        at(1),
        stamp("f"),
        stamp("g"),
    );
    let details = "npm run dev --port=3000: no zsh. Direct launch also failed: not found";
    assert_eq!((error.code.as_str(), error.recoverable), ("COMMAND_EXECUTION_FAILED", true));
    assert_eq!(error.message, "Unable to execute process command");
    assert_eq!(error.details.as_deref(), Some(details));
    assert_eq!(
        effects(&mut rt),
        [
            format!("log Error {details}"),
            "process_failed p Failed".to_string(),
            format!("notify Process p failed|Shop: {details}"),
            "log Info Auto-restart scheduled in 3000ms (attempt 1)".to_string(),
            "restart p 3000".to_string(),
        ]
    );
    let error = rt.launch_failed(&config, &plan, "denied", &None, at(1), stamp("f"), stamp("g"));
    assert_eq!(error.details.as_deref(), Some("npm run dev --port=3000: denied"));
}

#[test]
fn stopping_signals_the_group_that_was_launched() {
    let config = config(vec![process("p", "web", &[])]);
    let mut rt = Runtime::new();
    run(&mut rt, &config, "p", 42);
    let plan = stopping(&mut rt, &config, "p");
    assert_eq!((plan.process_group_id, plan.stop_timeout_ms), (42, 5000));
    assert!(rt.stop_was_requested("p", 42));
    assert_eq!(
        effects(&mut rt),
        ["process_stopped p Stopping", "log Info Sending SIGTERM to process group 42"]
    );
    assert!(matches!(
        rt.stop_signalled(&config, &plan, &Ok(()), at(6)),
        StopAnswer::Stopping { .. }
    ));
    assert!(effects(&mut rt).is_empty());
    rt.force_kill(&config, &plan, stamp("k"));
    assert_eq!(effects(&mut rt), ["log Warn Force killing process group 42", "kill 42"]);
    rt.stop_finished(&config, &plan, None, at(9));
    assert_eq!(effects(&mut rt), ["store 0", "process_stopped p Stopped"]);
    assert!(!rt.stop_was_requested("p", 42));
    let runtime = rt.get_runtime_state("p");
    assert_eq!((runtime.pid, runtime.stopped_at), (None, Some(at(9))));
    assert_eq!(rt.current_tracked_process_group("p"), None);
}

#[test]
fn groups_that_survive_run_on() {
    let config = config(vec![process("p", "web", &[])]);
    let mut rt = Runtime::new();
    run(&mut rt, &config, "p", 42);
    let plan = stopping(&mut rt, &config, "p");
    rt.take_effects();
    rt.stop_finished(&config, &plan, Some(43), at(9));
    let runtime = rt.get_runtime_state("p");
    assert_eq!((runtime.pid, runtime.current_status), (Some(43), ProcessStatus::Running));
    assert_eq!(runtime.last_error.as_deref(), Some("Process group survived forced stop"));
    let kept = rt.process_records.get("p").unwrap();
    assert_eq!((kept.pid, kept.process_group_id), (43, 42));
    assert!(!rt.stop_was_requested("p", 42));
}

#[test]
fn groups_that_are_gone_have_stopped() {
    let config = config(vec![process("p", "web", &[])]);
    let mut rt = Runtime::new();
    run(&mut rt, &config, "p", 42);
    let plan = stopping(&mut rt, &config, "p");
    rt.take_effects();
    match rt.stop_signalled(&config, &plan, &Err(GroupError::NotFound), at(6)) {
        StopAnswer::Gone { runtime } => {
            assert_eq!(runtime, rt.get_runtime_state("p"));
            assert_eq!(runtime.current_status, ProcessStatus::Stopped);
        }
        _ => panic!("not gone"),
    }
    assert_eq!(effects(&mut rt), ["store 0", "process_stopped p Stopped"]);
    assert!(!rt.stop_was_requested("p", 42));
}

#[test]
fn groups_that_cannot_be_signalled_are_an_error() {
    let config = config(vec![process("p", "web", &[])]);
    let mut rt = Runtime::new();
    run(&mut rt, &config, "p", 42);
    let plan = stopping(&mut rt, &config, "p");
    let refused = Err(GroupError::Other("EPERM".to_string()));
    match rt.stop_signalled(&config, &plan, &refused, at(6)) {
        StopAnswer::Refused { error } => {
            assert_eq!(error.code, "COMMAND_EXECUTION_FAILED");
            assert_eq!(error.message, "Unable to terminate process group");
            assert_eq!(error.details.as_deref(), Some("EPERM"));
        }
        _ => panic!("not refused"),
    }
    assert!(rt.stop_was_requested("p", 42));
}

#[test]
fn stopping_what_does_not_run() {
    let config = config(vec![process("p", "web", &[])]);
    let mut rt = Runtime::new();
    match rt.request_stop(&config, "x", at(1), stamp("s")) {
        StopRequest::Refused { error } => assert_eq!(error.code, "PROCESS_NOT_FOUND"),
        _ => panic!("not refused"),
    }
    match rt.request_stop(&config, "p", at(1), stamp("s")) {
        StopRequest::Stopped { runtime } => {
            assert_eq!(runtime.stopped_at, Some(at(1)));
            assert_eq!(runtime, rt.get_runtime_state("p"));
        }
        _ => panic!("not stopped"),
    }
    let mut running = state("p", ProcessStatus::Running);
    running.pid = Some(77);
    rt.states.insert("p".to_string(), running);
    assert_eq!(stopping(&mut rt, &config, "p").process_group_id, 77);
}

#[test]
fn remote_processes_are_killed_on_their_machine_too() {
    let mut web = process("p", "web", &[]);
    web.machine_id = Some("far".to_string());
    let config = config(vec![web]);
    let mut rt = Runtime::new();
    run(&mut rt, &config, "p", 7);
    let plan = stopping(&mut rt, &config, "p");
    assert_eq!(messages(&rt).last().unwrap(), "Sending SIGTERM to ssh client (pid 7)");
    assert_eq!(plan.remote_pid, None);
    rt.record_remote_pid("p", 900);
    let plan = stopping(&mut rt, &config, "p");
    assert_eq!(
        messages(&rt).last().unwrap(),
        "Sending SIGTERM to ssh client (pid 7); remote pid 900"
    );
    rt.take_effects();
    rt.remote_killed(&config, &plan, &Some("timeout".to_string()), stamp("k"));
    assert_eq!(effects(&mut rt), ["log Warn Remote SIGKILL failed for pid 900: timeout"]);
    assert!(rt.remote_pids.get("p").is_none());
    rt.remote_killed(&config, &plan, &None, stamp("k"));
    assert_eq!(effects(&mut rt), ["log Debug Sent SIGKILL to remote pid 900"]);
    rt.record_remote_pid("p", 901);
    rt.cleanup_remote_process_after_exit(&plan.machine, "p");
    assert_eq!(effects(&mut rt), ["kill far 901"]);
    rt.cleanup_remote_process_after_exit(&plan.machine, "p");
    assert!(effects(&mut rt).is_empty());
}

#[test]
fn polls_decide() {
    assert_eq!(poll_stop(false, false), StopPoll::Gone);
    assert_eq!(poll_stop(false, true), StopPoll::Gone);
    assert_eq!(poll_stop(true, false), StopPoll::Wait);
    assert_eq!(poll_stop(true, true), StopPoll::ForceKill);
}

fn exit(rt: &mut Runtime, config: &Config, group: Option<u32>, exit: Exit, live: Option<u32>) {
    let process = config.find_process("p").unwrap();
    rt.process_exited(config, process, group, false, &exit, live, at(50), stamp("e"), stamp("r"));
}

#[test]
fn crashes_are_told_and_retried() {
    let mut web = process("p", "web", &[]);
    web.restart_policy = policy(RestartPolicyKind::LimitedRetries, Some(1));
    let config = config(vec![web]);
    let mut rt = Runtime::new();
    run(&mut rt, &config, "p", 42);
    exit(&mut rt, &config, Some(42), ended(false, 3), None);
    assert_eq!(
        effects(&mut rt),
        [
            "store 0",
            "log Error Process crashed: exit status: 3",
            "process_failed p Crashed",
            "notify Process p failed|Shop: Exited with status exit status: 3",
            "log Info Auto-restart scheduled in 3000ms (attempt 1)",
            "restart p 3000",
        ]
    );
    let runtime = rt.get_runtime_state("p");
    assert_eq!((runtime.exit_code, runtime.pid), (Some(3), None));
    assert!(rt.auto_restart_due(&config, "p"));
    assert_eq!(rt.get_runtime_state("p").restart_count, 1);
    run(&mut rt, &config, "p", 43);
    exit(&mut rt, &config, Some(43), Exit::Unknown { error: "lost".to_string() }, None);
    assert_eq!(
        messages(&rt)[messages(&rt).len() - 2..],
        ["Process wait failed: lost", "Auto-restart limit reached (1); not retrying"]
    );
    assert_eq!(rt.get_runtime_state("p").last_error.as_deref(), Some("lost"));
}

#[test]
fn stable_runs_start_the_count_over() {
    let mut web = process("p", "web", &[]);
    web.restart_policy = policy(RestartPolicyKind::LimitedRetries, Some(3));
    let config = config(vec![web]);
    for (uptime, count, message) in [
        (191, 3, "Auto-restart limit reached (3); not retrying"),
        (192, 0, "Auto-restart scheduled in 3000ms (attempt 1)"),
    ] {
        let mut rt = Runtime::new();
        let mut crashed = state("p", ProcessStatus::Crashed);
        crashed.restart_count = 3;
        crashed.started_at = Some(at(-uptime));
        rt.states.insert("p".to_string(), crashed);
        rt.schedule_auto_restart_if_eligible(&config, &config.processes[0], at(0), stamp("s"));
        assert_eq!(messages(&rt), [message]);
        assert_eq!(rt.get_runtime_state("p").restart_count, count);
    }
}

#[test]
fn recovered_processes_are_not_restarted() {
    let config = config(vec![process("p", "web", &[])]);
    let mut rt = Runtime::new();
    rt.states.insert("p".to_string(), state("p", ProcessStatus::Running));
    assert!(!rt.auto_restart_due(&config, "p"));
    assert!(!rt.auto_restart_due(&config, "x"));
    rt.states.insert("p".to_string(), state("p", ProcessStatus::Failed));
    assert!(rt.auto_restart_due(&config, "p"));
    assert_eq!(effects(&mut rt)[0], "process_failed p Failed");
}

#[test]
fn requested_stops_are_no_crashes() {
    let mut web = process("p", "web", &[]);
    web.restart_policy = policy(RestartPolicyKind::Always, None);
    let config = config(vec![web]);
    let mut rt = Runtime::new();
    run(&mut rt, &config, "p", 42);
    stopping(&mut rt, &config, "p");
    rt.take_effects();
    exit(&mut rt, &config, Some(42), ended(false, 143), None);
    assert_eq!(
        effects(&mut rt),
        ["store 0", "log Info Process stopped", "process_stopped p Stopped"]
    );
    let runtime = rt.get_runtime_state("p");
    assert_eq!((runtime.exit_code, runtime.last_error), (None, None));
    assert!(!rt.stop_was_requested("p", 42));
    // The end comes a second time, after the process was untracked.
    exit(&mut rt, &config, Some(42), ended(false, 143), None);
    assert!(effects(&mut rt).is_empty());
}

#[test]
fn good_ends_and_earlier_failures() {
    let mut web = process("p", "web", &[]);
    web.restart_policy = policy(RestartPolicyKind::Always, None);
    let config = config(vec![web]);
    let mut rt = Runtime::new();
    run(&mut rt, &config, "p", 42);
    exit(&mut rt, &config, Some(42), ended(true, 0), None);
    assert_eq!(rt.get_runtime_state("p").current_status, ProcessStatus::Stopped);
    run(&mut rt, &config, "p", 43);
    let web = config.find_process("p").unwrap();
    rt.fail_process_for_memory_limit(&config, web, 43, 2 << 30, 1 << 30, stamp("m"));
    let reason = "Process memory limit exceeded: 2.00 GB used over 1.00 GB limit";
    assert_eq!(
        effects(&mut rt),
        [
            format!("log Error {reason}"),
            "process_failed p Failed".to_string(),
            format!("notify Process p failed|Shop: {reason}"),
            "kill 43".to_string(),
        ]
    );
    exit(&mut rt, &config, Some(43), ended(false, 9), None);
    let runtime = rt.get_runtime_state("p");
    assert_eq!(runtime.current_status, ProcessStatus::Failed);
    assert_eq!(runtime.last_error.as_deref(), Some(reason));
    assert_eq!(messages(&rt).last().unwrap(), "Process stopped after failure");
}

#[test]
fn ends_of_old_groups_are_ignored() {
    let config = config(vec![process("p", "web", &[])]);
    let mut rt = Runtime::new();
    run(&mut rt, &config, "p", 42);
    rt.mark_stop_requested("p", 41);
    exit(&mut rt, &config, Some(41), ended(false, 1), None);
    assert!(effects(&mut rt).is_empty());
    assert!(!rt.stop_was_requested("p", 41));
    assert_eq!(rt.get_runtime_state("p").current_status, ProcessStatus::Running);
}

#[test]
fn children_take_the_place_of_a_parent_that_ended() {
    let config = config(vec![process("p", "web", &[])]);
    let mut rt = Runtime::new();
    run(&mut rt, &config, "p", 42);
    exit(&mut rt, &config, Some(42), ended(true, 0), Some(44));
    assert_eq!(
        effects(&mut rt),
        [
            "store 1",
            "log Warn Parent exited; recovered running process group 42",
            "process_started p Running",
        ]
    );
    let runtime = rt.get_runtime_state("p");
    assert_eq!((runtime.pid, runtime.exit_code, runtime.stopped_at), (Some(44), None, None));
    assert_eq!(
        runtime.last_error.as_deref(),
        Some("Parent process exited but child process group is still running")
    );
    // Nobody takes the place of a connection.
    let process = config.find_process("p").unwrap();
    rt.process_exited(
        &config,
        process,
        Some(42),
        true,
        &ended(true, 0),
        Some(45),
        at(60),
        stamp("e"),
        stamp("r"),
    );
    assert_eq!(rt.get_runtime_state("p").current_status, ProcessStatus::Stopped);
}

#[test]
fn ends_without_a_group_are_judged_by_the_status() {
    let config = config(vec![process("p", "web", &[])]);
    let mut rt = Runtime::new();
    exit(&mut rt, &config, None, ended(false, 1), Some(3));
    assert_eq!(rt.get_runtime_state("p").current_status, ProcessStatus::Crashed);
    assert_eq!(
        effects(&mut rt)[..2],
        ["log Error Process crashed: exit status: 1", "process_failed p Crashed"]
    );
}

#[test]
fn tracking_keeps_groups_and_records_together() {
    let mut rt = Runtime::new();
    rt.track_runtime_process(record("p", 5, 5));
    assert_eq!((rt.pids.get("p"), rt.current_tracked_process_group("p")), (Some(&5), Some(5)));
    assert!(!rt.update_tracked_process_pid("p", 9, 6));
    assert!(rt.update_tracked_process_pid("p", 9, 5));
    assert_eq!(rt.process_records.get("p").unwrap().pid, 9);
    assert!(!rt.update_tracked_process_pid("x", 9, 5));
    assert!(!rt.untrack_runtime_process_if_group("p", 6));
    assert!(rt.untrack_runtime_process_if_group("p", 5));
    assert!(rt.pids.get("p").is_none() && rt.process_records.get("p").is_none());
    assert!(!rt.untrack_runtime_process_if_group("p", 5));
    rt.track_runtime_process(record("p", 5, 5));
    rt.untrack_runtime_process("p");
    assert!(rt.pids.get("p").is_none() && rt.process_records.get("p").is_none());
    assert_eq!(normalized_process_group_id(&record("p", 5, 0)), 5);
    assert_eq!(normalized_process_group_id(&record("p", 5, 6)), 6);
}

#[test]
fn stop_requests_are_kept_apart() {
    assert_eq!(stop_request_key("p", 12), "p:12");
    let mut rt = Runtime::new();
    rt.mark_stop_requested("p", 1);
    rt.mark_stop_requested("p", 12);
    rt.mark_stop_requested("pp", 1);
    rt.mark_stop_requested("p:q", 1);
    rt.clear_stop_requested("p", 1);
    assert!(!rt.stop_was_requested("p", 1) && rt.stop_was_requested("p", 12));
    rt.clear_stop_requests_for_process("p");
    assert!(!rt.stop_was_requested("p", 12) && rt.stop_was_requested("pp", 1));
    assert!(!rt.stop_was_requested("p:q", 1));
}

#[test]
fn notifications_depend_on_event_and_settings() {
    let mut config = config(vec![process("p", "web", &[])]);
    let mut rt = Runtime::new();
    let mut runtime = state("p", ProcessStatus::Running);
    runtime.health_status = Some(HealthStatus::Degraded);
    rt.set_runtime(&config, &runtime, RuntimeEvent::HealthChanged);
    assert_eq!(
        effects(&mut rt),
        [
            "process_health_changed p Running",
            "notify Process p health degraded|Shop: status changed",
        ]
    );
    runtime.health_status = Some(HealthStatus::Healthy);
    rt.set_runtime(&config, &runtime, RuntimeEvent::HealthChanged);
    rt.set_runtime(&config, &runtime, RuntimeEvent::MetricsChanged);
    config.settings.notifications_enabled = false;
    rt.set_runtime(&config, &runtime, RuntimeEvent::Failed);
    assert_eq!(
        effects(&mut rt),
        [
            "process_health_changed p Running",
            "process_metrics_changed p Running",
            "process_failed p Running",
        ]
    );
    config.settings.notifications_enabled = true;
    config.projects.clear();
    rt.set_runtime(&config, &runtime, RuntimeEvent::Failed);
    assert_eq!(effects(&mut rt)[1], "notify Process p failed|Project: status changed");
    assert_eq!(rt.get_runtime_state("p"), runtime);
}
