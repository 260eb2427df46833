use karvon::launchd::{
    check_service, health_is_checked, is_safe_launchd_token, kickstart_steps, launchctl_command,
    launchctl_shell, launchd_query, launchd_target, launchd_tokens_safe, parse_launchctl_pid,
    remote_request, LaunchdAction, LaunchdState,
};
use karvon::models::{CommandOutput, LaunchdSupervision, ProcessRuntimeState, ProcessStatus};

fn launchd(label: &str, domain: Option<&str>) -> LaunchdSupervision {
    LaunchdSupervision { label: label.to_string(), domain: domain.map(|d| d.to_string()) }
}

#[test]
fn launchd_target_defaults_domain() {
    assert_eq!(
        launchd_target(&launchd("uz.blaze.mediaguard-agent", None)),
        "gui/501/uz.blaze.mediaguard-agent"
    );
    assert_eq!(launchd_target(&launchd("foo.bar", Some("gui/502"))), "gui/502/foo.bar");
}

#[test]
fn launchd_tokens_safe_rejects_injection() {
    assert!(launchd_tokens_safe(&launchd("uz.blaze.mediaguard-telegram-collector", None)));
    assert!(!launchd_tokens_safe(&launchd("foo; rm -rf /", None)));
    assert!(!launchd_tokens_safe(&launchd("foo$(whoami)", None)));
    assert!(!launchd_tokens_safe(&launchd("ok.label", Some("gui/501; echo"))));
}

#[test]
fn parse_launchctl_pid_extracts_pid() {
    let out = "{\n\t\"LimitLoadToSessionType\" = \"Aqua\";\n\t\"LastExitStatus\" = 15;\n\t\"PID\" = 34468;\n\t\"Label\" = \"uz.blaze.mediaguard-agent\";\n};";
    assert_eq!(parse_launchctl_pid(out), Some(34468));
}

#[test]
fn parse_launchctl_pid_absent_when_not_running() {
    let out = "{\n\t\"LastExitStatus\" = 0;\n\t\"Label\" = \"foo\";\n};";
    assert_eq!(parse_launchctl_pid(out), None);
}

#[test]
fn the_first_pid_line_decides() {
    assert_eq!(parse_launchctl_pid("\"PID\" = x;\n\"PID\" = 5;"), None);
    assert_eq!(parse_launchctl_pid("\"PID\"\n\"PID\" = 5;"), None);
    assert_eq!(parse_launchctl_pid("  \"PID\"=7 ;;\r\n"), Some(7));
    assert_eq!(parse_launchctl_pid("\"PID\" = 1 = 2;"), Some(1));
    assert_eq!(parse_launchctl_pid(""), None);
}

#[test]
fn blank_domains_are_the_default() {
    assert_eq!(launchd_target(&launchd("x", Some("  "))), "gui/501/x");
    assert_eq!(launchd_target(&launchd("x", Some(" gui/7 "))), "gui/7/x");
}

#[test]
fn safe_tokens_are_not_empty() {
    assert!(!is_safe_launchd_token(""));
    assert!(is_safe_launchd_token("a.B-9_/"));
    assert!(!is_safe_launchd_token("ä"));
    let error = check_service(&launchd("a b", None)).unwrap_err();
    assert_eq!((error.code.as_str(), error.recoverable), ("INVALID_LAUNCHD", false));
    assert_eq!(error.message, "Unsafe launchd label or domain");
    assert!(check_service(&launchd("a", None)).is_ok());
}

#[test]
fn requests_name_the_service() {
    let sup = launchd("a.b", None);
    let list = launchctl_command(LaunchdAction::List, &sup);
    assert_eq!((list.program.as_str(), list.args), ("launchctl", vec!["list".to_string(), "a.b".to_string()]));
    assert_eq!(launchctl_shell(LaunchdAction::Enable, &sup), "launchctl enable gui/501/a.b");
    assert_eq!(launchctl_shell(LaunchdAction::Kickstart, &sup), "launchctl kickstart gui/501/a.b");
    assert_eq!(launchctl_shell(LaunchdAction::Restart, &sup), "launchctl kickstart -k gui/501/a.b");
    assert_eq!(
        launchctl_shell(LaunchdAction::Terminate, &sup),
        "launchctl kill SIGTERM gui/501/a.b"
    );
}

fn printed(success: bool, stdout: &str) -> Result<CommandOutput, String> {
    Ok(CommandOutput { success, stdout: stdout.to_string(), stderr: String::new() })
}

#[test]
fn answers_are_read() {
    assert_eq!(launchd_query(&printed(true, "\"PID\" = 9;")), LaunchdState::Running(9));
    assert_eq!(launchd_query(&printed(true, "{}")), LaunchdState::Stopped);
    assert_eq!(launchd_query(&printed(false, "\"PID\" = 9;")), LaunchdState::NotLoaded);
    assert_eq!(
        launchd_query(&Err("ssh".to_string())),
        LaunchdState::Unknown("ssh".to_string())
    );
}

#[test]
fn unsafe_services_are_not_asked_for_through_a_shell() {
    assert_eq!(
        remote_request(LaunchdAction::List, &launchd("a.b", None)),
        Ok("launchctl list a.b".to_string())
    );
    let refused = Err("Unsafe launchd label or domain".to_string());
    assert_eq!(remote_request(LaunchdAction::List, &launchd("a; rm", None)), refused);
    assert_eq!(remote_request(LaunchdAction::Kickstart, &launchd("a", Some("gui/1;x"))), refused);
}

#[test]
fn starts_allow_the_service_first() {
    let start = kickstart_steps(false);
    assert_eq!(start.first, Some(LaunchdAction::Enable));
    assert_eq!((start.action, start.pause_ms), (LaunchdAction::Kickstart, 600));
    let restart = kickstart_steps(true);
    assert_eq!(restart.first, None);
    assert_eq!((restart.action, restart.pause_ms), (LaunchdAction::Restart, 800));
    let mut runtime = ProcessRuntimeState::stopped("p".to_string());
    assert!(!health_is_checked(&runtime));
    runtime.current_status = ProcessStatus::Running;
    assert!(health_is_checked(&runtime));
}
