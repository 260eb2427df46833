use karvon::command::{
    command_name_matches, command_tokens_match, display_command, normalize_command_dashes,
    process_command_tokens, shell_quote, split_command_words,
};
use karvon::models::{HealthCheck, ProcessDefinition, RestartPolicy, RestartPolicyKind};
use karvon::platform::Platform;
use karvon::text_map::TextMap;

fn tokens(values: &[&str]) -> Vec<String> {
    values.iter().map(|value| value.to_string()).collect()
}

fn process(command: &str, args: &[&str]) -> ProcessDefinition {
    ProcessDefinition {
        id: "p".to_string(),
        project_id: "proj".to_string(),
        key: "web".to_string(),
        name: "Web".to_string(),
        command: command.to_string(),
        args: tokens(args),
        env: TextMap::new(),
        working_directory: None,
        depends_on: vec![],
        restart_policy: RestartPolicy {
            kind: RestartPolicyKind::Never,
            max_retries: None,
            retry_delay_ms: None,
        },
        health_check: HealthCheck::Disabled,
        memory_limit_mb: None,
        startup_delay_ms: None,
        auto_start: false,
        visible: true,
        machine_id: None,
        launchd: None,
    }
}

#[test]
fn command_match_accepts_exact_command() {
    assert!(command_tokens_match(Platform::Unix, &tokens(&["npm", "run", "dev"]), "npm run dev"));
}

#[test]
fn command_match_accepts_configured_prefix_with_executable_path() {
    assert!(command_tokens_match(
        Platform::Unix,
        &tokens(&["npm", "run", "dev"]),
        "/opt/homebrew/bin/npm run dev -- --host 127.0.0.1"
    ));
}

#[test]
fn command_match_rejects_different_command() {
    assert!(!command_tokens_match(Platform::Unix, &tokens(&["npm", "run", "dev"]), "npm run preview"));
}

#[test]
fn command_match_normalizes_dash_variants() {
    assert!(command_tokens_match(Platform::Unix, &tokens(&["vite", "--host"]), "vite —host 127.0.0.1"));
}

#[test]
fn command_match_rejects_shorter_empty_and_broken_commands() {
    assert!(!command_tokens_match(Platform::Unix, &tokens(&["npm", "run"]), "npm"));
    assert!(!command_tokens_match(Platform::Unix, &tokens(&[]), "npm"));
    assert!(!command_tokens_match(Platform::Unix, &tokens(&["npm"]), "npm 'run"));
    assert!(!command_tokens_match(Platform::Unix, &tokens(&["npm", "run"]), "npm /bin/run"));
}

#[test]
fn program_names_match_by_file_name() {
    assert!(command_name_matches(Platform::Unix, "node", "/usr/bin/node"));
    assert!(command_name_matches(Platform::Unix, "/usr/bin/node", "/usr/bin/node"));
    assert!(!command_name_matches(Platform::Unix, "/usr/bin/node", "node"));
    assert!(!command_name_matches(Platform::Unix, "node", "/usr/bin/nodejs"));
    assert!(!command_name_matches(Platform::Unix, "..", "/usr/.."));
}

#[test]
fn windows_program_names_know_backslashes_and_drives() {
    let matches = |name, path| command_name_matches(Platform::Windows, name, path);
    assert!(matches("node.exe", "C:node.exe"));
    assert!(matches("node.exe", "C:\\bin\\node.exe"));
    assert!(matches("node.exe", "C:/bin\\node.exe"));
    assert!(!matches("share", "\\\\server\\share"));
    assert!(!command_name_matches(Platform::Unix, "node.exe", "C:node.exe"));
    assert!(command_tokens_match(Platform::Windows, &tokens(&["node.exe", "x"]), "C:node.exe x y"));
}

#[test]
fn words_are_split_at_blanks_outside_quotes() {
    assert_eq!(split_command_words("  npm   run dev "), Ok(tokens(&["npm", "run", "dev"])));
    assert_eq!(
        split_command_words("sh -c 'echo \"hi there\"'"),
        Ok(tokens(&["sh", "-c", "echo \"hi there\""]))
    );
    assert_eq!(split_command_words("a\\ b c\"d e\"f"), Ok(tokens(&["a b", "cd ef"])));
    assert_eq!(split_command_words("'a\\'b' x"), Ok(tokens(&["a'b", "x"])));
    assert_eq!(split_command_words("tail\\"), Ok(tokens(&["tail\\"])));
    assert_eq!(split_command_words("'' x"), Ok(tokens(&["x"])));
    assert_eq!(split_command_words(" \t\n "), Ok(vec![]));
    assert_eq!(split_command_words("—x –y −z"), Ok(tokens(&["--x", "-y", "-z"])));
}

#[test]
fn open_quotes_are_an_error() {
    assert_eq!(
        split_command_words("echo 'hi"),
        Err("Unclosed ' quote in command".to_string())
    );
    assert_eq!(
        split_command_words("echo \"hi\\\""),
        Err("Unclosed \" quote in command".to_string())
    );
    // A backslash at the end of an open quote does not close it.
    assert_eq!(
        split_command_words("echo 'hi\\"),
        Err("Unclosed ' quote in command".to_string())
    );
}

#[test]
fn dashes_become_hyphens_once() {
    let once = normalize_command_dashes("a—b–c−d-e");
    assert_eq!(once, "a--b-c-d-e");
    assert_eq!(normalize_command_dashes(&once), once);
}

#[test]
fn quoting_is_only_added_where_needed() {
    assert_eq!(shell_quote(""), "''");
    assert_eq!(shell_quote("a-b_c.d/e:f@g%h=i+j"), "a-b_c.d/e:f@g%h=i+j");
    assert_eq!(shell_quote("a b"), "'a b'");
    assert_eq!(shell_quote("it's"), "'it'\\''s'");
    assert_eq!(shell_quote("ä"), "'ä'");
    assert_eq!(display_command(&tokens(&["npm", "run", "my dev"])), "npm run 'my dev'");
    assert_eq!(display_command(&vec![]), "");
}

#[test]
fn displayed_words_come_back() {
    let words = tokens(&["node", "it's", "a b", "\"q\"", "x=1", "$HOME;rm"]);
    assert_eq!(split_command_words(&display_command(&words)), Ok(words));
    // A backslash does not survive.
    let escaped = tokens(&["a\\b c"]);
    assert_ne!(split_command_words(&display_command(&escaped)), Ok(escaped));
}

#[test]
fn process_tokens_join_command_and_arguments() {
    assert_eq!(
        process_command_tokens(&process("npm run", &[" dev ", "", "—host", "a b"])),
        Ok(tokens(&["npm", "run", "dev", "--host", "a b"]))
    );
}

#[test]
fn process_tokens_report_bad_commands() {
    let error = process_command_tokens(&process("npm 'run", &[])).unwrap_err();
    assert_eq!(error.code, "INVALID_PROCESS_DEFINITION");
    assert_eq!(error.message, "Command could not be parsed");
    assert_eq!(error.details.as_deref(), Some("Unclosed ' quote in command"));
    assert!(!error.recoverable);
    let error = process_command_tokens(&process("  ", &[" "])).unwrap_err();
    assert_eq!(error.code, "INVALID_PROCESS_DEFINITION");
    assert_eq!(error.message, "Command is required");
    assert_eq!(error.details, None);
}
