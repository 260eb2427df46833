use karvon::models::CommandOutput;
use karvon::platform::unix::{
    force_kill_request, group_list_command, group_request, is_live_stat, list_command, list_live_processes,
    live_process_in_group, metrics_command, parse_process_group_row, probe_result,
    process_info_command, process_info_for_pid, read_process_metrics, shell_command,
    probe_request, signal_result, take_process_token, terminate_request, GroupReply, GroupSignal,
};
use karvon::platform::{lsof, windows, GroupError};
use karvon::signals::{
    force_kill_process_group, is_real_group, process_group_exists, term_process_group,
    waits_after_term,
};
use karvon::platform::windows::TaskkillReply;

fn output(stdout: &str) -> Option<CommandOutput> {
    Some(CommandOutput { success: true, stdout: stdout.to_string(), stderr: String::new() })
}

fn failed(stdout: &str) -> Option<CommandOutput> {
    Some(CommandOutput { success: false, stdout: stdout.to_string(), stderr: String::new() })
}

fn words(list: &[&str]) -> Vec<String> {
    list.iter().map(|word| word.to_string()).collect()
}

#[test]
fn unknown_groups_are_never_signalled() {
    assert!(!is_real_group(0) && !is_real_group(1) && is_real_group(2));
    for group in [0, 1] {
        assert_eq!(term_process_group(group), Err(GroupError::NotFound));
        assert_eq!(force_kill_process_group(group), Err(GroupError::NotFound));
        assert!(!process_group_exists(group));
    }
}

#[test]
fn a_group_that_is_not_there_is_not_found() {
    // Process numbers do not reach this high.
    let group = 2_000_000_000;
    assert_eq!(term_process_group(group), Err(GroupError::NotFound));
    assert_eq!(force_kill_process_group(group), Err(GroupError::NotFound));
    assert!(!process_group_exists(group));
}

#[test]
fn the_own_group_is_there() {
    let group = nix::unistd::getpgrp().as_raw() as u32;
    if group > 1 {
        assert!(process_group_exists(group));
    }
}

#[test]
fn replies_are_read() {
    assert_eq!(signal_result(GroupReply::Delivered), Ok(()));
    assert_eq!(signal_result(GroupReply::NoSuchGroup), Err(GroupError::NotFound));
    let refused = GroupReply::Refused { message: "EPERM".to_string() };
    assert_eq!(signal_result(refused), Err(GroupError::Other("EPERM".to_string())));
    assert!(probe_result(GroupReply::Delivered));
    assert!(!probe_result(GroupReply::NoSuchGroup));
    assert!(probe_result(GroupReply::Refused { message: "EPERM".to_string() }));
    assert_eq!(GroupError::NotFound.text(), "no such process group");
    assert_eq!(GroupError::Other("x".to_string()).text(), "x");
    assert!(waits_after_term(&Ok(())));
    assert!(!waits_after_term(&Err(GroupError::NotFound)));
    assert!(waits_after_term(&Err(GroupError::Other("x".to_string()))));
}

#[test]
fn group_numbers_are_signed() {
    assert_eq!(group_request(5, Some(GroupSignal::Term)).process_group, 5);
    assert_eq!(group_request(u32::MAX, None).process_group, -1);
    assert_eq!(terminate_request(5), group_request(5, Some(GroupSignal::Term)));
    assert_eq!(force_kill_request(5), group_request(5, Some(GroupSignal::Kill)));
    assert_eq!(probe_request(5), group_request(5, None));
    assert_eq!(group_request(0x8000_0000, None).process_group, i32::MIN);
}

#[test]
fn shells_run_quoted_words() {
    let command = shell_command(&words(&["npm", "run", "my dev"]));
    assert_eq!(command.program, "/bin/zsh");
    assert_eq!(command.args, ["-lc", "exec npm run 'my dev'"]);
    let command = windows::shell_command(None, &words(&["npm", "a b"]));
    assert_eq!(command.program, "cmd.exe");
    assert_eq!(command.args, ["/C", "npm \"a b\""]);
    let command = windows::shell_command(Some("C:\\cmd.exe".to_string()), &words(&["x"]));
    assert_eq!(command.program, "C:\\cmd.exe");
}

#[test]
fn ps_rows_are_read() {
    let rows = list_live_processes(&output(
        "  10   10 dev  2048  1.5 01:02 S    Sat May 10 12:34:56 2026 node  server.js --x\n\
         11 10 dev x ? 02:00 Z+ Sat May 10 12:34:56 2026 defunct\n\
         bad 10 dev 1 0.0 1 S Sat May 10 12:34:56 2026 x\n\
         12 12 root 7 n/a 03:00 Ss Sun May 11 00:00:00 2026\n\
         short line\n",
    ));
    assert_eq!(rows.len(), 2);
    assert_eq!((rows[0].pid, rows[0].process_group_id, rows[0].memory_kb), (10, 10, 2048));
    assert_eq!(rows[0].command, "node  server.js --x");
    assert_eq!(rows[0].started_at, "Sat May 10 12:34:56 2026");
    assert_eq!((rows[0].cpu_percent.as_str(), rows[0].etime.as_str()), ("1.5", "01:02"));
    assert_eq!((rows[0].user.as_str(), rows[0].stat.as_str()), ("dev", "S"));
    assert_eq!((rows[1].pid, rows[1].command.as_str()), (12, ""));
    assert_eq!(rows[1].cpu_percent, "0.0");
    assert!(list_live_processes(&failed("1 1 a 1 1 1 S a b c d e f")).is_empty());
    assert!(list_live_processes(&None).is_empty());
}

#[test]
fn commands_that_ask_the_system() {
    assert_eq!(
        list_command().args.join(" "),
        "-ax -o pid= -o pgid= -o user= -o rss= -o pcpu= -o etime= -o stat= -o lstart= -o command="
    );
    assert_eq!(process_info_command(7).args, ["-o", "pgid=", "-o", "stat=", "-p", "7"]);
    assert_eq!(group_list_command().args, ["-ax", "-o", "pid=", "-o", "pgid=", "-o", "stat="]);
    assert_eq!(metrics_command(7).args, ["-o", "rss=,pcpu=", "-p", "7"]);
    assert_eq!(lsof::cwd_command(7).args, ["-a", "-p", "7", "-d", "cwd", "-Fn"]);
    assert_eq!(lsof::all_cwds_command().args, ["-d", "cwd", "-Fpn"]);
    assert_eq!(
        lsof::listener_command(80).args,
        ["-iTCP:80", "-sTCP:LISTEN", "-P", "-n", "-Fpcg"]
    );
    assert_eq!(
        lsof::ports_command(&vec![3, 14]).args,
        ["-iTCP", "-sTCP:LISTEN", "-P", "-n", "-Fpn", "-p", "3,14"]
    );
    assert_eq!(windows::terminate_group(9).args, ["/PID", "9", "/T"]);
    assert_eq!(windows::force_kill_group(9).args, ["/PID", "9", "/T", "/F"]);
    assert_eq!(windows::list_command().args, ["/V", "/FO", "CSV", "/NH"]);
    assert_eq!(windows::process_command(9).args, ["/FI", "PID eq 9", "/NH", "/FO", "CSV"]);
    assert_eq!(windows::netstat_command().args, ["-ano"]);
    assert_eq!(windows::reveal_path("C:/Users/dev").args, ["/select,C:\\Users\\dev"]);
}

#[test]
fn tokens_are_taken_from_the_left() {
    assert_eq!(
        take_process_token("  ab\tcd "),
        Some(("ab".to_string(), "\tcd ".to_string()))
    );
    assert_eq!(take_process_token("x"), Some(("x".to_string(), String::new())));
    assert_eq!(take_process_token("  "), None);
}

#[test]
fn groups_and_states_are_read() {
    assert_eq!(process_info_for_pid(&output("  42 S+ \n")), Some((42, "S+".to_string())));
    assert_eq!(process_info_for_pid(&output("42")), None);
    assert_eq!(process_info_for_pid(&output("x S")), None);
    assert_eq!(process_info_for_pid(&failed("42 S")), None);
    assert_eq!(parse_process_group_row("1 2 S x"), Some((1, 2, "S".to_string())));
    assert_eq!(parse_process_group_row("1 2"), None);
    let list = output(" 5 9 Z\n 6 9 S\n 7 9 S\n 8 1 S\n");
    assert_eq!(live_process_in_group(&list, 9), Some(6));
    assert_eq!(live_process_in_group(&list, 2), None);
    assert_eq!(live_process_in_group(&failed("6 9 S"), 9), None);
    assert!(is_live_stat("Ss") && !is_live_stat("Z+") && windows::is_live_stat("Z"));
}

#[test]
fn metrics_are_read() {
    assert_eq!(
        read_process_metrics(&output(" 2048  1.5\n")),
        Some((2_097_152, Some("1.5".to_string())))
    );
    assert_eq!(read_process_metrics(&output("7")), Some((7168, None)));
    assert_eq!(read_process_metrics(&output("7 n/a")), Some((7168, None)));
    assert_eq!(
        read_process_metrics(&output("18446744073709551615 0")),
        Some((u64::MAX, Some("0".to_string())))
    );
    assert_eq!(read_process_metrics(&output("")), None);
    assert_eq!(read_process_metrics(&output("x 1")), None);
    assert_eq!(read_process_metrics(&failed("1 1")), None);
}

#[test]
fn working_directories_are_read() {
    assert_eq!(lsof::process_cwd(&output("p7\nfcwd\nn/home/dev\nn/x\n")), Some("/home/dev".to_string()));
    assert_eq!(lsof::process_cwd(&output("p7\n")), None);
    assert_eq!(lsof::process_cwd(&failed("n/x")), None);
    let cwds = lsof::all_process_cwds(&failed("n/lost\np7\nfcwd\nn/a\np8\nn/b\nn/c\npx\nn/d\n"));
    assert_eq!(cwds.len(), 2);
    assert_eq!(cwds.get(&7).map(String::as_str), Some("/a"));
    assert_eq!(cwds.get(&8).map(String::as_str), Some("/c"));
    assert!(lsof::all_process_cwds(&None).is_empty());
}

#[test]
fn listeners_are_read() {
    assert_eq!(
        lsof::find_listener_on_port(&output("p7\ng6\ncnode\np8\ng8\ncother\n")),
        Some((7, 6, "node".to_string()))
    );
    assert_eq!(
        lsof::find_listener_on_port(&failed("p7\ncnode\np8\ng 9 \n")),
        Some((8, 9, String::new()))
    );
    assert_eq!(lsof::find_listener_on_port(&output("p7\n")), None);
    assert_eq!(lsof::find_listener_on_port(&output("")), None);
    assert_eq!(lsof::find_listener_on_port(&None), None);
}

#[test]
fn ports_are_sorted_and_listed_once() {
    let ports = lsof::listening_ports_for_pids(&output(
        "n*:1\np7\nn*:8000\nn[::1]:3000\nn127.0.0.1:8000\nnbad\np8\nn*:x\np9\nn*:5\n",
    ));
    assert_eq!(ports.get(&7), Some(&vec![3000, 8000]));
    assert_eq!(ports.get(&8), None);
    assert_eq!(ports.get(&9), Some(&vec![5]));
    assert_eq!(ports.len(), 2);
}

#[test]
fn windows_answers_are_read() {
    let rows = "\"node.exe\",\"9\",\"Console\",\"1\",\"2,048 K\",\"Running\",\"DEV\\me\",\"0\",\"N/A\"\r\nINFO: none\r\n";
    let list = windows::list_live_processes(&output(rows));
    assert_eq!(list.len(), 1);
    assert_eq!((list[0].pid, list[0].process_group_id, list[0].memory_kb), (9, 9, 2048));
    assert_eq!((list[0].command.as_str(), list[0].stat.as_str()), ("node.exe", "Running"));
    assert_eq!((list[0].user.as_str(), list[0].cpu_percent.as_str()), ("DEV\\me", "0.0"));
    assert!(windows::group_exists(&output(rows), 9));
    assert!(!windows::group_exists(&output(rows), 10));
    assert!(!windows::group_exists(&failed(rows), 9));
    assert_eq!(windows::live_process_in_group(&output(rows), 9), Some(9));
    assert_eq!(windows::live_process_in_group(&output(rows), 8), None);
    assert_eq!(
        windows::process_info_for_pid(&output(rows), 9),
        Some((9, "Running".to_string()))
    );
    assert_eq!(windows::process_info_for_pid(&output(rows), 8), None);
    assert_eq!(windows::read_process_metrics(&output(rows), 9), Some(2_097_152));
    assert_eq!(windows::read_process_metrics(&output(rows), 8), None);
    assert_eq!(windows::image_name_for_pid(&output(rows), 9).as_deref(), Some("node.exe"));
    assert_eq!(windows::image_name_for_pid(&None, 9), None);
    assert_eq!(windows::listener_for_pid(9, &output(rows)), (9, 9, "node.exe".to_string()));
    assert_eq!(windows::listener_for_pid(8, &output(rows)), (8, 8, String::new()));
}

#[test]
fn netstat_answers_are_read() {
    let text = "Active Connections\n  TCP 0.0.0.0:80 0.0.0.0:0 LISTENING 4\n  TCP [::]:80 [::]:0 LISTENING 5\n  TCP 0.0.0.0:22 0.0.0.0:0 LISTENING 4\n";
    assert_eq!(windows::netstat_listeners(&output(text)), [(80, 4), (80, 5), (22, 4)]);
    assert_eq!(windows::find_listener_on_port(&output(text), 80), Some(4));
    assert_eq!(windows::find_listener_on_port(&output(text), 81), None);
    let ports = windows::listening_ports_for_pids(&output(text), &vec![4]);
    assert_eq!(ports.get(&4), Some(&vec![22, 80]));
    assert_eq!(ports.len(), 1);
}

#[test]
fn taskkill_answers_are_read() {
    let reply = |success, code, stderr: &str| TaskkillReply::Finished {
        success,
        code,
        stderr: stderr.to_string(),
    };
    assert_eq!(windows::taskkill(reply(true, Some(0), "")), Ok(()));
    assert_eq!(windows::taskkill(reply(false, Some(128), "x")), Err(GroupError::NotFound));
    assert_eq!(
        windows::taskkill(reply(false, Some(1), " denied \r\n")),
        Err(GroupError::Other("denied".to_string()))
    );
    assert_eq!(
        windows::taskkill(TaskkillReply::NotRun { error: "no".to_string() }),
        Err(GroupError::Other("no".to_string()))
    );
}
