use karvon::platform::{
    foreign_port, parse_mem_usage_kb, parse_netstat_listen_line, parse_tasklist_csv, port_suffix,
    split_csv_fields, windows_command_line,
};

#[test]
fn parses_ipv4_listener() {
    assert_eq!(
        parse_netstat_listen_line("  TCP    127.0.0.1:8000   0.0.0.0:0   LISTENING   12345"),
        Some((8000, 12345))
    );
}

#[test]
fn parses_ipv6_listener() {
    assert_eq!(
        parse_netstat_listen_line("  TCP    [::]:445   [::]:0   LISTENING   4"),
        Some((445, 4))
    );
}

#[test]
fn parses_listener_in_non_english_locale() {
    // German Windows prints "ABHÖREN" for LISTENING; the wildcard foreign
    // address still identifies it.
    assert_eq!(
        parse_netstat_listen_line("  TCP    0.0.0.0:135   0.0.0.0:0   ABHÖREN   968"),
        Some((135, 968))
    );
}

#[test]
fn ignores_established_connection() {
    assert_eq!(
        parse_netstat_listen_line("  TCP    127.0.0.1:51000   140.82.112.3:443   ESTABLISHED   7777"),
        None
    );
}

#[test]
fn ignores_header_and_udp() {
    assert_eq!(
        parse_netstat_listen_line("  Proto  Local Address  Foreign Address  State  PID"),
        None
    );
    assert_eq!(parse_netstat_listen_line("  UDP    0.0.0.0:5353   *:*   123"), None);
}

#[test]
fn parses_verbose_tasklist_row() {
    let line = r#""node.exe","12345","Console","1","123,456 K","Running","DESKTOP-AB\dev","0:00:12","N/A""#;
    let row = parse_tasklist_csv(line).expect("row");
    assert_eq!(row.image, "node.exe");
    assert_eq!(row.pid, 12345);
    assert_eq!(row.memory_kb, 123456);
    assert_eq!(row.status, "Running");
    assert_eq!(row.user, "DESKTOP-AB\\dev");
}

#[test]
fn parses_plain_tasklist_row_without_status() {
    let line = r#""svchost.exe","968","Services","0","8,200 K""#;
    let row = parse_tasklist_csv(line).expect("row");
    assert_eq!(row.pid, 968);
    assert_eq!(row.memory_kb, 8200);
    assert_eq!(row.status, "");
    assert_eq!(row.user, "");
}

#[test]
fn rejects_malformed_tasklist_line() {
    assert!(parse_tasklist_csv("INFO: No tasks are running which match the specified criteria.")
        .is_none());
    assert!(parse_tasklist_csv("").is_none());
}

#[test]
fn parses_memory_cell() {
    assert_eq!(parse_mem_usage_kb("123,456 K"), Some(123456));
    assert_eq!(parse_mem_usage_kb("8,200 K"), Some(8200));
    assert_eq!(parse_mem_usage_kb("0 K"), Some(0));
    assert_eq!(parse_mem_usage_kb("N/A"), None);
}

#[test]
fn parses_ipv6_only_dev_server_listener() {
    // Node 17+/Vite bind localhost to ::1 only.
    assert_eq!(
        parse_netstat_listen_line("  TCP    [::1]:5173   [::]:0   LISTENING   4242"),
        Some((5173, 4242))
    );
}

#[test]
fn command_line_passes_simple_tokens_unquoted() {
    let tokens = ["npm", "run", "dev", "--", "--host", "127.0.0.1"]
        .iter()
        .map(|s| s.to_string())
        .collect::<Vec<_>>();
    assert_eq!(windows_command_line(&tokens), "npm run dev -- --host 127.0.0.1");
}

#[test]
fn command_line_quotes_spaces_and_doubles_inner_quotes() {
    let tokens =
        vec!["node".to_string(), "my script.js".to_string(), "say \"hi\"".to_string()];
    // spaces → wrapped; inner quote → doubled ("") per cmd.exe convention.
    assert_eq!(
        windows_command_line(&tokens),
        "node \"my script.js\" \"say \"\"hi\"\"\""
    );
}

#[test]
fn command_line_quotes_empty_tokens_and_metacharacters() {
    let tokens = vec!["echo".to_string(), String::new(), "a&b".to_string(), "(x)".to_string()];
    assert_eq!(windows_command_line(&tokens), "echo \"\" \"a&b\" \"(x)\"");
    assert_eq!(windows_command_line(&vec![]), "");
}

#[test]
fn netstat_listen_word_and_short_rows() {
    assert_eq!(
        parse_netstat_listen_line("tcp 1.2.3.4:80 5.6.7.8:90 Listening 7"),
        Some((80, 7))
    );
    // Without a process column the state column is read as the process.
    assert_eq!(parse_netstat_listen_line("TCP 1.2.3.4:80 0.0.0.0:0 77"), Some((80, 77)));
    assert_eq!(parse_netstat_listen_line("TCP 1.2.3.4:80 0.0.0.0:0"), None);
    assert_eq!(parse_netstat_listen_line("TCP 1.2.3.4:99999 0.0.0.0:0 LISTENING 7"), None);
    assert_eq!(parse_netstat_listen_line("TCP 1.2.3.4:80 0.0.0.0:0 LISTENING x"), None);
    assert_eq!(parse_netstat_listen_line(""), None);
}

#[test]
fn star_address_is_a_wildcard() {
    assert_eq!(parse_netstat_listen_line("  TCP    0.0.0.0:135   *:*   ABHÖREN   968"), Some((135, 968)));
    assert_eq!(foreign_port("*:*"), Some(0));
    assert_eq!(foreign_port("[::]:0"), Some(0));
    assert_eq!(foreign_port("140.82.112.3:443"), Some(443));
    assert_eq!(foreign_port("nonsense"), None);
}

#[test]
fn port_suffix_reads_the_last_part() {
    assert_eq!(port_suffix("[::1]:3000"), Some(3000));
    assert_eq!(port_suffix("127.0.0.1:65535"), Some(65535));
    assert_eq!(port_suffix("127.0.0.1:65536"), None);
    assert_eq!(port_suffix("8080"), Some(8080));
    assert_eq!(port_suffix("host:"), None);
}

#[test]
fn commas_inside_quotes_do_not_split() {
    assert_eq!(split_csv_fields("\"a,b\",c,,\"d\""), ["a,b", "c", "", "d"]);
    assert_eq!(split_csv_fields(""), [""]);
    assert_eq!(split_csv_fields("x"), ["x"]);
}

#[test]
fn tasklist_rows_need_a_process_number() {
    assert!(parse_tasklist_csv("\"Image Name\",\"PID\",\"Session\",\"#\",\"Mem Usage\"").is_none());
    let row = parse_tasklist_csv("a.exe, 12 ,s,0,N/A").expect("row");
    assert_eq!((row.pid, row.memory_kb), (12, 0));
}
