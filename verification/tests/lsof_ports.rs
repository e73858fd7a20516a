use portkiller::lsof::{parse_port_from_lsof, scan_ports, verify_pid_is_listener};
use portkiller::menu::describe_pid;
use portkiller::model::{ProcessInfo, ToolReport};

fn ran(stdout: &str) -> ToolReport {
    ToolReport::Exited { success: true, stdout: stdout.to_string(), stderr: String::new() }
}

fn record(port: u16, pid: i32, command: &str) -> ProcessInfo {
    ProcessInfo { port, pid, command: command.to_string() }
}

#[test]
fn parses_ipv4_wildcard() {
    assert_eq!(parse_port_from_lsof("*:3000"), Some(3000));
}

#[test]
fn parses_ipv4_localhost() {
    assert_eq!(parse_port_from_lsof("127.0.0.1:5173"), Some(5173));
}

#[test]
fn parses_ipv6_localhost() {
    assert_eq!(parse_port_from_lsof("[::1]:8000"), Some(8000));
}

#[test]
fn rejects_non_listen_or_flow() {
    assert_eq!(parse_port_from_lsof("127.0.0.1:abcd"), None);
    assert_eq!(parse_port_from_lsof("127.0.0.1->192.168.0.1:1234"), None);
    assert_eq!(parse_port_from_lsof("garbage"), None);
}

#[test]
fn lsof_port_edge_cases() {
    assert_eq!(parse_port_from_lsof(""), None);
    assert_eq!(parse_port_from_lsof("*:"), None);
    assert_eq!(parse_port_from_lsof("*:65535"), Some(65535));
    assert_eq!(parse_port_from_lsof("*:65536"), None);
    assert_eq!(parse_port_from_lsof("*:0080"), Some(80));
    assert_eq!(parse_port_from_lsof("8080"), Some(8080));
    assert_eq!(parse_port_from_lsof("*:99999999999999999999"), None);
}

#[test]
fn scan_reads_processes_and_sockets() {
    let listing = "p111\ncnode\nn*:3000\nn127.0.0.1:3001\np222\ncvite\nn[::1]:5173\n";
    let got = scan_ports(&[(3000, 3010), (5173, 5173)], &ran(listing)).unwrap();
    assert_eq!(
        got,
        vec![record(3000, 111, "node"), record(3001, 111, "node"), record(5173, 222, "vite")]
    );
}

#[test]
fn scan_output_is_sorted_and_unique() {
    // The same socket listed for IPv4 and IPv6, processes out of order,
    // and overlapping ranges.
    let listing = "p900\ncredis\nn*:6379\nn[::]:6379\np12\ncnode\nn*:3000\nn*:6379\np5\ncnode\nn*:3000\n";
    let got = scan_ports(&[(3000, 7000), (6000, 6400), (3000, 3000)], &ran(listing)).unwrap();
    assert_eq!(
        got,
        vec![
            record(3000, 5, "node"),
            record(3000, 12, "node"),
            record(6379, 12, "node"),
            record(6379, 900, "redis"),
        ]
    );
    for pair in got.windows(2) {
        assert!((pair[0].port, pair[0].pid) < (pair[1].port, pair[1].pid));
    }
}

#[test]
fn scan_keeps_only_ports_in_range() {
    let listing = "p1\nca\nn*:2999\nn*:3000\nn*:3010\nn*:3011\n";
    let got = scan_ports(&[(3000, 3010)], &ran(listing)).unwrap();
    assert_eq!(got, vec![record(3000, 1, "a"), record(3010, 1, "a")]);
    let none = scan_ports(&[], &ran(listing)).unwrap();
    assert!(none.is_empty());
}

#[test]
fn scan_needs_a_pid_before_a_socket() {
    // A socket before any process, and a socket under a pid that is no
    // number, belong to no process that could be named.
    let listing = "n*:3000\npxyz\ncghost\nn*:3002\np8\ncreal\nn*:3003\n";
    let got = scan_ports(&[(3000, 3010)], &ran(listing)).unwrap();
    assert_eq!(got, vec![record(3003, 8, "real")]);
}

#[test]
fn socket_of_a_process_without_a_command_gets_a_stand_in_name() {
    let got = scan_ports(&[(3000, 3010)], &ran("p123\nn*:3000")).unwrap();
    assert_eq!(got, vec![record(3000, 123, "pid 123")]);
    // The command of one process does not carry over to the next.
    let listing = "p1\ncnode\nn*:3001\np7\nn*:3002\nn*:3000\np-4\nn*:3005\n";
    let got = scan_ports(&[(3000, 3010)], &ran(listing)).unwrap();
    assert_eq!(
        got,
        vec![
            record(3000, 7, "pid 7"),
            record(3001, 1, "node"),
            record(3002, 7, "pid 7"),
            record(3005, -4, "pid -4"),
        ]
    );
    assert_eq!(
        describe_pid(7, &got).unwrap().label,
        "pid 7 (ports 3000, 3002)"
    );
}

#[test]
fn scan_trims_values_and_skips_other_lines() {
    let listing = "p 42 \r\nc  my app \r\nPTCP\nTST=LISTEN\n\nn *:4000 \r\nn1.2.3.4:50->5.6.7.8:4001\n";
    let got = scan_ports(&[(4000, 4010)], &ran(listing)).unwrap();
    assert_eq!(got, vec![record(4000, 42, "my app")]);
}

#[test]
fn scan_failure_is_an_error_value() {
    let failed = ToolReport::Exited {
        success: false,
        stdout: "p1\nca\nn*:3000\n".to_string(),
        stderr: "lsof: no such option".to_string(),
    };
    let error = scan_ports(&[(3000, 3010)], &failed).unwrap_err();
    assert_eq!(error.message, "lsof sweep failed: lsof: no such option");
    let error = scan_ports(&[(3000, 3010)], &ToolReport::NotStarted { reason: "No such file or directory".to_string() }).unwrap_err();
    assert_eq!(error.message, "failed to execute lsof sweep");
}

#[test]
fn listener_check_wants_a_socket_line() {
    assert!(verify_pid_is_listener(&ran("p111\nn*:3000\n")));
    assert!(!verify_pid_is_listener(&ran("p111\n")));
    assert!(!verify_pid_is_listener(&ran("")));
    assert!(!verify_pid_is_listener(&ToolReport::NotStarted { reason: "No such file or directory".to_string() }));
    let failed = ToolReport::Exited {
        success: false,
        stdout: "n*:3000\n".to_string(),
        stderr: String::new(),
    };
    assert!(!verify_pid_is_listener(&failed));
}

#[test]
fn command_that_names_nothing_counts_as_unknown() {
    let got = scan_ports(&[(3000, 3010)], &ran("p5\nc\nn*:3000\np6\nc   \nn*:3001\n")).unwrap();
    assert_eq!(got, vec![record(3000, 5, "pid 5"), record(3001, 6, "pid 6")]);
}
