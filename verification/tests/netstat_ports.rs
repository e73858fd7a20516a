use portkiller::model::{ProcessInfo, ToolReport};
use portkiller::menu::describe_pid;
use portkiller::netstat::{
    parse_port_from_address, scan_ports, verify_pid_is_listener, with_process_names,
};
use portkiller::snapshot::stand_in;

fn ran(stdout: &str) -> ToolReport {
    ToolReport::Exited { success: true, stdout: stdout.to_string(), stderr: String::new() }
}

fn record(port: u16, pid: i32, command: &str) -> ProcessInfo {
    ProcessInfo { port, pid, command: command.to_string() }
}

const TABLE: &str = "\r\nActive Connections\r\n\r\n  Proto  Local Address          Foreign Address        State           PID\r\n  TCP    0.0.0.0:5432           0.0.0.0:0              LISTENING       4321\r\n  TCP    0.0.0.0:3000           0.0.0.0:0              LISTENING       1234\r\n  TCP    [::]:3000              [::]:0                 LISTENING       1234\r\n  TCP    127.0.0.1:3001         127.0.0.1:51000        ESTABLISHED     1234\r\n  TCP    0.0.0.0:445            0.0.0.0:0              LISTENING       4\r\n  TCP    0.0.0.0:3002           0.0.0.0:0              LISTENING       0\r\n  UDP    0.0.0.0:3003           *:*                                    77\r\n";

#[test]
fn parses_ipv4_any() {
    assert_eq!(parse_port_from_address("0.0.0.0:3000"), Some(3000));
}

#[test]
fn ports_parses_ipv4_localhost() {
    assert_eq!(parse_port_from_address("127.0.0.1:5173"), Some(5173));
}

#[test]
fn parses_ipv6_any() {
    assert_eq!(parse_port_from_address("[::]:8000"), Some(8000));
}

#[test]
fn ports_parses_ipv6_localhost() {
    assert_eq!(parse_port_from_address("[::1]:9000"), Some(9000));
}

#[test]
fn address_port_edge_cases() {
    assert_eq!(parse_port_from_address(""), None);
    assert_eq!(parse_port_from_address("3000"), Some(3000));
    assert_eq!(parse_port_from_address("host:+80"), Some(80));
    assert_eq!(parse_port_from_address("host:-80"), None);
    assert_eq!(parse_port_from_address("host:65536"), None);
    assert_eq!(parse_port_from_address("host:"), None);
    assert_eq!(parse_port_from_address("[::1]"), None);
    assert_eq!(parse_port_from_address("[::1]3000"), None);
    assert_eq!(parse_port_from_address("[::1:3000"), None);
    assert_eq!(parse_port_from_address("[a]:1]:22"), Some(22));
}

#[test]
fn netstat_scan_keeps_listening_tcp_in_range() {
    let got = scan_ports(&[(3000, 3010), (5432, 5432)], &ran(TABLE)).unwrap();
    assert_eq!(got, vec![record(3000, 1234, "pid 1234"), record(5432, 4321, "pid 4321")]);
}

#[test]
fn netstat_scan_failure_is_an_error_value() {
    let failed = ToolReport::Exited {
        success: false,
        stdout: TABLE.to_string(),
        stderr: "access denied".to_string(),
    };
    assert_eq!(scan_ports(&[(1, 65535)], &failed).unwrap_err().message, "netstat failed: access denied");
    let missing = ToolReport::NotStarted { reason: "not found".to_string() };
    assert_eq!(scan_ports(&[(1, 65535)], &missing).unwrap_err().message, "failed to execute netstat");
}

#[test]
fn names_replace_stand_ins_by_position() {
    let records = scan_ports(&[(1, 65535)], &ran(TABLE)).unwrap();
    assert_eq!(records.len(), 3);
    let named = with_process_names(
        &records,
        &vec![None, Some("node.exe".to_string()), Some("postgres.exe".to_string())],
    );
    assert_eq!(
        named,
        vec![record(445, 4, "pid 4"), record(3000, 1234, "node.exe"), record(5432, 4321, "postgres.exe")]
    );
    let short = with_process_names(&records, &vec![Some("System".to_string())]);
    assert_eq!(short[0].command, "System");
    assert_eq!(short[2].command, "pid 4321");
    assert_eq!(stand_in(-7), "pid -7");
}

#[test]
fn netstat_listener_check() {
    assert!(verify_pid_is_listener(1234, &ran(TABLE)));
    assert!(verify_pid_is_listener(4, &ran(TABLE)));
    assert!(!verify_pid_is_listener(77, &ran(TABLE)));
    assert!(!verify_pid_is_listener(51000, &ran(TABLE)));
    assert!(!verify_pid_is_listener(1234, &ran("")));
    assert!(!verify_pid_is_listener(1234, &ToolReport::NotStarted { reason: String::new() }));
}

#[test]
fn stand_in_names_give_way_to_real_ones() {
    let records = vec![record(3000, 9, &stand_in(9)), record(3001, 9, "ruby.exe")];
    assert_eq!(describe_pid(9, &records).unwrap().label, "ruby.exe (ports 3000, 3001)");
    assert_eq!(stand_in(0), "pid 0");
    assert_eq!(stand_in(i32::MIN), "pid -2147483648");
}

#[test]
fn empty_name_leaves_the_stand_in() {
    let records = vec![record(3000, 9, &stand_in(9)), record(3001, 10, &stand_in(10))];
    let named = with_process_names(&records, &vec![Some(String::new()), Some("node.exe".to_string())]);
    assert_eq!(named, vec![record(3000, 9, "pid 9"), record(3001, 10, "node.exe")]);
}
