use portkiller::menu::{
    build_tooltip, collect_targets_for_all, describe_pid, format_command_label,
    parse_menu_action, process_menu_id,
};
use portkiller::model::{KillFeedback, MenuAction, ProcessInfo};

fn record(port: u16, pid: i32, command: &str) -> ProcessInfo {
    ProcessInfo { port, pid, command: command.to_string() }
}

#[test]
fn parse_simple_actions() {
    assert!(matches!(parse_menu_action("kill_all"), Some(MenuAction::KillAll)));
    assert!(matches!(parse_menu_action("quit"), Some(MenuAction::Quit)));
    assert!(matches!(parse_menu_action("edit_config"), Some(MenuAction::EditConfig)));
}

#[test]
fn parse_targeted_actions() {
    assert!(matches!(
        parse_menu_action("docker_stop_mycontainer"),
        Some(MenuAction::DockerStop { container }) if container == "mycontainer"
    ));
    assert!(matches!(
        parse_menu_action("brew_stop_postgresql"),
        Some(MenuAction::BrewStop { service }) if service == "postgresql"
    ));
    assert!(matches!(
        parse_menu_action("process_1234_3000"),
        Some(MenuAction::KillPid { pid }) if pid == 1234
    ));
    assert!(matches!(parse_menu_action("docker_stop_all"), Some(MenuAction::DockerStopAll)));
    assert!(matches!(parse_menu_action("brew_stop_all"), Some(MenuAction::BrewStopAll)));
}

#[test]
fn label_formats_ports() {
    assert_eq!(format_command_label("node", &[3000]), "node (port 3000)");
    assert_eq!(format_command_label("python", &[8000, 8001]), "python (ports 8000, 8001)");
    assert_eq!(format_command_label("", &[]), "Unknown");
}

#[test]
fn collect_targets_groups_by_pid() {
    let p1 = record(3000, 111, "node");
    let p2 = record(3001, 111, "node");
    let p3 = record(5173, 222, "vite");
    let targets = collect_targets_for_all(&[p1, p2, p3]);
    assert_eq!(targets.len(), 2);
    assert!(targets
        .iter()
        .any(|t| t.pid == 111 && t.label.contains("3000") && t.label.contains("3001")));
    assert!(targets.iter().any(|t| t.pid == 222 && t.label.contains("5173")));
}

#[test]
fn targets_come_in_pid_order_with_sorted_ports() {
    let targets = collect_targets_for_all(&[
        record(9000, 50, ""),
        record(3001, 7, "node"),
        record(8000, 50, "python"),
        record(3000, 7, "other"),
        record(3001, 7, "node"),
        record(8000, 50, "ignored"),
    ]);
    assert_eq!(targets.len(), 2);
    assert_eq!(targets[0].pid, 7);
    assert_eq!(targets[0].label, "node (ports 3000, 3001)");
    assert_eq!(targets[1].pid, 50);
    assert_eq!(targets[1].label, "python (ports 8000, 9000)");
    assert!(collect_targets_for_all(&[]).is_empty());
}

#[test]
fn target_without_any_command_is_unknown() {
    let targets = collect_targets_for_all(&[record(3000, 1, "")]);
    assert_eq!(targets[0].label, "Unknown (port 3000)");
}

#[test]
fn describe_pid_joins_ports_of_one_process() {
    let processes = [record(3001, 111, "node"), record(5173, 222, "vite"), record(3000, 111, "node")];
    let target = describe_pid(111, &processes).unwrap();
    assert_eq!(target.pid, 111);
    assert_eq!(target.label, "node (ports 3000, 3001)");
    assert!(describe_pid(333, &processes).is_none());
    assert!(describe_pid(111, &[]).is_none());
}

#[test]
fn describe_pid_prefers_a_real_command_over_a_stand_in() {
    let processes = [record(3000, 9, "pid 9"), record(3001, 9, "ruby"), record(3002, 9, "late")];
    assert_eq!(describe_pid(9, &processes).unwrap().label, "ruby (ports 3000, 3001, 3002)");
    let only_stand_ins = [record(3000, 9, "pid 9"), record(3001, 9, "pid nine")];
    assert_eq!(describe_pid(9, &only_stand_ins).unwrap().label, "pid nine (ports 3000, 3001)");
}

#[test]
fn menu_id_round_trip() {
    assert_eq!(process_menu_id(1234, 3000), "process_1234_3000");
    assert_eq!(process_menu_id(-5, 0), "process_-5_0");
    assert!(matches!(
        parse_menu_action(&process_menu_id(i32::MAX, u16::MAX)),
        Some(MenuAction::KillPid { pid }) if pid == i32::MAX
    ));
    assert!(matches!(
        parse_menu_action(&process_menu_id(i32::MIN, 1)),
        Some(MenuAction::KillPid { pid }) if pid == i32::MIN
    ));
}

#[test]
fn menu_ids_that_stand_for_nothing() {
    assert!(parse_menu_action("").is_none());
    assert!(parse_menu_action("empty").is_none());
    assert!(parse_menu_action("header_processes").is_none());
    assert!(parse_menu_action("process_").is_none());
    assert!(parse_menu_action("process_12").is_none());
    assert!(parse_menu_action("process_12_").is_none());
    assert!(parse_menu_action("process_x_3000").is_none());
    assert!(parse_menu_action("process_12_70000").is_none());
    assert!(parse_menu_action("process_2147483648_80").is_none());
    assert!(parse_menu_action("Kill_all").is_none());
}

#[test]
fn menu_ids_with_extra_parts() {
    assert!(matches!(
        parse_menu_action("process_12_3000_extra"),
        Some(MenuAction::KillPid { pid }) if pid == 12
    ));
    assert!(matches!(parse_menu_action("launch_at_login"), Some(MenuAction::LaunchAtLogin)));
}

#[test]
fn names_in_menu_ids_are_sanitised() {
    assert!(matches!(
        parse_menu_action("docker_stop_my container; rm -rf /"),
        Some(MenuAction::DockerStop { container }) if container == "mycontainerrm-rf"
    ));
    assert!(matches!(
        parse_menu_action("brew_stop_mongodb-community@7.0"),
        Some(MenuAction::BrewStop { service }) if service == "mongodb-community7.0"
    ));
    assert!(matches!(
        parse_menu_action("docker_stop_"),
        Some(MenuAction::DockerStop { container }) if container.is_empty()
    ));
    assert!(matches!(
        parse_menu_action("docker_stop_caf\u{e9}_1"),
        Some(MenuAction::DockerStop { container }) if container == "caf\u{e9}_1"
    ));
}

#[test]
fn tooltip_without_listeners() {
    assert_eq!(build_tooltip(&[], None), "No dev port listeners detected.");
}

#[test]
fn tooltip_lists_at_most_five() {
    let few = [record(3000, 111, "node"), record(5173, 222, "vite")];
    assert_eq!(
        build_tooltip(&few, None),
        "Active listeners: 2\nPort 3000 \u{2192} node (PID 111)\nPort 5173 \u{2192} vite (PID 222)"
    );
    let many: Vec<ProcessInfo> = (0..7).map(|i| record(3000 + i, 10 + i as i32, "app")).collect();
    let tooltip = build_tooltip(&many, None);
    let lines: Vec<&str> = tooltip.lines().collect();
    assert_eq!(lines.len(), 7);
    assert_eq!(lines[0], "Active listeners: 7");
    assert_eq!(lines[5], "Port 3004 \u{2192} app (PID 14)");
    assert_eq!(lines[6], "\u{2026}and 2 more");
    let five: Vec<ProcessInfo> = (0..5).map(|i| record(3000 + i, 1, "app")).collect();
    assert_eq!(build_tooltip(&five, None).lines().count(), 6);
}

#[test]
fn tooltip_marks_feedback_by_severity() {
    let info = KillFeedback::info("done".to_string());
    let warning = KillFeedback::warning("careful".to_string());
    let error = KillFeedback::error("broken".to_string());
    assert_eq!(
        build_tooltip(&[], Some(&info)),
        "No dev port listeners detected.\nLast action: done"
    );
    assert_eq!(
        build_tooltip(&[], Some(&warning)),
        "No dev port listeners detected.\nLast action: \u{26a0}\u{fe0f} careful"
    );
    assert_eq!(
        build_tooltip(&[], Some(&error)),
        "No dev port listeners detected.\nLast action: \u{26d4} broken"
    );
}
