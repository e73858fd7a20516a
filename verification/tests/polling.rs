use portkiller::model::ProcessInfo;
use portkiller::monitor::{
    idle_interval, unchanged_interval, PollState, PollVerdict, IDLE_MULTIPLIER, IDLE_THRESHOLD_MS,
};
use portkiller::snapshot::{port_in_ranges, record_le, same_records, sort_records};

fn record(port: u16, pid: i32, command: &str) -> ProcessInfo {
    ProcessInfo { port, pid, command: command.to_string() }
}

#[test]
fn identical_scan_gives_no_update_and_keeps_the_active_interval() {
    let mut state = PollState::new(1_000);
    let first = state.observe(Ok(vec![record(3000, 111, "node")]), 1_000, 2);
    assert!(matches!(first, PollVerdict::Changed(ref s) if *s == vec![record(3000, 111, "node")]));
    assert_eq!(state.interval_secs, 0);
    assert_eq!(state.last_change_ms, 1_000);
    let second = state.observe(Ok(vec![record(3000, 111, "node")]), 3_000, 2);
    assert!(matches!(second, PollVerdict::Unchanged));
    assert_eq!(state.interval_secs, 2);
    assert_eq!(state.last_change_ms, 1_000);
    assert_eq!(state.previous, vec![record(3000, 111, "node")]);
}

#[test]
fn long_quiet_spell_switches_to_the_idle_interval() {
    let mut state = PollState::new(0);
    state.observe(Ok(vec![record(3000, 111, "node")]), 0, 2);
    let ten_minutes = 10 * 60 * 1000;
    let verdict = state.observe(Ok(vec![record(3000, 111, "node")]), ten_minutes, 2);
    assert!(matches!(verdict, PollVerdict::Unchanged));
    assert_eq!(state.interval_secs, 4);
    assert_eq!(state.interval_secs, 2 * IDLE_MULTIPLIER);
}

#[test]
fn idle_threshold_is_exclusive() {
    assert_eq!(unchanged_interval(0, IDLE_THRESHOLD_MS, 5), 5);
    assert_eq!(unchanged_interval(0, IDLE_THRESHOLD_MS + 1, 5), 10);
    assert_eq!(unchanged_interval(500, 400, 5), 5);
    assert_eq!(idle_interval(300), 600);
    assert_eq!(idle_interval(u64::MAX), u64::MAX);
    assert_eq!(idle_interval(u64::MAX / 2), u64::MAX - 1);
    assert_eq!(idle_interval(u64::MAX / 2 + 1), u64::MAX);
}

#[test]
fn shuffled_scan_is_not_a_change() {
    let mut state = PollState::new(0);
    let a = record(3000, 111, "node");
    let b = record(3001, 111, "node");
    let c = record(5173, 222, "vite");
    state.observe(Ok(vec![a.clone(), b.clone(), c.clone()]), 0, 2);
    for shuffled in [
        vec![c.clone(), a.clone(), b.clone()],
        vec![b.clone(), c.clone(), a.clone()],
        vec![c.clone(), b.clone(), a.clone()],
    ] {
        assert!(matches!(state.observe(Ok(shuffled), 10, 2), PollVerdict::Unchanged));
    }
    assert!(matches!(
        state.observe(Ok(vec![c.clone(), a.clone()]), 20, 2),
        PollVerdict::Changed(ref s) if *s == vec![a.clone(), c.clone()]
    ));
    assert_eq!(state.last_change_ms, 20);
}

#[test]
fn change_resets_the_clock_and_polls_again_at_once() {
    let mut state = PollState::new(0);
    state.observe(Ok(vec![record(3000, 1, "a")]), 0, 3);
    state.observe(Ok(vec![record(3000, 1, "a")]), 100_000, 3);
    assert_eq!(state.interval_secs, 6);
    let verdict = state.observe(Ok(vec![]), 200_000, 3);
    assert!(matches!(verdict, PollVerdict::Changed(ref s) if s.is_empty()));
    assert_eq!(state.interval_secs, 0);
    assert_eq!(state.last_change_ms, 200_000);
    assert!(matches!(state.observe(Ok(vec![]), 200_001, 3), PollVerdict::Unchanged));
    assert_eq!(state.interval_secs, 3);
}

#[test]
fn changed_command_alone_is_a_change() {
    let mut state = PollState::new(0);
    state.observe(Ok(vec![record(3000, 1, "pid 1")]), 0, 2);
    assert!(matches!(
        state.observe(Ok(vec![record(3000, 1, "node")]), 1, 2),
        PollVerdict::Changed(_)
    ));
}

#[test]
fn failed_scan_reports_and_waits_the_active_interval() {
    let mut state = PollState::new(0);
    state.observe(Ok(vec![record(3000, 1, "a")]), 0, 7);
    let verdict = state.observe(Err("lsof sweep failed: boom".to_string()), 999_999, 7);
    assert!(matches!(verdict, PollVerdict::ScanFailed(ref m) if m == "lsof sweep failed: boom"));
    assert_eq!(state.interval_secs, 7);
    assert_eq!(state.last_change_ms, 0);
    assert_eq!(state.previous, vec![record(3000, 1, "a")]);
    assert!(matches!(state.observe(Ok(vec![record(3000, 1, "a")]), 1_000_000, 7), PollVerdict::Unchanged));
}

#[test]
fn records_sort_by_port_then_pid_then_command() {
    let sorted = sort_records(&vec![
        record(5000, 1, "b"),
        record(3000, 9, "z"),
        record(3000, 2, "b"),
        record(3000, 2, "a"),
        record(3000, 2, "ab"),
        record(3000, -1, "n"),
        record(3000, 2, ""),
    ]);
    assert_eq!(
        sorted,
        vec![
            record(3000, -1, "n"),
            record(3000, 2, ""),
            record(3000, 2, "a"),
            record(3000, 2, "ab"),
            record(3000, 2, "b"),
            record(3000, 9, "z"),
            record(5000, 1, "b"),
        ]
    );
    assert!(record_le(&record(1, 1, "a"), &record(1, 1, "a")));
    assert!(record_le(&record(1, 1, "\u{e9}"), &record(1, 1, "\u{4e2d}")));
    assert!(!record_le(&record(1, 1, "b"), &record(1, 1, "a")));
    assert!(same_records(&sorted, &sorted.clone()));
    assert!(!same_records(&sorted, &vec![]));
}

#[test]
fn ranges_are_inclusive_and_may_overlap() {
    let ranges = [(3000, 3010), (3005, 3020), (8080, 8080)];
    assert!(port_in_ranges(3000, &ranges));
    assert!(port_in_ranges(3020, &ranges));
    assert!(port_in_ranges(8080, &ranges));
    assert!(!port_in_ranges(2999, &ranges));
    assert!(!port_in_ranges(3021, &ranges));
    assert!(!port_in_ranges(3000, &[]));
    assert!(!port_in_ranges(5, &[(10, 1)]));
}

#[test]
fn the_order_of_records_is_the_order_that_sorting_uses() {
    let mut records = vec![
        record(5000, 1, "b"),
        record(3000, 9, "z"),
        record(3000, 2, "b"),
        record(3000, 2, "\u{e9}"),
        record(3000, 2, "ab"),
        record(3000, -1, "n"),
        record(3000, 2, ""),
    ];
    let sorted = sort_records(&records);
    records.sort();
    assert_eq!(sorted, records);
    for pair in sorted.windows(2) {
        assert!(pair[0] <= pair[1]);
        assert!(record_le(&pair[0], &pair[1]));
    }
    let seen: std::collections::HashSet<ProcessInfo> = sorted.iter().cloned().collect();
    assert_eq!(seen.len(), sorted.len());
}
