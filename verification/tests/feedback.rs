use portkiller::batch::{
    count_outcomes, handle_batch_kill, handle_single_kill, permission_denied_code, summary_text,
    timeout_code, BatchRun,
};
use portkiller::model::KillOutcome::{
    AlreadyExited, Failed, PermissionDenied, Success, TimedOut,
};
use portkiller::model::{FeedbackSeverity, KillFeedback, KillOutcome, KillTarget, Platform};

fn target(pid: i32, label: &str) -> KillTarget {
    KillTarget { pid, label: label.to_string() }
}

fn batch(outcomes: &[KillOutcome]) -> Vec<(KillTarget, KillOutcome)> {
    outcomes
        .iter()
        .enumerate()
        .map(|(i, o)| (target(100 + i as i32, &format!("t{}", i)), *o))
        .collect()
}

#[test]
fn feedback_constructors_set_severity() {
    assert_eq!(KillFeedback::info("a".to_string()).severity, FeedbackSeverity::Info);
    assert_eq!(KillFeedback::warning("a".to_string()).severity, FeedbackSeverity::Warning);
    assert_eq!(KillFeedback::error("a".to_string()).severity, FeedbackSeverity::Error);
    let made = KillFeedback::new("text".to_string(), FeedbackSeverity::Warning);
    assert_eq!(made.message, "text");
    assert_eq!(made.severity, FeedbackSeverity::Warning);
}

#[test]
fn empty_batch_is_a_single_info_report() {
    let report = handle_batch_kill(&vec![], Platform::MacOs);
    assert_eq!(report.severity, FeedbackSeverity::Info);
    assert_eq!(report.message, "Kill all: no action taken.");
}

#[test]
fn batch_of_three_with_one_denied_is_a_warning() {
    let results = vec![
        (target(1, "A (port 3000)"), KillOutcome::Success),
        (target(2, "B (port 3001)"), KillOutcome::AlreadyExited),
        (target(3, "C (port 3002)"), KillOutcome::PermissionDenied),
    ];
    let report = handle_batch_kill(&results, Platform::MacOs);
    assert_eq!(report.severity, FeedbackSeverity::Warning);
    assert!(report.message.contains("terminated 1"));
    assert!(report.message.contains("1 already stopped"));
    assert!(report.message.contains("1 permission denied"));
    assert!(report.message.contains("First failure: C (port 3002) (PID 3)"));
    assert_eq!(
        report.message,
        "Kill all: terminated 1, 1 already stopped, 1 permission denied. First failure: C (port 3002) (PID 3) \u{e2}\u{20ac}\u{201d} 1."
    );
}

#[test]
fn batch_severity_follows_the_counts() {
    let cases: Vec<(Vec<KillOutcome>, FeedbackSeverity)> = vec![
        (vec![Success], FeedbackSeverity::Info),
        (vec![Success, AlreadyExited, Success], FeedbackSeverity::Info),
        (vec![AlreadyExited], FeedbackSeverity::Error),
        (vec![PermissionDenied, TimedOut], FeedbackSeverity::Error),
        (vec![Failed(3)], FeedbackSeverity::Error),
        (vec![Success, TimedOut], FeedbackSeverity::Warning),
        (vec![Failed(3), Success], FeedbackSeverity::Warning),
        (vec![Success, PermissionDenied], FeedbackSeverity::Warning),
    ];
    for (outcomes, expected) in cases {
        assert_eq!(handle_batch_kill(&batch(&outcomes), Platform::Windows).severity, expected);
    }
}

#[test]
fn batch_text_lists_every_count() {
    let results = batch(&[TimedOut, Success, Failed(13), PermissionDenied, Success, AlreadyExited, TimedOut]);
    let report = handle_batch_kill(&results, Platform::Windows);
    assert_eq!(
        report.message,
        "Kill all: terminated 2, 1 already stopped, 1 permission denied, 2 timed out, 1 failed. First failure: t0 (PID 100) \u{e2}\u{20ac}\u{201d} 121."
    );
    let counts = count_outcomes(&results, Platform::Windows);
    assert_eq!(
        (counts.successes, counts.already, counts.denied, counts.timed_out, counts.failed),
        (2, 1, 1, 2, 1)
    );
    assert_eq!(counts.first_failure, Some(0));
}

#[test]
fn first_failure_is_first_by_execution_order() {
    let results = batch(&[Success, AlreadyExited, Failed(-9), PermissionDenied]);
    let report = handle_batch_kill(&results, Platform::MacOs);
    assert!(report.message.ends_with(" First failure: t2 (PID 102) \u{e2}\u{20ac}\u{201d} -9."));
    let clean = handle_batch_kill(&batch(&[Success, AlreadyExited]), Platform::MacOs);
    assert_eq!(clean.message, "Kill all: terminated 1, 1 already stopped.");
}

#[test]
fn failure_codes_by_platform() {
    assert_eq!(permission_denied_code(Platform::MacOs), 1);
    assert_eq!(permission_denied_code(Platform::Windows), 5);
    assert_eq!(timeout_code(Platform::MacOs), 60);
    assert_eq!(timeout_code(Platform::Windows), 121);
    let report = handle_batch_kill(&batch(&[KillOutcome::TimedOut]), Platform::MacOs);
    assert_eq!(
        report.message,
        "Kill all: 1 timed out. First failure: t0 (PID 100) \u{e2}\u{20ac}\u{201d} 60."
    );
    let report = handle_batch_kill(&batch(&[KillOutcome::PermissionDenied]), Platform::Windows);
    assert!(report.message.ends_with("\u{201d} 5."));
}

#[test]
fn single_kill_messages() {
    let t = target(4242, "node (port 3000)");
    let cases = [
        (KillOutcome::Success, "Terminated node (port 3000) (PID 4242).", FeedbackSeverity::Info),
        (
            KillOutcome::AlreadyExited,
            "node (port 3000) (PID 4242) was already stopped.",
            FeedbackSeverity::Warning,
        ),
        (
            KillOutcome::PermissionDenied,
            "Permission denied terminating node (port 3000) (PID 4242).",
            FeedbackSeverity::Error,
        ),
        (
            KillOutcome::TimedOut,
            "Timed out terminating node (port 3000) (PID 4242).",
            FeedbackSeverity::Error,
        ),
        (
            KillOutcome::Failed(-22),
            "Failed to terminate node (port 3000) (PID 4242): -22.",
            FeedbackSeverity::Error,
        ),
    ];
    for (outcome, message, severity) in cases {
        let feedback = handle_single_kill(&t, outcome);
        assert_eq!(feedback.message, message);
        assert_eq!(feedback.severity, severity);
    }
}

#[test]
fn batch_run_takes_targets_in_order_once_each() {
    let mut run = BatchRun::new(vec![target(7, "a"), target(3, "b"), target(9, "c")]);
    let mut asked = Vec::new();
    while let Some(pid) = run.next_pid() {
        asked.push(pid);
        run.record(if pid == 3 { KillOutcome::Failed(5) } else { KillOutcome::Success });
    }
    assert_eq!(asked, vec![7, 3, 9]);
    run.record(KillOutcome::TimedOut);
    assert_eq!(run.done.len(), 3);
    let report = run.report(Platform::MacOs);
    assert_eq!(report.severity, FeedbackSeverity::Warning);
    assert_eq!(
        report.message,
        "Kill all: terminated 2, 1 failed. First failure: b (PID 3) \u{e2}\u{20ac}\u{201d} 5."
    );
}

#[test]
fn empty_batch_run_asks_for_no_attempt() {
    let run = BatchRun::new(vec![]);
    assert_eq!(run.next_pid(), None);
    let report = run.report(Platform::Windows);
    assert_eq!(report.severity, FeedbackSeverity::Info);
    assert_eq!(report.message, "Kill all: no action taken.");
}

#[test]
fn every_category_is_listed_with_its_own_count() {
    let report = handle_batch_kill(&batch(&[PermissionDenied, Failed(7)]), Platform::MacOs);
    assert!(report.message.contains("1 permission denied"));
    assert!(report.message.contains("1 failed"));
    assert!(!report.message.contains("2 failed"));
    assert_eq!(
        report.message,
        "Kill all: 1 permission denied, 1 failed. First failure: t0 (PID 100) \u{e2}\u{20ac}\u{201d} 1."
    );
    let only_denied = handle_batch_kill(&batch(&[PermissionDenied, TimedOut]), Platform::MacOs);
    assert!(!only_denied.message.contains("failed"));
    let counts = count_outcomes(
        &batch(&[Failed(1), Failed(2), Success, TimedOut, TimedOut, TimedOut]),
        Platform::Windows,
    );
    assert_eq!(summary_text(&counts), "Kill all: terminated 1, 3 timed out, 2 failed.");
}
