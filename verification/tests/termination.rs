use portkiller::kill::{
    replay, start, step, KillAction, KillEvent, KillPhase, KillState, Observation,
    FORCEFUL_GRACE_MS, GRACEFUL_GRACE_MS, MAX_OBSERVATIONS, POLL_STEP_MS,
};
use portkiller::model::KillOutcome;

fn ob(event: KillEvent, at_ms: u64) -> Observation {
    Observation { event, at_ms }
}

fn signals(actions: &[KillAction]) -> usize {
    actions
        .iter()
        .filter(|a| matches!(a, KillAction::SendGraceful | KillAction::SendForceful))
        .count()
}

#[test]
fn attempt_begins_with_a_probe() {
    let (state, action) = start();
    assert_eq!(state.phase, KillPhase::ExistenceCheck);
    assert!(!state.denied);
    assert_eq!(action, KillAction::ProbeExists);
}

#[test]
fn absent_pid_resolves_already_exited_without_signals() {
    let (state, actions) = replay(&vec![ob(KillEvent::Gone, 10)]);
    assert_eq!(state.phase, KillPhase::Done(KillOutcome::AlreadyExited));
    assert_eq!(actions, vec![KillAction::Resolved(KillOutcome::AlreadyExited)]);
    assert_eq!(signals(&actions), 0);
}

#[test]
fn probe_error_resolves_failed_with_code() {
    let (state, actions) = replay(&vec![ob(KillEvent::ProbeFailed(22), 0)]);
    assert_eq!(state.phase, KillPhase::Done(KillOutcome::Failed(22)));
    assert_eq!(signals(&actions), 0);
}

#[test]
fn pid_that_stopped_listening_is_not_signalled() {
    let (state, actions) =
        replay(&vec![ob(KillEvent::Alive, 0), ob(KillEvent::NotListening, 5)]);
    assert_eq!(state.phase, KillPhase::Done(KillOutcome::AlreadyExited));
    assert_eq!(
        actions,
        vec![KillAction::VerifyListener, KillAction::Resolved(KillOutcome::AlreadyExited)]
    );
}

#[test]
fn exit_during_graceful_wait_is_success_without_forceful_signal() {
    let script = vec![
        ob(KillEvent::Alive, 0),
        ob(KillEvent::Listening, 1),
        ob(KillEvent::SignalSent, 2),
        ob(KillEvent::Alive, 2),
        ob(KillEvent::Alive, 202),
        ob(KillEvent::Gone, 402),
    ];
    let (state, actions) = replay(&script);
    assert_eq!(state.phase, KillPhase::Done(KillOutcome::Success));
    assert_eq!(
        actions,
        vec![
            KillAction::VerifyListener,
            KillAction::SendGraceful,
            KillAction::ProbeExists,
            KillAction::SleepThenProbe(POLL_STEP_MS),
            KillAction::SleepThenProbe(POLL_STEP_MS),
            KillAction::Resolved(KillOutcome::Success),
        ]
    );
    assert!(!actions.contains(&KillAction::SendForceful));
}

fn survivor(graceful: KillEvent, forceful: KillEvent) -> (KillState, Vec<KillAction>) {
    let mut script = vec![ob(KillEvent::Alive, 0), ob(KillEvent::Listening, 0), ob(graceful, 0)];
    let mut now = 0;
    while now < GRACEFUL_GRACE_MS {
        script.push(ob(KillEvent::Alive, now));
        now += POLL_STEP_MS;
    }
    script.push(ob(KillEvent::Alive, now));
    script.push(ob(forceful, now));
    let begun = now;
    while now < begun + FORCEFUL_GRACE_MS {
        script.push(ob(KillEvent::Alive, now));
        now += POLL_STEP_MS;
    }
    script.push(ob(KillEvent::Alive, now));
    assert!(script.len() <= MAX_OBSERVATIONS);
    replay(&script)
}

#[test]
fn survivor_without_denial_times_out() {
    let (state, actions) = survivor(KillEvent::SignalSent, KillEvent::SignalSent);
    assert_eq!(state.phase, KillPhase::Done(KillOutcome::TimedOut));
    assert_eq!(signals(&actions), 2);
    assert_eq!(actions.last(), Some(&KillAction::Resolved(KillOutcome::TimedOut)));
}

#[test]
fn survivor_with_denial_is_permission_denied() {
    let (state, _) = survivor(KillEvent::SignalDenied, KillEvent::SignalSent);
    assert_eq!(state.phase, KillPhase::Done(KillOutcome::PermissionDenied));
    let (state, _) = survivor(KillEvent::SignalSent, KillEvent::SignalDenied);
    assert_eq!(state.phase, KillPhase::Done(KillOutcome::PermissionDenied));
    let (state, _) = survivor(KillEvent::SignalDenied, KillEvent::SignalDenied);
    assert_eq!(state.phase, KillPhase::Done(KillOutcome::PermissionDenied));
}

#[test]
fn denied_signal_still_waits_for_exit() {
    let script = vec![
        ob(KillEvent::Alive, 0),
        ob(KillEvent::Listening, 0),
        ob(KillEvent::SignalDenied, 0),
        ob(KillEvent::Gone, 0),
    ];
    let (state, _) = replay(&script);
    assert_eq!(state.phase, KillPhase::Done(KillOutcome::Success));
    assert!(state.denied);
}

#[test]
fn graceful_signal_results() {
    let base = vec![ob(KillEvent::Alive, 0), ob(KillEvent::Listening, 0)];
    let mut gone = base.clone();
    gone.push(ob(KillEvent::SignalGone, 0));
    assert_eq!(replay(&gone).0.phase, KillPhase::Done(KillOutcome::AlreadyExited));
    let mut failed = base.clone();
    failed.push(ob(KillEvent::SignalFailed(-3), 0));
    assert_eq!(replay(&failed).0.phase, KillPhase::Done(KillOutcome::Failed(-3)));
}

#[test]
fn forceful_signal_results() {
    let mut base = vec![
        ob(KillEvent::Alive, 0),
        ob(KillEvent::Listening, 0),
        ob(KillEvent::SignalSent, 0),
        ob(KillEvent::Alive, GRACEFUL_GRACE_MS),
    ];
    let (state, actions) = replay(&base);
    assert_eq!(state.phase, KillPhase::SignalForceful);
    assert_eq!(actions.last(), Some(&KillAction::SendForceful));
    let mut gone = base.clone();
    gone.push(ob(KillEvent::SignalGone, GRACEFUL_GRACE_MS));
    assert_eq!(replay(&gone).0.phase, KillPhase::Done(KillOutcome::Success));
    let mut failed = base.clone();
    failed.push(ob(KillEvent::SignalFailed(7), GRACEFUL_GRACE_MS));
    assert_eq!(replay(&failed).0.phase, KillPhase::Done(KillOutcome::Failed(7)));
    base.push(ob(KillEvent::SignalSent, GRACEFUL_GRACE_MS));
    base.push(ob(KillEvent::ProbeFailed(9), GRACEFUL_GRACE_MS));
    assert_eq!(replay(&base).0.phase, KillPhase::Done(KillOutcome::Failed(9)));
}

#[test]
fn wait_gives_up_exactly_at_the_deadline() {
    let (state, _) = replay(&vec![
        ob(KillEvent::Alive, 100),
        ob(KillEvent::Listening, 100),
        ob(KillEvent::SignalSent, 100),
    ]);
    assert_eq!(state.phase, KillPhase::WaitGraceful);
    assert_eq!(state.deadline_ms, 100 + GRACEFUL_GRACE_MS);
    let (early, action) = step(state, KillEvent::Alive, 100 + GRACEFUL_GRACE_MS - 1);
    assert_eq!(early.phase, KillPhase::WaitGraceful);
    assert_eq!(action, KillAction::SleepThenProbe(200));
    let (late, action) = step(state, KillEvent::Alive, 100 + GRACEFUL_GRACE_MS);
    assert_eq!(late.phase, KillPhase::SignalForceful);
    assert_eq!(action, KillAction::SendForceful);
}

#[test]
fn deadline_saturates_at_the_end_of_the_clock() {
    let (state, _) = replay(&vec![
        ob(KillEvent::Alive, 0),
        ob(KillEvent::Listening, 0),
        ob(KillEvent::SignalSent, u64::MAX - 5),
    ]);
    assert_eq!(state.deadline_ms, u64::MAX);
}

#[test]
fn event_that_answers_nothing_repeats_the_action() {
    let (begin, _) = start();
    let (state, action) = step(begin, KillEvent::SignalSent, 0);
    assert_eq!(state, begin);
    assert_eq!(action, KillAction::ProbeExists);
    let (state, _) = step(begin, KillEvent::Alive, 0);
    let (same, action) = step(state, KillEvent::Gone, 0);
    assert_eq!(same, state);
    assert_eq!(action, KillAction::VerifyListener);
}

#[test]
fn resolved_attempt_stays_resolved() {
    let (done, _) = step(start().0, KillEvent::Gone, 0);
    for event in [KillEvent::Alive, KillEvent::SignalSent, KillEvent::Listening] {
        let (state, action) = step(done, event, 99);
        assert_eq!(state, done);
        assert_eq!(action, KillAction::Resolved(KillOutcome::AlreadyExited));
    }
}
