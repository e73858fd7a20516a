//! The termination engine: a state machine that escalates from a graceful to
//! a forceful signal, with bounded waits in between.
//!
//! The machine itself touches nothing outside. Its caller carries out each
//! [`KillAction`] (probe the process, send a signal, sleep) and reports what
//! happened as a [`KillEvent`] together with a reading of a monotonic clock in
//! milliseconds. The machine answers with the next action until it resolves
//! to exactly one [`KillOutcome`].
//!
//! Re-checking that the process is still a listener before the first signal
//! narrows the window in which a recycled pid could be hit; it does not close
//! it.

use crate::model::KillOutcome;
use vstd::prelude::*;

verus! {

/// How long to wait after the graceful signal, in milliseconds.
pub const GRACEFUL_GRACE_MS: u64 = 2000;

/// How long to wait after the forceful signal, in milliseconds.
pub const FORCEFUL_GRACE_MS: u64 = 1000;

/// The pause between two liveness probes during a wait, in milliseconds.
pub const POLL_STEP_MS: u64 = 200;

/// Where a termination attempt stands.
#[derive(Clone, Copy, Debug, PartialEq, Eq, Structural)]
pub enum KillPhase {
    /// Waiting to learn whether the process exists at all.
    ExistenceCheck,
    /// Waiting to learn whether the process is still a listener.
    ToctouVerify,
    /// Waiting for the result of the graceful signal.
    SignalGraceful,
    /// Polling for exit after the graceful signal.
    WaitGraceful,
    /// Waiting for the result of the forceful signal.
    SignalForceful,
    /// Polling for exit after the forceful signal.
    WaitForceful,
    /// Resolved.
    Done(KillOutcome),
}

/// What the caller observed when it carried out the last action.
#[derive(Clone, Copy, Debug, PartialEq, Eq, Structural)]
pub enum KillEvent {
    /// A probe found the process alive.
    Alive,
    /// A probe found no such process.
    Gone,
    /// A probe failed with a platform error code.
    ProbeFailed(i32),
    /// The process is still a listener.
    Listening,
    /// The process is no longer a listener.
    NotListening,
    /// The signal was delivered.
    SignalSent,
    /// The process vanished before the signal could be delivered.
    SignalGone,
    /// The platform refused to deliver the signal.
    SignalDenied,
    /// Sending the signal failed with a platform error code.
    SignalFailed(i32),
}

/// What the caller is asked to do next.
#[derive(Clone, Copy, Debug, PartialEq, Eq, Structural)]
pub enum KillAction {
    /// Probe whether the process exists, now.
    ProbeExists,
    /// Check whether the process is still a listener.
    VerifyListener,
    /// Send the graceful termination signal.
    SendGraceful,
    /// Send the forceful termination signal.
    SendForceful,
    /// Sleep for the given number of milliseconds, then probe.
    SleepThenProbe(u64),
    /// Nothing more to do: the attempt ended with this outcome.
    Resolved(KillOutcome),
}

/// The state of one termination attempt.
#[derive(Clone, Copy, Debug, PartialEq, Eq, Structural)]
pub struct KillState {
    pub phase: KillPhase,
    /// Whether any signal so far was refused for lack of permission.
    pub denied: bool,
    /// Clock reading at which the current wait gives up.
    pub deadline_ms: u64,
}

/// The state in which every attempt begins.
pub open spec fn initial_state() -> KillState {
    KillState { phase: KillPhase::ExistenceCheck, denied: false, deadline_ms: 0 }
}

/// `now + grace`, capped at the largest clock reading.
pub open spec fn deadline_after(now: u64, grace: u64) -> u64 {
    if now + grace > u64::MAX {
        u64::MAX
    } else {
        (now + grace) as u64
    }
}

/// The action that a state is waiting on when nothing new was learned.
pub open spec fn pending_action(phase: KillPhase) -> KillAction {
    match phase {
        KillPhase::ExistenceCheck => KillAction::ProbeExists,
        KillPhase::ToctouVerify => KillAction::VerifyListener,
        KillPhase::SignalGraceful => KillAction::SendGraceful,
        KillPhase::WaitGraceful => KillAction::ProbeExists,
        KillPhase::SignalForceful => KillAction::SendForceful,
        KillPhase::WaitForceful => KillAction::ProbeExists,
        KillPhase::Done(outcome) => KillAction::Resolved(outcome),
    }
}

/// The state in which an attempt has ended with `outcome`.
pub open spec fn resolved(state: KillState, outcome: KillOutcome) -> (KillState, KillAction) {
    (KillState { phase: KillPhase::Done(outcome), ..state }, KillAction::Resolved(outcome))
}

/// The state that waits on the answer to the first probe of a wait that
/// begins at `now` and lasts `grace`.
pub open spec fn begin_wait(state: KillState, phase: KillPhase, denied: bool, now: u64, grace: u64) -> (
    KillState,
    KillAction,
) {
    (KillState { phase, denied, deadline_ms: deadline_after(now, grace) }, KillAction::ProbeExists)
}

/// The transition function of the termination engine.
///
/// An event that does not answer the pending action leaves the state as it is
/// and asks for that action again.
pub open spec fn step_spec(state: KillState, event: KillEvent, now: u64) -> (KillState, KillAction) {
    let stay = (state, pending_action(state.phase));
    match state.phase {
        KillPhase::ExistenceCheck => match event {
            KillEvent::Gone => resolved(state, KillOutcome::AlreadyExited),
            KillEvent::ProbeFailed(code) => resolved(state, KillOutcome::Failed(code)),
            KillEvent::Alive => (
                KillState { phase: KillPhase::ToctouVerify, ..state },
                KillAction::VerifyListener,
            ),
            _ => stay,
        },
        KillPhase::ToctouVerify => match event {
            KillEvent::Listening => (
                KillState { phase: KillPhase::SignalGraceful, ..state },
                KillAction::SendGraceful,
            ),
            KillEvent::NotListening => resolved(state, KillOutcome::AlreadyExited),
            _ => stay,
        },
        KillPhase::SignalGraceful => match event {
            KillEvent::SignalSent => begin_wait(
                state,
                KillPhase::WaitGraceful,
                state.denied,
                now,
                GRACEFUL_GRACE_MS,
            ),
            KillEvent::SignalDenied => begin_wait(
                state,
                KillPhase::WaitGraceful,
                true,
                now,
                GRACEFUL_GRACE_MS,
            ),
            KillEvent::SignalGone => resolved(state, KillOutcome::AlreadyExited),
            KillEvent::SignalFailed(code) => resolved(state, KillOutcome::Failed(code)),
            _ => stay,
        },
        KillPhase::WaitGraceful => match event {
            KillEvent::Gone => resolved(state, KillOutcome::Success),
            KillEvent::ProbeFailed(code) => resolved(state, KillOutcome::Failed(code)),
            KillEvent::Alive => if now >= state.deadline_ms {
                (KillState { phase: KillPhase::SignalForceful, ..state }, KillAction::SendForceful)
            } else {
                (state, KillAction::SleepThenProbe(POLL_STEP_MS))
            },
            _ => stay,
        },
        KillPhase::SignalForceful => match event {
            KillEvent::SignalSent => begin_wait(
                state,
                KillPhase::WaitForceful,
                state.denied,
                now,
                FORCEFUL_GRACE_MS,
            ),
            KillEvent::SignalDenied => begin_wait(
                state,
                KillPhase::WaitForceful,
                true,
                now,
                FORCEFUL_GRACE_MS,
            ),
            KillEvent::SignalGone => resolved(state, KillOutcome::Success),
            KillEvent::SignalFailed(code) => resolved(state, KillOutcome::Failed(code)),
            _ => stay,
        },
        KillPhase::WaitForceful => match event {
            KillEvent::Gone => resolved(state, KillOutcome::Success),
            KillEvent::ProbeFailed(code) => resolved(state, KillOutcome::Failed(code)),
            KillEvent::Alive => if now >= state.deadline_ms {
                if state.denied {
                    resolved(state, KillOutcome::PermissionDenied)
                } else {
                    resolved(state, KillOutcome::TimedOut)
                }
            } else {
                (state, KillAction::SleepThenProbe(POLL_STEP_MS))
            },
            _ => stay,
        },
        KillPhase::Done(_) => stay,
    }
}

/// Begins a termination attempt: the first state and the first action.
pub fn start() -> (begin: (KillState, KillAction))
    ensures
        begin.0 == initial_state(),
        begin.1 == KillAction::ProbeExists,
{
    (
        KillState { phase: KillPhase::ExistenceCheck, denied: false, deadline_ms: 0 },
        KillAction::ProbeExists,
    )
}

fn pending(phase: KillPhase) -> (action: KillAction)
    ensures
        action == pending_action(phase),
{
    match phase {
        KillPhase::ExistenceCheck => KillAction::ProbeExists,
        KillPhase::ToctouVerify => KillAction::VerifyListener,
        KillPhase::SignalGraceful => KillAction::SendGraceful,
        KillPhase::WaitGraceful => KillAction::ProbeExists,
        KillPhase::SignalForceful => KillAction::SendForceful,
        KillPhase::WaitForceful => KillAction::ProbeExists,
        KillPhase::Done(outcome) => KillAction::Resolved(outcome),
    }
}

fn resolve(state: KillState, outcome: KillOutcome) -> (next: (KillState, KillAction))
    ensures
        next == resolved(state, outcome),
{
    (
        KillState { phase: KillPhase::Done(outcome), denied: state.denied, deadline_ms: state.deadline_ms },
        KillAction::Resolved(outcome),
    )
}

fn wait_from(state: KillState, phase: KillPhase, denied: bool, now: u64, grace: u64) -> (next: (
    KillState,
    KillAction,
))
    ensures
        next == begin_wait(state, phase, denied, now, grace),
{
    let deadline_ms = now.saturating_add(grace);
    (KillState { phase, denied, deadline_ms }, KillAction::ProbeExists)
}

fn to_phase(state: KillState, phase: KillPhase, action: KillAction) -> (next: (KillState, KillAction))
    ensures
        next == (KillState { phase, ..state }, action),
{
    (KillState { phase, denied: state.denied, deadline_ms: state.deadline_ms }, action)
}

/// Advances a termination attempt by one observation made at clock reading
/// `now_ms`, and says what to do next.
pub fn step(state: KillState, event: KillEvent, now_ms: u64) -> (next: (KillState, KillAction))
    ensures
        next == step_spec(state, event, now_ms),
{
    match state.phase {
        KillPhase::ExistenceCheck => match event {
            KillEvent::Gone => resolve(state, KillOutcome::AlreadyExited),
            KillEvent::ProbeFailed(code) => resolve(state, KillOutcome::Failed(code)),
            KillEvent::Alive => to_phase(state, KillPhase::ToctouVerify, KillAction::VerifyListener),
            _ => (state, pending(state.phase)),
        },
        KillPhase::ToctouVerify => match event {
            KillEvent::Listening => to_phase(
                state,
                KillPhase::SignalGraceful,
                KillAction::SendGraceful,
            ),
            KillEvent::NotListening => resolve(state, KillOutcome::AlreadyExited),
            _ => (state, pending(state.phase)),
        },
        KillPhase::SignalGraceful => match event {
            KillEvent::SignalSent => wait_from(
                state,
                KillPhase::WaitGraceful,
                state.denied,
                now_ms,
                GRACEFUL_GRACE_MS,
            ),
            KillEvent::SignalDenied => wait_from(
                state,
                KillPhase::WaitGraceful,
                true,
                now_ms,
                GRACEFUL_GRACE_MS,
            ),
            KillEvent::SignalGone => resolve(state, KillOutcome::AlreadyExited),
            KillEvent::SignalFailed(code) => resolve(state, KillOutcome::Failed(code)),
            _ => (state, pending(state.phase)),
        },
        KillPhase::WaitGraceful => match event {
            KillEvent::Gone => resolve(state, KillOutcome::Success),
            KillEvent::ProbeFailed(code) => resolve(state, KillOutcome::Failed(code)),
            KillEvent::Alive => if now_ms >= state.deadline_ms {
                to_phase(state, KillPhase::SignalForceful, KillAction::SendForceful)
            } else {
                (state, KillAction::SleepThenProbe(POLL_STEP_MS))
            },
            _ => (state, pending(state.phase)),
        },
        KillPhase::SignalForceful => match event {
            KillEvent::SignalSent => wait_from(
                state,
                KillPhase::WaitForceful,
                state.denied,
                now_ms,
                FORCEFUL_GRACE_MS,
            ),
            KillEvent::SignalDenied => wait_from(
                state,
                KillPhase::WaitForceful,
                true,
                now_ms,
                FORCEFUL_GRACE_MS,
            ),
            KillEvent::SignalGone => resolve(state, KillOutcome::Success),
            KillEvent::SignalFailed(code) => resolve(state, KillOutcome::Failed(code)),
            _ => (state, pending(state.phase)),
        },
        KillPhase::WaitForceful => match event {
            KillEvent::Gone => resolve(state, KillOutcome::Success),
            KillEvent::ProbeFailed(code) => resolve(state, KillOutcome::Failed(code)),
            KillEvent::Alive => if now_ms >= state.deadline_ms {
                if state.denied {
                    resolve(state, KillOutcome::PermissionDenied)
                } else {
                    resolve(state, KillOutcome::TimedOut)
                }
            } else {
                (state, KillAction::SleepThenProbe(POLL_STEP_MS))
            },
            _ => (state, pending(state.phase)),
        },
        KillPhase::Done(_) => (state, pending(state.phase)),
    }
}

/// One observation reported to the machine: what happened, and the clock
/// reading when it happened.
#[derive(Clone, Copy, Debug, PartialEq, Eq, Structural)]
pub struct Observation {
    pub event: KillEvent,
    pub at_ms: u64,
}

/// The state reached from `state` after the observations of `script`.
pub open spec fn state_after(state: KillState, script: Seq<Observation>) -> KillState
    decreases script.len(),
{
    if script.len() == 0 {
        state
    } else {
        state_after(step_spec(state, script[0].event, script[0].at_ms).0, script.drop_first())
    }
}

/// The actions asked for in answer to the observations of `script`, in order.
pub open spec fn actions(state: KillState, script: Seq<Observation>) -> Seq<KillAction>
    decreases script.len(),
{
    if script.len() == 0 {
        Seq::<KillAction>::empty()
    } else {
        let next = step_spec(state, script[0].event, script[0].at_ms);
        seq![next.1] + actions(next.0, script.drop_first())
    }
}

/// Whether an action sends a signal.
pub open spec fn is_signal(action: KillAction) -> bool {
    action == KillAction::SendGraceful || action == KillAction::SendForceful
}

/// Runs a whole attempt against a recorded list of observations and returns
/// the state reached and every action that was asked for along the way.
pub fn replay(script: &Vec<Observation>) -> (end: (KillState, Vec<KillAction>))
    ensures
        end.0 == state_after(initial_state(), script@),
        end.1@ == actions(initial_state(), script@),
{
    let (mut state, _) = start();
    let mut asked: Vec<KillAction> = Vec::new();
    let mut i: usize = 0;
    assert(script@.skip(0) =~= script@);
    assert(asked@ + actions(state, script@.skip(0)) =~= actions(initial_state(), script@));
    while i < script.len()
        invariant
            i <= script.len(),
            state_after(initial_state(), script@) == state_after(state, script@.skip(i as int)),
            actions(initial_state(), script@) == asked@ + actions(state, script@.skip(i as int)),
        decreases script.len() - i,
    {
        let ghost rest = script@.skip(i as int);
        let ghost before = asked@;
        let ghost from = state;
        let ob = script[i];
        let next = step(state, ob.event, ob.at_ms);
        state = next.0;
        asked.push(next.1);
        i = i + 1;
        proof {
            assert(rest[0] == ob);
            assert(rest.drop_first() =~= script@.skip(i as int));
            assert(before + (seq![next.1] + actions(state, script@.skip(i as int))) =~= asked@
                + actions(state, script@.skip(i as int)));
        }
    }
    assert(script@.skip(script.len() as int) =~= Seq::<Observation>::empty());
    assert(asked@ + Seq::<KillAction>::empty() =~= asked@);
    (state, asked)
}

/// Running a script and then one more observation is one more step from
/// where the script ended.
pub proof fn lemma_run_push(state: KillState, script: Seq<Observation>, last: Observation)
    ensures
        state_after(state, script.push(last)) == step_spec(
            state_after(state, script),
            last.event,
            last.at_ms,
        ).0,
        actions(state, script.push(last)) == actions(state, script).push(
            step_spec(state_after(state, script), last.event, last.at_ms).1,
        ),
    decreases script.len(),
{
    let whole = script.push(last);
    if script.len() == 0 {
        let next = step_spec(state, last.event, last.at_ms);
        assert(whole[0] == last);
        assert(whole.drop_first() =~= Seq::<Observation>::empty());
        assert(state_after(next.0, whole.drop_first()) == next.0);
        assert(actions(next.0, whole.drop_first()) =~= Seq::<KillAction>::empty());
        assert(actions(state, whole) =~= actions(state, script).push(next.1));
    } else {
        let next = step_spec(state, script[0].event, script[0].at_ms);
        assert(whole[0] == script[0]);
        assert(whole.drop_first() =~= script.drop_first().push(last));
        lemma_run_push(next.0, script.drop_first(), last);
        assert(actions(state, whole) =~= actions(state, script).push(
            step_spec(state_after(state, script), last.event, last.at_ms).1,
        ));
    }
}

/// Once resolved, an attempt stays resolved with the same outcome and asks
/// for nothing further.
pub proof fn lemma_done_absorbs(state: KillState, outcome: KillOutcome, script: Seq<Observation>)
    requires
        state.phase == KillPhase::Done(outcome),
    ensures
        state_after(state, script) == state,
        actions(state, script).len() == script.len(),
        forall|i: int|
            0 <= i < script.len() ==> #[trigger] actions(state, script)[i] == KillAction::Resolved(
                outcome,
            ),
    decreases script.len(),
{
    if script.len() > 0 {
        lemma_done_absorbs(state, outcome, script.drop_first());
    }
}

/// An attempt on a process that does not exist resolves to `AlreadyExited`
/// on the first probe, and no signal is ever asked for.
pub proof fn lemma_absent_process_is_left_alone(script: Seq<Observation>)
    requires
        script.len() > 0,
        script[0].event == KillEvent::Gone,
    ensures
        state_after(initial_state(), script).phase == KillPhase::Done(KillOutcome::AlreadyExited),
        actions(initial_state(), script).len() == script.len(),
        forall|i: int|
            0 <= i < script.len() ==> !is_signal(#[trigger] actions(initial_state(), script)[i]),
{
    let next = step_spec(initial_state(), script[0].event, script[0].at_ms);
    lemma_done_absorbs(next.0, KillOutcome::AlreadyExited, script.drop_first());
    let rest = actions(next.0, script.drop_first());
    assert forall|i: int| 0 <= i < script.len() implies !is_signal(
        #[trigger] actions(initial_state(), script)[i],
    ) by {
        if i > 0 {
            assert(actions(initial_state(), script)[i] == rest[i - 1]);
        }
    }
}

/// The position of a phase in the order in which an attempt passes through
/// them.
pub open spec fn phase_rank(phase: KillPhase) -> int {
    match phase {
        KillPhase::ExistenceCheck => 0,
        KillPhase::ToctouVerify => 1,
        KillPhase::SignalGraceful => 2,
        KillPhase::WaitGraceful => 3,
        KillPhase::SignalForceful => 4,
        KillPhase::WaitForceful => 5,
        KillPhase::Done(_) => 6,
    }
}

/// An attempt never moves back to an earlier phase.
pub proof fn lemma_phases_only_advance(state: KillState, script: Seq<Observation>)
    ensures
        phase_rank(state.phase) <= phase_rank(state_after(state, script).phase),
    decreases script.len(),
{
    if script.len() > 0 {
        let next = step_spec(state, script[0].event, script[0].at_ms);
        lemma_phases_only_advance(next.0, script.drop_first());
    }
}

/// While an attempt has not gone past the graceful wait, the forceful signal
/// has not been asked for.
pub proof fn lemma_no_forceful_signal_before_timeout(state: KillState, script: Seq<Observation>)
    requires
        phase_rank(state.phase) <= phase_rank(KillPhase::WaitGraceful),
        phase_rank(state_after(state, script).phase) <= phase_rank(KillPhase::WaitGraceful),
    ensures
        actions(state, script).len() == script.len(),
        forall|i: int|
            0 <= i < script.len() ==> #[trigger] actions(state, script)[i]
                != KillAction::SendForceful,
    decreases script.len(),
{
    if script.len() > 0 {
        let next = step_spec(state, script[0].event, script[0].at_ms);
        lemma_phases_only_advance(next.0, script.drop_first());
        lemma_no_forceful_signal_before_timeout(next.0, script.drop_first());
        let rest = actions(next.0, script.drop_first());
        assert forall|i: int| 0 <= i < script.len() implies #[trigger] actions(state, script)[i]
            != KillAction::SendForceful by {
            if i > 0 {
                assert(actions(state, script)[i] == rest[i - 1]);
            }
        }
    }
}

/// A process that exits during the graceful wait resolves to `Success`, and
/// the forceful signal is never asked for.
pub proof fn lemma_exit_during_graceful_wait(script: Seq<Observation>, last: Observation)
    requires
        state_after(initial_state(), script).phase == KillPhase::WaitGraceful,
        last.event == KillEvent::Gone,
    ensures
        state_after(initial_state(), script.push(last)).phase == KillPhase::Done(KillOutcome::Success),
        actions(initial_state(), script.push(last)).len() == script.len() + 1,
        forall|i: int|
            0 <= i <= script.len() ==> #[trigger] actions(initial_state(), script.push(last))[i]
                != KillAction::SendForceful,
{
    lemma_run_push(initial_state(), script, last);
    lemma_no_forceful_signal_before_timeout(initial_state(), script);
}

/// Whether a phase waits for the result of a signal.
pub open spec fn is_signal_phase(phase: KillPhase) -> bool {
    phase == KillPhase::SignalGraceful || phase == KillPhase::SignalForceful
}

/// Whether some signal of the script was refused for lack of permission.
pub open spec fn denial_seen(state: KillState, script: Seq<Observation>) -> bool
    decreases script.len(),
{
    if script.len() == 0 {
        false
    } else {
        denial_seen(state, script.drop_last()) || (script.last().event == KillEvent::SignalDenied
            && is_signal_phase(state_after(state, script.drop_last()).phase))
    }
}

/// The machine remembers exactly the denials that occurred.
pub proof fn lemma_denials_are_remembered(state: KillState, script: Seq<Observation>)
    ensures
        state_after(state, script).denied == (state.denied || denial_seen(state, script)),
    decreases script.len(),
{
    if script.len() > 0 {
        lemma_denials_are_remembered(state, script.drop_last());
        lemma_run_push(state, script.drop_last(), script.last());
        assert(script.drop_last().push(script.last()) =~= script);
    }
}

/// A process that survives both waits resolves to `PermissionDenied` if any
/// signal along the way was refused, and to `TimedOut` otherwise.
pub proof fn lemma_survivor_outcome(script: Seq<Observation>, last: Observation)
    requires
        state_after(initial_state(), script).phase == KillPhase::WaitForceful,
        last.event == KillEvent::Alive,
        last.at_ms >= state_after(initial_state(), script).deadline_ms,
    ensures
        state_after(initial_state(), script.push(last)).phase == KillPhase::Done(
            if denial_seen(initial_state(), script) {
                KillOutcome::PermissionDenied
            } else {
                KillOutcome::TimedOut
            },
        ),
{
    lemma_run_push(initial_state(), script, last);
    lemma_denials_are_remembered(initial_state(), script);
}


/// The most observations any attempt can take before it resolves, provided
/// the caller sleeps as long as it is asked to.
pub const MAX_OBSERVATIONS: usize = 21;

/// Whether `event` is a possible result of carrying out `action`.
pub open spec fn answers(action: KillAction, event: KillEvent) -> bool {
    match action {
        KillAction::ProbeExists | KillAction::SleepThenProbe(_) => event == KillEvent::Alive
            || event == KillEvent::Gone || event is ProbeFailed,
        KillAction::VerifyListener => event == KillEvent::Listening || event
            == KillEvent::NotListening,
        KillAction::SendGraceful | KillAction::SendForceful => event == KillEvent::SignalSent
            || event == KillEvent::SignalGone || event == KillEvent::SignalDenied
            || event is SignalFailed,
        KillAction::Resolved(_) => false,
    }
}

/// How long the caller sleeps when carrying out `action`.
pub open spec fn pause_of(action: KillAction) -> int {
    match action {
        KillAction::SleepThenProbe(millis) => millis as int,
        _ => 0,
    }
}

/// Whether `script` is what a caller can observe who carries out each action
/// it is given, starting with `action` in `state` at clock reading `clock`:
/// every event answers the action before it, and the clock advances at least
/// by every sleep that was asked for.
pub open spec fn faithful(
    state: KillState,
    action: KillAction,
    clock: int,
    script: Seq<Observation>,
) -> bool
    decreases script.len(),
{
    script.len() == 0 || {
        let next = step_spec(state, script[0].event, script[0].at_ms);
        &&& answers(action, script[0].event)
        &&& script[0].at_ms >= clock + pause_of(action)
        &&& faithful(next.0, next.1, script[0].at_ms as int, script.drop_first())
    }
}

/// The number of poll steps needed to cover `millis` milliseconds.
pub open spec fn poll_steps(millis: int) -> int {
    if millis <= 0 {
        0
    } else {
        (millis + POLL_STEP_MS - 1) / (POLL_STEP_MS as int)
    }
}

/// The action fits the state: it is what the state waits on, or, during a
/// wait, a sleep of one poll step followed by a probe.
pub open spec fn coherent(state: KillState, action: KillAction) -> bool {
    action == pending_action(state.phase) || ((state.phase == KillPhase::WaitGraceful
        || state.phase == KillPhase::WaitForceful) && action == KillAction::SleepThenProbe(
        POLL_STEP_MS,
    ))
}

/// An upper bound on the observations still to come.
pub open spec fn remaining(state: KillState, action: KillAction, clock: int) -> int {
    match state.phase {
        KillPhase::ExistenceCheck => 21,
        KillPhase::ToctouVerify => 20,
        KillPhase::SignalGraceful => 19,
        KillPhase::WaitGraceful => 8 + poll_steps(state.deadline_ms - (clock + pause_of(action))),
        KillPhase::SignalForceful => 7,
        KillPhase::WaitForceful => 1 + poll_steps(state.deadline_ms - (clock + pause_of(action))),
        KillPhase::Done(_) => 0,
    }
}

proof fn lemma_observation_uses_up(
    state: KillState,
    action: KillAction,
    clock: int,
    ob: Observation,
)
    requires
        coherent(state, action),
        answers(action, ob.event),
        ob.at_ms >= clock + pause_of(action),
    ensures
        coherent(
            step_spec(state, ob.event, ob.at_ms).0,
            step_spec(state, ob.event, ob.at_ms).1,
        ),
        0 <= remaining(
            step_spec(state, ob.event, ob.at_ms).0,
            step_spec(state, ob.event, ob.at_ms).1,
            ob.at_ms as int,
        ) < remaining(state, action, clock),
{
}

/// A caller that carries out what it is asked makes no more observations
/// than the bound for the state it starts in.
pub proof fn lemma_attempt_is_bounded(
    state: KillState,
    action: KillAction,
    clock: int,
    script: Seq<Observation>,
)
    requires
        coherent(state, action),
        faithful(state, action, clock, script),
    ensures
        script.len() <= remaining(state, action, clock),
        0 <= remaining(state, action, clock),
    decreases script.len(),
{
    if script.len() > 0 {
        let next = step_spec(state, script[0].event, script[0].at_ms);
        lemma_observation_uses_up(state, action, clock, script[0]);
        lemma_attempt_is_bounded(next.0, next.1, script[0].at_ms as int, script.drop_first());
    }
}

/// Every attempt resolves: a caller that carries out what it is asked, and
/// sleeps at least as long as it is asked to, makes at most
/// [`MAX_OBSERVATIONS`] observations, whatever the process does.
pub proof fn lemma_every_attempt_resolves(clock: int, script: Seq<Observation>)
    requires
        faithful(initial_state(), KillAction::ProbeExists, clock, script),
    ensures
        script.len() <= MAX_OBSERVATIONS,
{
    lemma_attempt_is_bounded(initial_state(), KillAction::ProbeExists, clock, script);
}

/// As long as an attempt is not resolved, the action it asks for can be
/// answered; once it is resolved, nothing can.
pub proof fn lemma_only_resolution_ends_an_attempt(state: KillState, event: KillEvent, now: u64)
    ensures
        (step_spec(state, event, now).1 is Resolved) <==> (step_spec(state, event, now).0.phase
            is Done),
        step_spec(state, event, now).0.phase matches KillPhase::Done(outcome) ==> step_spec(
            state,
            event,
            now,
        ).1 == KillAction::Resolved(outcome),
{
}


/// The error number for "no such process".
pub const ESRCH: i32 = 3;

/// The error number for "operation not permitted".
pub const EPERM: i32 = 1;

/// The event that the result of a liveness probe stands for, where the
/// probe reports an error number or none: no error means the process is
/// alive, [`ESRCH`] that it is gone, anything else that the probe failed.
pub fn probe_event(errno: Option<i32>) -> (event: KillEvent)
    ensures
        event == (match errno {
            None => KillEvent::Alive,
            Some(code) => if code == ESRCH {
                KillEvent::Gone
            } else {
                KillEvent::ProbeFailed(code)
            },
        }),
{
    match errno {
        None => KillEvent::Alive,
        Some(code) => if code == ESRCH {
            KillEvent::Gone
        } else {
            KillEvent::ProbeFailed(code)
        },
    }
}

/// The event that the result of sending a signal stands for, where sending
/// reports an error number or none: no error means the signal was sent,
/// [`ESRCH`] that the process is gone, [`EPERM`] that permission was
/// denied, anything else that sending failed.
pub fn signal_event(errno: Option<i32>) -> (event: KillEvent)
    ensures
        event == (match errno {
            None => KillEvent::SignalSent,
            Some(code) => if code == ESRCH {
                KillEvent::SignalGone
            } else if code == EPERM {
                KillEvent::SignalDenied
            } else {
                KillEvent::SignalFailed(code)
            },
        }),
{
    match errno {
        None => KillEvent::SignalSent,
        Some(code) => if code == ESRCH {
            KillEvent::SignalGone
        } else if code == EPERM {
            KillEvent::SignalDenied
        } else {
            KillEvent::SignalFailed(code)
        },
    }
}


/// A sleep is asked for only during a wait that has not reached its
/// deadline, and it lasts one poll step. So a caller that sleeps as long
/// as it is asked to is past a wait no later than one poll step after its
/// deadline.
pub proof fn lemma_sleep_only_before_deadline(state: KillState, event: KillEvent, now: u64)
    ensures
        step_spec(state, event, now).1 matches KillAction::SleepThenProbe(millis) ==> {
            &&& millis == POLL_STEP_MS
            &&& now < state.deadline_ms
            &&& event == KillEvent::Alive
            &&& (state.phase == KillPhase::WaitGraceful || state.phase == KillPhase::WaitForceful)
            &&& step_spec(state, event, now).0 == state
        },
{
}

/// A wait ends no later than its grace period after the signal before it:
/// the deadline of the graceful wait lies at most [`GRACEFUL_GRACE_MS`]
/// after the result of the graceful signal came in, that of the forceful
/// wait at most [`FORCEFUL_GRACE_MS`] after the result of the forceful one.
pub proof fn lemma_deadline_within_grace(state: KillState, event: KillEvent, now: u64)
    ensures
        ({
            let next = step_spec(state, event, now).0;
            &&& (state.phase == KillPhase::SignalGraceful && next.phase == KillPhase::WaitGraceful)
                ==> now <= next.deadline_ms <= now + GRACEFUL_GRACE_MS
            &&& (state.phase == KillPhase::SignalForceful && next.phase == KillPhase::WaitForceful)
                ==> now <= next.deadline_ms <= now + FORCEFUL_GRACE_MS
        }),
{
}

} // verus!
