//! Turning termination outcomes into feedback: one message per single kill,
//! and one aggregated report per batch.

use crate::model::{
    Feedback, FeedbackSeverity, KillFeedback, KillOutcome, KillTarget, Platform, Target,
};
use crate::text::{
    decimal, decimal_digits, has_substring, join, join_strings, lemma_has_substring_extends,
    lemma_join_has_part, push_signed, push_unsigned, unsigned_to_string, views,
};
use vstd::prelude::*;

verus! {

/// How many attempts of a batch ended in each way.
pub struct Tally {
    pub successes: nat,
    pub already: nat,
    pub denied: nat,
    pub timed_out: nat,
    pub failed: nat,
}

/// The tally `t` with one more outcome counted.
pub open spec fn tally_add(t: Tally, outcome: KillOutcome) -> Tally {
    match outcome {
        KillOutcome::Success => Tally { successes: t.successes + 1, ..t },
        KillOutcome::AlreadyExited => Tally { already: t.already + 1, ..t },
        KillOutcome::PermissionDenied => Tally { denied: t.denied + 1, ..t },
        KillOutcome::TimedOut => Tally { timed_out: t.timed_out + 1, ..t },
        KillOutcome::Failed(_) => Tally { failed: t.failed + 1, ..t },
    }
}

/// The tally of a sequence of outcomes.
pub open spec fn tally_of(outcomes: Seq<KillOutcome>) -> Tally
    decreases outcomes.len(),
{
    if outcomes.len() == 0 {
        Tally { successes: 0, already: 0, denied: 0, timed_out: 0, failed: 0 }
    } else {
        tally_add(tally_of(outcomes.drop_last()), outcomes.last())
    }
}

/// The code reported for a denied termination.
pub open spec fn denied_code(platform: Platform) -> int {
    match platform {
        Platform::MacOs => 1,
        Platform::Windows => 5,
    }
}

/// The code reported for a termination that timed out.
pub open spec fn timed_out_code(platform: Platform) -> int {
    match platform {
        Platform::MacOs => 60,
        Platform::Windows => 121,
    }
}

/// The numeric code of an outcome that counts as a failure; `None` for a
/// success and for a process that was already gone.
pub open spec fn failure_code(outcome: KillOutcome, platform: Platform) -> Option<int> {
    match outcome {
        KillOutcome::Success => None,
        KillOutcome::AlreadyExited => None,
        KillOutcome::PermissionDenied => Some(denied_code(platform)),
        KillOutcome::TimedOut => Some(timed_out_code(platform)),
        KillOutcome::Failed(code) => Some(code as int),
    }
}

/// The index of the first failure in execution order, if any.
pub open spec fn first_failure(outcomes: Seq<KillOutcome>, platform: Platform) -> Option<int>
    decreases outcomes.len(),
{
    if outcomes.len() == 0 {
        None
    } else {
        match first_failure(outcomes.drop_last(), platform) {
            Some(i) => Some(i),
            None => if failure_code(outcomes.last(), platform).is_some() {
                Some(outcomes.len() - 1)
            } else {
                None
            },
        }
    }
}

/// The severity of a batch report: `Info` when at least one target was
/// terminated and nothing was denied, timed out or failed; `Error` when no
/// target was terminated; `Warning` otherwise.
pub open spec fn batch_severity(t: Tally) -> FeedbackSeverity {
    if t.successes > 0 && t.denied == 0 && t.timed_out == 0 && t.failed == 0 {
        FeedbackSeverity::Info
    } else if t.successes > 0 {
        FeedbackSeverity::Warning
    } else {
        FeedbackSeverity::Error
    }
}

/// One piece of the report if `count` is positive, nothing otherwise.
pub open spec fn part_if(count: nat, text: Seq<char>) -> Seq<Seq<char>> {
    if count > 0 {
        seq![text]
    } else {
        Seq::<Seq<char>>::empty()
    }
}

/// The pieces of a batch report: one for every count that is not zero, each
/// with its own count, in the order terminated, already stopped, permission
/// denied, timed out, failed.
pub open spec fn batch_parts(t: Tally) -> Seq<Seq<char>> {
    part_if(t.successes, "terminated "@ + decimal_digits(t.successes)) + part_if(
        t.already,
        decimal_digits(t.already) + " already stopped"@,
    ) + part_if(t.denied, decimal_digits(t.denied) + " permission denied"@) + part_if(
        t.timed_out,
        decimal_digits(t.timed_out) + " timed out"@,
    ) + part_if(t.failed, decimal_digits(t.failed) + " failed"@)
}

/// The summary sentence of a batch report.
pub open spec fn batch_summary(t: Tally) -> Seq<char> {
    let parts = batch_parts(t);
    let shown = if parts.len() == 0 {
        seq!["no action taken"@]
    } else {
        parts
    };
    "Kill all: "@ + join(shown, ", "@) + "."@
}

/// The sentence that names the first failure.
pub open spec fn failure_detail(target: Target, code: int) -> Seq<char> {
    " First failure: "@ + target.label + " (PID "@ + decimal(target.pid) + ") \u{e2}\u{20ac}\u{201d} "@
        + decimal(code) + "."@
}

/// The outcomes of a list of results, in order.
pub open spec fn outcomes_of(results: Seq<(KillTarget, KillOutcome)>) -> Seq<KillOutcome> {
    results.map_values(|r: (KillTarget, KillOutcome)| r.1)
}

/// The text of a batch report: the summary, followed by the first failure
/// where there is one.
pub open spec fn batch_message(
    results: Seq<(KillTarget, KillOutcome)>,
    platform: Platform,
) -> Seq<char> {
    let outcomes = outcomes_of(results);
    let summary = batch_summary(tally_of(outcomes));
    match first_failure(outcomes, platform) {
        Some(i) => summary + failure_detail(
            results[i].0@,
            failure_code(outcomes[i], platform).unwrap(),
        ),
        None => summary,
    }
}

/// The report for a batch. A batch without targets yields an `Info` report
/// that no action was taken; otherwise the severity follows the counts.
pub open spec fn batch_feedback(
    results: Seq<(KillTarget, KillOutcome)>,
    platform: Platform,
) -> Feedback {
    Feedback {
        message: batch_message(results, platform),
        severity: if results.len() == 0 {
            FeedbackSeverity::Info
        } else {
            batch_severity(tally_of(outcomes_of(results)))
        },
    }
}

/// The code reported when `platform` denies a termination.
pub fn permission_denied_code(platform: Platform) -> (code: i32)
    ensures
        code == denied_code(platform),
{
    match platform {
        Platform::MacOs => 1,
        Platform::Windows => 5,
    }
}

/// The code reported when a termination on `platform` times out.
pub fn timeout_code(platform: Platform) -> (code: i32)
    ensures
        code == timed_out_code(platform),
{
    match platform {
        Platform::MacOs => 60,
        Platform::Windows => 121,
    }
}

/// The numeric code that goes with a failing outcome.
pub fn outcome_failure_code(outcome: KillOutcome, platform: Platform) -> (code: Option<i32>)
    ensures
        match failure_code(outcome, platform) {
            Some(c) => code == Some(c as i32),
            None => code.is_none(),
        },
{
    match outcome {
        KillOutcome::Success => None,
        KillOutcome::AlreadyExited => None,
        KillOutcome::PermissionDenied => Some(permission_denied_code(platform)),
        KillOutcome::TimedOut => Some(timeout_code(platform)),
        KillOutcome::Failed(code) => Some(code),
    }
}

fn push_part(parts: &mut Vec<String>, part: String)
    ensures
        views(final(parts)@) == views(old(parts)@) + seq![part@],
{
    parts.push(part);
    assert(views(parts@) =~= views(old(parts)@) + seq![part@]);
}

/// The counts of a batch, as kept while its attempts are made.
#[derive(Clone, Copy, Debug)]
pub struct BatchCounts {
    pub successes: usize,
    pub already: usize,
    pub denied: usize,
    pub timed_out: usize,
    pub failed: usize,
    /// Position of the first attempt that carried a failure code.
    pub first_failure: Option<usize>,
}

impl View for BatchCounts {
    type V = Tally;

    open spec fn view(&self) -> Tally {
        Tally {
            successes: self.successes as nat,
            already: self.already as nat,
            denied: self.denied as nat,
            timed_out: self.timed_out as nat,
            failed: self.failed as nat,
        }
    }
}

/// Counts the outcomes of a batch and finds its first failure.
pub fn count_outcomes(results: &Vec<(KillTarget, KillOutcome)>, platform: Platform) -> (counts:
    BatchCounts)
    ensures
        counts@ == tally_of(outcomes_of(results@)),
        counts.successes + counts.already + counts.denied + counts.timed_out + counts.failed
            == results.len(),
        first_failure(outcomes_of(results@), platform) == (match counts.first_failure {
            Some(k) => Some(k as int),
            None => None,
        }),
        counts.first_failure matches Some(k) ==> k < results.len(),
{
    let ghost outcomes = outcomes_of(results@);
    let mut counts = BatchCounts {
        successes: 0,
        already: 0,
        denied: 0,
        timed_out: 0,
        failed: 0,
        first_failure: None,
    };
    let mut i: usize = 0;
    assert(outcomes.take(0) =~= Seq::<KillOutcome>::empty());
    while i < results.len()
        invariant
            i <= results.len(),
            outcomes == outcomes_of(results@),
            counts.successes + counts.already + counts.denied + counts.timed_out + counts.failed
                == i,
            counts@ == tally_of(outcomes.take(i as int)),
            first_failure(outcomes.take(i as int), platform) == (match counts.first_failure {
                Some(k) => Some(k as int),
                None => None,
            }),
            counts.first_failure matches Some(k) ==> k < i,
        decreases results.len() - i,
    {
        let outcome = results[i].1;
        proof {
            assert(outcomes.take(i + 1).drop_last() =~= outcomes.take(i as int));
            assert(outcomes.take(i + 1).last() == outcome);
        }
        match outcome {
            KillOutcome::Success => {
                counts.successes = counts.successes + 1;
            },
            KillOutcome::AlreadyExited => {
                counts.already = counts.already + 1;
            },
            KillOutcome::PermissionDenied => {
                counts.denied = counts.denied + 1;
            },
            KillOutcome::TimedOut => {
                counts.timed_out = counts.timed_out + 1;
            },
            KillOutcome::Failed(_) => {
                counts.failed = counts.failed + 1;
            },
        }
        if counts.first_failure.is_none() && outcome_failure_code(outcome, platform).is_some() {
            counts.first_failure = Some(i);
        }
        i = i + 1;
    }
    assert(outcomes.take(results.len() as int) =~= outcomes);
    counts
}

fn push_count_part(parts: &mut Vec<String>, count: usize, suffix: &str)
    ensures
        views(final(parts)@) == views(old(parts)@) + part_if(
            count as nat,
            decimal_digits(count as nat) + suffix@,
        ),
{
    if count > 0 {
        let mut part = unsigned_to_string(count as u64);
        part.append(suffix);
        push_part(parts, part);
    } else {
        assert(views(parts@) =~= views(old(parts)@) + Seq::<Seq<char>>::empty());
    }
}

/// The summary sentence for the given counts.
pub fn summary_text(counts: &BatchCounts) -> (summary: String)
    ensures
        summary@ == batch_summary(counts@),
{
    let ghost t = counts@;
    let mut parts: Vec<String> = Vec::new();
    assert(views(parts@) =~= Seq::<Seq<char>>::empty());
    if counts.successes > 0 {
        let mut part = String::from_str("terminated ");
        push_unsigned(&mut part, counts.successes as u64);
        push_part(&mut parts, part);
    }
    assert(views(parts@) =~= part_if(t.successes, "terminated "@ + decimal_digits(t.successes)));
    push_count_part(&mut parts, counts.already, " already stopped");
    push_count_part(&mut parts, counts.denied, " permission denied");
    push_count_part(&mut parts, counts.timed_out, " timed out");
    push_count_part(&mut parts, counts.failed, " failed");
    assert(views(parts@) == batch_parts(t));
    if parts.len() == 0 {
        push_part(&mut parts, String::from_str("no action taken"));
        assert(views(parts@) =~= seq!["no action taken"@]);
    }
    let mut summary = String::from_str("Kill all: ");
    let joined = join_strings(&parts, ", ");
    summary.append(joined.as_str());
    summary.append(".");
    summary
}

/// Appends the sentence that names the first failure.
pub fn push_failure_detail(message: &mut String, target: &KillTarget, code: i32)
    ensures
        final(message)@ == old(message)@ + failure_detail(target@, code as int),
{
    message.append(" First failure: ");
    message.append(target.label.as_str());
    message.append(" (PID ");
    push_signed(message, target.pid as i64);
    message.append(") \u{e2}\u{20ac}\u{201d} ");
    push_signed(message, code as i64);
    message.append(".");
    assert(message@ =~= old(message)@ + failure_detail(target@, code as int));
}

/// Builds the report for a batch of termination attempts, given each target
/// together with the outcome of its attempt, in execution order.
///
/// A batch without targets yields an `Info` report that no action was
/// taken. Otherwise the severity is `Info` when at least one target was
/// terminated and none was denied, timed out or failed, `Error` when none
/// was terminated, and `Warning` in between; the text lists every non-zero
/// count and names the first failure.
pub fn handle_batch_kill(results: &Vec<(KillTarget, KillOutcome)>, platform: Platform) -> (feedback:
    KillFeedback)
    ensures
        feedback@ == batch_feedback(results@, platform),
{
    let counts = count_outcomes(results, platform);
    let mut message = summary_text(&counts);
    match counts.first_failure {
        Some(k) => {
            proof {
                lemma_first_failure_fails(outcomes_of(results@), platform);
            }
            let code = match outcome_failure_code(results[k].1, platform) {
                Some(code) => code,
                None => 0,
            };
            push_failure_detail(&mut message, &results[k].0, code);
        },
        None => {},
    }
    let failures: usize = counts.denied + counts.timed_out + counts.failed;
    let severity = if results.len() == 0 || (counts.successes > 0 && failures == 0) {
        FeedbackSeverity::Info
    } else if counts.successes > 0 {
        FeedbackSeverity::Warning
    } else {
        FeedbackSeverity::Error
    };
    KillFeedback::new(message, severity)
}

/// The first failure, when there is one, is an attempt that carries a failure
/// code, and no attempt before it does.
pub proof fn lemma_first_failure_fails(outcomes: Seq<KillOutcome>, platform: Platform)
    ensures
        match first_failure(outcomes, platform) {
            Some(i) => 0 <= i < outcomes.len() && failure_code(outcomes[i], platform).is_some()
                && forall|j: int| 0 <= j < i ==> failure_code(#[trigger] outcomes[j], platform).is_none(),
            None => forall|j: int| 0 <= j < outcomes.len() ==> failure_code(#[trigger] outcomes[j], platform).is_none(),
        },
    decreases outcomes.len(),
{
    if outcomes.len() > 0 {
        lemma_first_failure_fails(outcomes.drop_last(), platform);
        let shorter = outcomes.drop_last();
        assert forall|j: int| 0 <= j < shorter.len() implies shorter[j] == outcomes[j] by {}
    }
}


/// The words that identify a target in a message.
pub open spec fn target_name(target: Target) -> Seq<char> {
    target.label + " (PID "@ + decimal(target.pid) + ")"@
}

/// The feedback for one termination attempt.
pub open spec fn single_feedback(target: Target, outcome: KillOutcome) -> Feedback {
    match outcome {
        KillOutcome::Success => Feedback {
            message: "Terminated "@ + target_name(target) + "."@,
            severity: FeedbackSeverity::Info,
        },
        KillOutcome::AlreadyExited => Feedback {
            message: target_name(target) + " was already stopped."@,
            severity: FeedbackSeverity::Warning,
        },
        KillOutcome::PermissionDenied => Feedback {
            message: "Permission denied terminating "@ + target_name(target) + "."@,
            severity: FeedbackSeverity::Error,
        },
        KillOutcome::TimedOut => Feedback {
            message: "Timed out terminating "@ + target_name(target) + "."@,
            severity: FeedbackSeverity::Error,
        },
        KillOutcome::Failed(code) => Feedback {
            message: "Failed to terminate "@ + target_name(target) + ": "@ + decimal(code as int)
                + "."@,
            severity: FeedbackSeverity::Error,
        },
    }
}

fn push_target_name(message: &mut String, target: &KillTarget)
    ensures
        final(message)@ == old(message)@ + target_name(target@),
{
    message.append(target.label.as_str());
    message.append(" (PID ");
    push_signed(message, target.pid as i64);
    message.append(")");
    assert(message@ =~= old(message)@ + target_name(target@));
}

/// Builds the feedback for one termination attempt from its outcome.
pub fn handle_single_kill(target: &KillTarget, outcome: KillOutcome) -> (feedback: KillFeedback)
    ensures
        feedback@ == single_feedback(target@, outcome),
{
    let mut message = String::new();
    let ghost name = target_name(target@);
    match outcome {
        KillOutcome::Success => {
            message.append("Terminated ");
            push_target_name(&mut message, target);
            message.append(".");
            assert(message@ =~= "Terminated "@ + name + "."@);
            KillFeedback::info(message)
        },
        KillOutcome::AlreadyExited => {
            push_target_name(&mut message, target);
            message.append(" was already stopped.");
            assert(message@ =~= name + " was already stopped."@);
            KillFeedback::warning(message)
        },
        KillOutcome::PermissionDenied => {
            message.append("Permission denied terminating ");
            push_target_name(&mut message, target);
            message.append(".");
            assert(message@ =~= "Permission denied terminating "@ + name + "."@);
            KillFeedback::error(message)
        },
        KillOutcome::TimedOut => {
            message.append("Timed out terminating ");
            push_target_name(&mut message, target);
            message.append(".");
            assert(message@ =~= "Timed out terminating "@ + name + "."@);
            KillFeedback::error(message)
        },
        KillOutcome::Failed(code) => {
            message.append("Failed to terminate ");
            push_target_name(&mut message, target);
            message.append(": ");
            push_signed(&mut message, code as i64);
            message.append(".");
            assert(message@ =~= "Failed to terminate "@ + name + ": "@ + decimal(code as int)
                + "."@);
            KillFeedback::error(message)
        },
    }
}

/// The severity of a report over at least one target is `Info` exactly when
/// something was terminated and nothing was denied, timed out or failed; it
/// is `Error` exactly when nothing was terminated; and `Warning` in every
/// other case.
pub proof fn lemma_batch_severity(results: Seq<(KillTarget, KillOutcome)>, platform: Platform)
    requires
        results.len() > 0,
    ensures
        ({
            let t = tally_of(outcomes_of(results));
            let severity = batch_feedback(results, platform).severity;
            &&& severity == FeedbackSeverity::Info <==> (t.successes > 0 && t.denied == 0
                && t.timed_out == 0 && t.failed == 0)
            &&& severity == FeedbackSeverity::Error <==> t.successes == 0
            &&& severity == FeedbackSeverity::Warning <==> (t.successes > 0 && (t.denied > 0
                || t.timed_out > 0 || t.failed > 0))
        }),
{
}

/// The counts of a tally add up to the number of outcomes.
pub proof fn lemma_tally_total(outcomes: Seq<KillOutcome>)
    ensures
        ({
            let t = tally_of(outcomes);
            t.successes + t.already + t.denied + t.timed_out + t.failed == outcomes.len()
        }),
    decreases outcomes.len(),
{
    if outcomes.len() > 0 {
        lemma_tally_total(outcomes.drop_last());
    }
}

/// The report over at least one target mentions every count that is not
/// zero, each with its own number and its own words: the number terminated,
/// already stopped, denied, timed out and failed.
pub proof fn lemma_batch_message_mentions(
    results: Seq<(KillTarget, KillOutcome)>,
    platform: Platform,
)
    requires
        results.len() > 0,
    ensures
        ({
            let t = tally_of(outcomes_of(results));
            let message = batch_feedback(results, platform).message;
            &&& t.successes > 0 ==> has_substring(
                message,
                "terminated "@ + decimal_digits(t.successes),
            )
            &&& t.already > 0 ==> has_substring(
                message,
                decimal_digits(t.already) + " already stopped"@,
            )
            &&& t.denied > 0 ==> has_substring(
                message,
                decimal_digits(t.denied) + " permission denied"@,
            )
            &&& t.timed_out > 0 ==> has_substring(
                message,
                decimal_digits(t.timed_out) + " timed out"@,
            )
            &&& t.failed > 0 ==> has_substring(message, decimal_digits(t.failed) + " failed"@)
        }),
{
    let t = tally_of(outcomes_of(results));
    let message = batch_feedback(results, platform).message;
    let parts = batch_parts(t);
    let p1 = part_if(t.successes, "terminated "@ + decimal_digits(t.successes));
    let p2 = part_if(t.already, decimal_digits(t.already) + " already stopped"@);
    let p3 = part_if(t.denied, decimal_digits(t.denied) + " permission denied"@);
    let p4 = part_if(t.timed_out, decimal_digits(t.timed_out) + " timed out"@);
    let p5 = part_if(t.failed, decimal_digits(t.failed) + " failed"@);
    assert(parts == p1 + p2 + p3 + p4 + p5);
    let tail = match first_failure(outcomes_of(results), platform) {
        Some(i) => "."@ + failure_detail(
            results[i].0@,
            failure_code(outcomes_of(results)[i], platform).unwrap(),
        ),
        None => "."@,
    };
    assert forall|k: int| 0 <= k < parts.len() implies has_substring(message, parts[k]) by {
        lemma_join_has_part(parts, ", "@, k);
        lemma_has_substring_extends("Kill all: "@, join(parts, ", "@), tail, parts[k]);
        assert("Kill all: "@ + join(parts, ", "@) + tail =~= message);
    }
    if t.successes > 0 {
        assert(parts[0] == "terminated "@ + decimal_digits(t.successes));
    }
    if t.already > 0 {
        assert(parts[p1.len() as int] == decimal_digits(t.already) + " already stopped"@);
    }
    if t.denied > 0 {
        assert(parts[(p1.len() + p2.len()) as int] == decimal_digits(t.denied) + " permission denied"@);
    }
    if t.timed_out > 0 {
        assert(parts[(p1.len() + p2.len() + p3.len()) as int] == decimal_digits(t.timed_out)
            + " timed out"@);
    }
    if t.failed > 0 {
        assert(parts[(p1.len() + p2.len() + p3.len() + p4.len()) as int] == decimal_digits(
            t.failed,
        ) + " failed"@);
    }
}


/// A batch in progress: the attempts made so far, in the order in which
/// they were made, and the targets still to come.
///
/// The targets are taken one at a time, from the front. A batch without
/// targets asks for no attempt at all.
#[derive(Debug)]
pub struct BatchRun {
    pub done: Vec<(KillTarget, KillOutcome)>,
    pub pending: Vec<KillTarget>,
}

impl BatchRun {
    /// A batch over `targets`, none of them attempted yet.
    pub fn new(targets: Vec<KillTarget>) -> (run: BatchRun)
        ensures
            run.done@.len() == 0,
            run.pending == targets,
    {
        BatchRun { done: Vec::new(), pending: targets }
    }

    /// The process to terminate next: that of the first target still to
    /// come. `None` once every target has been attempted.
    pub fn next_pid(&self) -> (pid: Option<i32>)
        ensures
            pid == (if self.pending@.len() > 0 {
                Some(self.pending@[0].pid)
            } else {
                None
            }),
    {
        if self.pending.len() > 0 {
            Some(self.pending[0].pid)
        } else {
            None
        }
    }

    /// Notes the outcome of the attempt on the first target still to come.
    /// With no target left, nothing changes.
    pub fn record(&mut self, outcome: KillOutcome)
        ensures
            old(self).pending@.len() > 0 ==> {
                &&& final(self).done@ == old(self).done@.push((old(self).pending@[0], outcome))
                &&& final(self).pending@ == old(self).pending@.drop_first()
            },
            old(self).pending@.len() == 0 ==> {
                &&& final(self).done@ == old(self).done@
                &&& final(self).pending@ == old(self).pending@
            },
    {
        if self.pending.len() > 0 {
            let target = self.pending.remove(0);
            self.done.push((target, outcome));
            assert(self.pending@ =~= old(self).pending@.drop_first());
        }
    }

    /// The report over the attempts made so far.
    pub fn report(&self, platform: Platform) -> (feedback: KillFeedback)
        ensures
            feedback@ == batch_feedback(self.done@, platform),
    {
        handle_batch_kill(&self.done, platform)
    }
}

} // verus!
