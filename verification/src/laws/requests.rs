//! What the requests on units of work come to: what each answers and leaves, by what it was given.
use vstd::prelude::*;

use crate::error::{views, Error, Fault};
use crate::failure::{ErrorInfo, FailureClass};
use crate::json::json_reading;
use crate::laws::claims::{
    all_others_stay, free_work_is_handed_out, is_last_with_id, keeps_the_artifact,
    only_a_backoff_puts_claims_off, only_a_live_lease_turns_claims_away,
    only_listed_classes_are_retried, only_steps_differ, only_tasks_differ,
    reports_overrule_the_policy, reports_the_failure, runs_under, same_task_otherwise,
    step_claims_concern_one_step, step_completions_keep_artifacts, step_failures_concern_one_step,
    still_to_come, stored_after, succeeded_work_tells_its_output, terminal_work_tells_its_error,
    told_by_the_harness, used_up_work_fails_for_good,
};
use crate::ledger::{Ledger, LedgerState};
use crate::retry::{backoff_delay, retries, PolicyState, RetryPolicy};
use crate::steps::claim_of;
use crate::time::{datetime_text, Moment};
use crate::types::{
    BeginRequest, BeginStepRequest, CompleteRequest, CompleteStepRequest, FailRequest,
    FailStepRequest, HeartbeatRequest, HeartbeatStepRequest,
};
use crate::unified::claim_made;
use crate::work::{begun, policy_of, ClaimState, Outcome, Status, StoredErrorState, WorkState};

verus! {

/// The step under the key, if it is known.
pub open spec fn step_at(state: LedgerState, key: Seq<Seq<char>>) -> Option<WorkState> {
    if state.steps.contains_key(key) {
        Some(state.steps[key])
    } else {
        None
    }
}

/// The work under the key: that of the registered task where there is one, else the step.
pub open spec fn unit_at(state: LedgerState, key: Seq<Seq<char>>) -> Option<WorkState> {
    if state.tasks.contains_key(key) {
        Some(state.tasks[key].work)
    } else {
        step_at(state, key)
    }
}

/// The stores differ in the step under the key at most.
pub open spec fn only_the_step_differs(
    before: LedgerState,
    after: LedgerState,
    key: Seq<Seq<char>>,
) -> bool {
    &&& only_steps_differ(before, after)
    &&& all_others_stay(before.steps, after.steps, key)
}

/// The stores differ in the work under the key at most: of a registered task in nothing else, and
/// where none is registered in the step.
pub open spec fn only_the_unit_differs(
    before: LedgerState,
    after: LedgerState,
    key: Seq<Seq<char>>,
) -> bool {
    if before.tasks.contains_key(key) {
        &&& only_tasks_differ(before, after)
        &&& all_others_stay(before.tasks, after.tasks, key)
        &&& after.tasks.contains_key(key)
        &&& same_task_otherwise(before.tasks[key], after.tasks[key])
    } else {
        only_the_step_differs(before, after, key)
    }
}

/// The work is running, and its lease has not lapsed.
pub open spec fn is_held(work: WorkState, now: Moment) -> bool {
    work.status is Running && still_to_come(work.lease_expires_at, now)
}

/// The work failed and is not to be tried again yet.
pub open spec fn is_waiting(work: WorkState, now: Moment) -> bool {
    work.status is Failed && still_to_come(work.retry_at, now)
}

/// The work neither succeeded nor failed for good.
pub open spec fn is_open(work: WorkState) -> bool {
    !(work.status is Succeeded) && !(work.status is Terminal)
}

/// What a claim on known work is answered, and what it leaves of the work.
pub open spec fn claim_answered(
    work: WorkState,
    left: WorkState,
    claim: ClaimState,
    now: Moment,
    outcome: Result<Outcome, Error>,
) -> bool {
    &&& (outcome matches Ok(Outcome::InProgress)) <==> is_held(work, now)
    &&& outcome matches Ok(Outcome::SkipCompleted { .. }) ==> work.status is Succeeded
    &&& (outcome matches Ok(Outcome::RetryLater { .. })) <==> is_waiting(work, now) && work.attempt
        < claim.retry.max_attempts
    &&& (outcome matches Ok(Outcome::Execute { .. })) <==> is_open(work) && !is_held(work, now)
        && !is_waiting(work, now) && work.attempt < claim.retry.max_attempts
    &&& is_open(work) && !is_held(work, now) && work.attempt >= claim.retry.max_attempts ==> {
        &&& outcome matches Ok(Outcome::FailedTerminal { error })
        &&& told_by_the_harness(
            error@,
            "MaxAttemptsExceeded"@,
            "step exceeded retry policy max_attempts"@,
        )
        &&& left == (WorkState {
            status: Status::Terminal,
            updated_at: datetime_text(now.secs),
            ..work
        })
    }
    &&& !is_open(work) || is_held(work, now) || (is_waiting(work, now) && work.attempt
        < claim.retry.max_attempts) ==> left == work
    &&& outcome matches Ok(Outcome::RetryLater { retry_at }) ==> work.retry_at == Some(retry_at@)
    &&& outcome matches Ok(Outcome::Execute { attempt }) ==> {
        &&& attempt == work.attempt + 1
        &&& runs_under(left, work, attempt, claim, now)
    }
    &&& work.status is Succeeded && work.output_json is None ==> {
        &&& outcome matches Ok(Outcome::SkipCompleted { output })
        &&& output@ == "null"@
    }
    &&& work.status is Succeeded && work.output_json is Some ==> match json_reading(
        work.output_json->0,
    ) {
        Ok(value) => outcome matches Ok(Outcome::SkipCompleted { output }) && output@ == value,
        Err(message) => outcome matches Err(error) && error@ == Fault::Sqlite(
            "Conversion error from type Text at index: 0, "@ + message,
        ),
    }
    &&& work.status is Terminal ==> match work.error {
        StoredErrorState::Present(reported) => outcome matches Ok(
            Outcome::FailedTerminal { error },
        ) && error@ == reported,
        StoredErrorState::Absent => outcome matches Ok(Outcome::FailedTerminal { error })
            && told_by_the_harness(error@, "StepFailed"@, "step failed"@),
        StoredErrorState::Damaged(message) => outcome matches Err(error) && error@
            == Fault::Sqlite("Conversion error from type Text at index: 0, "@ + message),
    }
}

/// What a claim is answered, be the work known or not. Work that is not known is handed out.
pub open spec fn begin_answered(
    before: Option<WorkState>,
    after: Option<WorkState>,
    claim: ClaimState,
    now: Moment,
    outcome: Result<Outcome, Error>,
) -> bool {
    &&& after matches Some(left)
    &&& before matches Some(work) ==> claim_answered(work, left, claim, now, outcome)
    &&& before is None ==> {
        &&& outcome matches Ok(Outcome::Execute { attempt })
        &&& attempt == 1
        &&& runs_under(left, left, 1, claim, now)
        &&& left.started_at == Some(datetime_text(now.secs))
        &&& left.output_json is None
        &&& left.error is Absent
        &&& left.completed_at is None
    }
}

proof fn lemma_claim_answered(
    work: WorkState,
    claim: ClaimState,
    now: Moment,
    outcome: Result<Outcome, Error>,
)
    requires
        crate::error::result_view(outcome) == begun(work, claim, now).1,
    ensures
        claim_answered(work, begun(work, claim, now).0, claim, now, outcome),
{
    only_a_live_lease_turns_claims_away(work, claim, now);
    only_a_backoff_puts_claims_off(work, claim, now);
    if work.status is Succeeded {
        succeeded_work_tells_its_output(work, claim, now);
    } else if work.status is Terminal {
        terminal_work_tells_its_error(work, claim, now);
    } else if is_held(work, now) {
    } else if work.attempt >= claim.retry.max_attempts {
        used_up_work_fails_for_good(work, claim, now);
    } else if !is_waiting(work, now) {
        free_work_is_handed_out(work, claim, now);
    }
}

/// Whoever asks to begin a unit of work is answered by what became of it so far, and changes that
/// work alone. Only a lease that has not lapsed turns the caller away; where it has lapsed, or there
/// is none, used-up attempts end the work for good, a backoff puts the caller off, and else the work
/// is handed out.
pub proof fn begin_goes_by_what_the_work_says(
    ledger: &mut Ledger,
    req: BeginRequest,
    now: Moment,
    outcome: Result<Outcome, Error>,
)
    requires
        call_ensures(Ledger::begin_at, (ledger, req, now), outcome),
    ensures
        ({
            let key = seq![req.run_id@, req.kind@, req.input_digest@];
            &&& only_the_unit_differs(old(ledger)@, final(ledger)@, key)
            &&& begin_answered(
                unit_at(old(ledger)@, key),
                unit_at(final(ledger)@, key),
                claim_made(req),
                now,
                outcome,
            )
            &&& claim_made(req).retry.max_attempts == req.retry.max_attempts
        }),
{
    let key = seq![req.run_id@, req.kind@, req.input_digest@];
    let state = old(ledger)@;
    crate::laws::claims::claims_concern_one_unit(state, key, claim_made(req), now);
    step_claims_concern_one_step(state, key, claim_made(req), now);
    if let Some(work) = unit_at(state, key) {
        lemma_claim_answered(work, claim_made(req), now, outcome);
    }
}

/// Whoever asks to begin a step is answered by what became of it so far, and changes that step
/// alone, as for any unit of work.
pub proof fn begin_step_goes_by_what_the_step_says(
    ledger: &mut Ledger,
    req: BeginStepRequest,
    now: Moment,
    outcome: Result<Outcome, Error>,
)
    requires
        call_ensures(Ledger::begin_step_at, (ledger, req, now), outcome),
    ensures
        ({
            let key = seq![req.run_id@, req.step_name@, req.input_digest@];
            &&& only_the_step_differs(old(ledger)@, final(ledger)@, key)
            &&& begin_answered(
                step_at(old(ledger)@, key),
                step_at(final(ledger)@, key),
                claim_of(req),
                now,
                outcome,
            )
            &&& claim_of(req).retry.max_attempts == req.retry.max_attempts
        }),
{
    let key = seq![req.run_id@, req.step_name@, req.input_digest@];
    let state = old(ledger)@;
    step_claims_concern_one_step(state, key, claim_of(req), now);
    if let Some(work) = step_at(state, key) {
        lemma_claim_answered(work, claim_of(req), now, outcome);
    }
}

/// Requests to begin that are answered by the clock are answered as for some time that it can show.
pub proof fn begin_goes_by_the_clock(
    ledger: &mut Ledger,
    req: BeginRequest,
    outcome: Result<Outcome, Error>,
)
    requires
        call_ensures(Ledger::begin, (ledger, req), outcome),
    ensures
        exists|now: Moment| #[trigger]
            now.valid() && ({
                let key = seq![req.run_id@, req.kind@, req.input_digest@];
                &&& only_the_unit_differs(old(ledger)@, final(ledger)@, key)
                &&& begin_answered(
                    unit_at(old(ledger)@, key),
                    unit_at(final(ledger)@, key),
                    claim_made(req),
                    now,
                    outcome,
                )
            }),
{
    let key = seq![req.run_id@, req.kind@, req.input_digest@];
    let state = old(ledger)@;
    let now = choose|now: Moment| #[trigger]
        now.valid() && final(ledger)@ == crate::unified::work_begun(
            state,
            key,
            claim_made(req),
            now,
        ).0 && crate::error::result_view(outcome) == crate::unified::work_begun(
            state,
            key,
            claim_made(req),
            now,
        ).1;
    crate::laws::claims::claims_concern_one_unit(state, key, claim_made(req), now);
    step_claims_concern_one_step(state, key, claim_made(req), now);
    if let Some(work) = unit_at(state, key) {
        lemma_claim_answered(work, claim_made(req), now, outcome);
    }
    assert(now.valid());
}

/// Requests to begin a step that are answered by the clock are answered as for some time that it can
/// show.
pub proof fn begin_step_goes_by_the_clock(
    ledger: &mut Ledger,
    req: BeginStepRequest,
    outcome: Result<Outcome, Error>,
)
    requires
        call_ensures(Ledger::begin_step, (ledger, req), outcome),
    ensures
        exists|now: Moment| #[trigger]
            now.valid() && ({
                let key = seq![req.run_id@, req.step_name@, req.input_digest@];
                &&& only_the_step_differs(old(ledger)@, final(ledger)@, key)
                &&& begin_answered(
                    step_at(old(ledger)@, key),
                    step_at(final(ledger)@, key),
                    claim_of(req),
                    now,
                    outcome,
                )
            }),
{
    let key = seq![req.run_id@, req.step_name@, req.input_digest@];
    let state = old(ledger)@;
    let now = choose|now: Moment| #[trigger]
        now.valid() && final(ledger)@ == crate::steps::step_begun(
            state,
            key,
            claim_of(req),
            now,
        ).0 && crate::error::result_view(outcome) == crate::steps::step_begun(
            state,
            key,
            claim_of(req),
            now,
        ).1;
    step_claims_concern_one_step(state, key, claim_of(req), now);
    if let Some(work) = step_at(state, key) {
        lemma_claim_answered(work, claim_of(req), now, outcome);
    }
    assert(now.valid());
}

/// The worker has the lease on running work.
pub open spec fn has_the_lease(unit: Option<WorkState>, worker_id: Seq<char>) -> bool {
    unit matches Some(work) && work.status is Running && work.lease_owner == Some(worker_id)
}

/// What a heartbeat is answered, and what it leaves of the work.
pub open spec fn beat_answered(
    before: Option<WorkState>,
    after: Option<WorkState>,
    worker_id: Seq<char>,
    lease_seconds: u32,
    now: Moment,
    kept: Result<bool, Error>,
) -> bool {
    &&& kept == Ok::<bool, Error>(has_the_lease(before, worker_id))
    &&& kept == Ok::<bool, Error>(true) ==> after == Some(
        WorkState {
            lease_expires_at: stored_after(now, lease_seconds as int),
            heartbeat_at: Some(datetime_text(now.secs)),
            ..before->0
        },
    )
}

/// A heartbeat is kept exactly if the work under its key is running and leased to the worker that it
/// names, however often that worker was heard of before; it then moves the end of the lease, and one
/// that is not kept changes nothing.
pub proof fn heartbeats_of_the_holder_are_kept(
    ledger: &mut Ledger,
    req: HeartbeatRequest,
    now: Moment,
    kept: Result<bool, Error>,
)
    requires
        call_ensures(Ledger::heartbeat_at, (ledger, req, now), kept),
    ensures
        ({
            let key = seq![req.run_id@, req.kind@, req.input_digest@];
            &&& only_the_unit_differs(old(ledger)@, final(ledger)@, key)
            &&& kept != Ok::<bool, Error>(true) ==> final(ledger)@ == old(ledger)@
            &&& beat_answered(
                unit_at(old(ledger)@, key),
                unit_at(final(ledger)@, key),
                req.worker_id@,
                req.lease_seconds,
                now,
                kept,
            )
        }),
{
}

/// A heartbeat on a step is kept exactly if the step is running and leased to the worker that it
/// names, as for any unit of work.
pub proof fn heartbeats_of_the_steps_holder_are_kept(
    ledger: &mut Ledger,
    req: HeartbeatStepRequest,
    now: Moment,
    kept: Result<bool, Error>,
)
    requires
        call_ensures(Ledger::heartbeat_step_at, (ledger, req, now), kept),
    ensures
        ({
            let key = seq![req.run_id@, req.step_name@, req.input_digest@];
            &&& only_the_step_differs(old(ledger)@, final(ledger)@, key)
            &&& kept != Ok::<bool, Error>(true) ==> final(ledger)@ == old(ledger)@
            &&& beat_answered(
                step_at(old(ledger)@, key),
                step_at(final(ledger)@, key),
                req.worker_id@,
                req.lease_seconds,
                now,
                kept,
            )
        }),
{
}

/// A heartbeat that is kept does not keep the next one of the same worker from being kept.
pub proof fn a_heartbeat_follows_a_heartbeat(
    first: &mut Ledger,
    second: &mut Ledger,
    req: HeartbeatRequest,
    again: HeartbeatRequest,
    now: Moment,
    later: Moment,
    kept: Result<bool, Error>,
    kept_again: Result<bool, Error>,
)
    requires
        call_ensures(Ledger::heartbeat_at, (first, req, now), kept),
        *old(second) == *final(first),
        call_ensures(Ledger::heartbeat_at, (second, again, later), kept_again),
        again.run_id@ == req.run_id@,
        again.kind@ == req.kind@,
        again.input_digest@ == req.input_digest@,
        again.worker_id@ == req.worker_id@,
    ensures
        kept_again == kept,
{
}

/// Heartbeats that are answered by the clock are answered as for some time that it can show.
pub proof fn heartbeats_go_by_the_clock(
    ledger: &mut Ledger,
    req: HeartbeatRequest,
    kept: Result<bool, Error>,
)
    requires
        call_ensures(Ledger::heartbeat, (ledger, req), kept),
    ensures
        kept != Ok::<bool, Error>(true) ==> final(ledger)@ == old(ledger)@,
        exists|now: Moment| #[trigger]
            now.valid() && ({
                let key = seq![req.run_id@, req.kind@, req.input_digest@];
                &&& only_the_unit_differs(old(ledger)@, final(ledger)@, key)
                &&& beat_answered(
                    unit_at(old(ledger)@, key),
                    unit_at(final(ledger)@, key),
                    req.worker_id@,
                    req.lease_seconds,
                    now,
                    kept,
                )
            }),
{
}

/// Heartbeats on a step that are answered by the clock are answered as for some time that it can
/// show.
pub proof fn step_heartbeats_go_by_the_clock(
    ledger: &mut Ledger,
    req: HeartbeatStepRequest,
    kept: Result<bool, Error>,
)
    requires
        call_ensures(Ledger::heartbeat_step, (ledger, req), kept),
    ensures
        kept != Ok::<bool, Error>(true) ==> final(ledger)@ == old(ledger)@,
        exists|now: Moment| #[trigger]
            now.valid() && ({
                let key = seq![req.run_id@, req.step_name@, req.input_digest@];
                &&& only_the_step_differs(old(ledger)@, final(ledger)@, key)
                &&& beat_answered(
                    step_at(old(ledger)@, key),
                    step_at(final(ledger)@, key),
                    req.worker_id@,
                    req.lease_seconds,
                    now,
                    kept,
                )
            }),
{
}

/// The failure is retried: its report says so, or says nothing, and its class stands in the policy's
/// list of what is retried and not in its list of what is terminal.
pub open spec fn is_retried(
    retryable: Option<bool>,
    class: FailureClass,
    policy: PolicyState,
) -> bool {
    ||| retryable == Some(true)
    ||| {
        &&& retryable is None
        &&& exists|i: int| 0 <= i < policy.retryable.len() && #[trigger] policy.retryable[i] == class
        &&& forall|i: int| 0 <= i < policy.terminal.len() ==> #[trigger] policy.terminal[i] != class
    }
}

proof fn lemma_is_retried(policy: PolicyState, error: ErrorInfo)
    ensures
        retries(policy, error@) == is_retried(error.retryable, error.failure_class, policy),
{
    if error.retryable is Some {
        reports_overrule_the_policy(policy, error@);
    } else {
        only_listed_classes_are_retried(policy, error@);
    }
}

/// A policy decides on a failure by the report, and where that says nothing by its own two lists and
/// nothing else: a class that it does not list is not retried.
pub proof fn policies_decide_by_their_lists(policy: &RetryPolicy, error: &ErrorInfo, retried: bool)
    requires
        call_ensures(RetryPolicy::retries, (policy, error), retried),
    ensures
        error.retryable is Some ==> retried == error.retryable->0,
        error.retryable is None ==> (retried <==> {
            &&& exists|i: int|
                0 <= i < policy.retryable@.len() && #[trigger] policy.retryable@[i]
                    == error.failure_class
            &&& forall|i: int|
                0 <= i < policy.terminal@.len() ==> #[trigger] policy.terminal@[i]
                    != error.failure_class
        }),
{
    lemma_is_retried(policy@, *error);
}

/// A report that names an attempt or a worker names those that the work is held under.
pub open spec fn still_good(
    work: WorkState,
    attempt: Option<u32>,
    worker_id: Option<String>,
) -> bool {
    &&& attempt is None || attempt->0 == work.attempt
    &&& worker_id is None || (work.lease_owner is Some && work.lease_owner->0 == worker_id->0@)
}

/// The work has succeeded with that output, and keeps what it was begun with.
pub open spec fn is_completed(
    work: WorkState,
    left: WorkState,
    output: Seq<char>,
    now: Moment,
) -> bool {
    left == (WorkState {
        status: Status::Succeeded,
        output_json: Some(output),
        error: StoredErrorState::Absent,
        lease_owner: None,
        lease_expires_at: None,
        completed_at: Some(datetime_text(now.secs)),
        updated_at: datetime_text(now.secs),
        ..work
    })
}

/// The request changes nothing, and is told that fault.
pub open spec fn is_refused(
    before: LedgerState,
    after: LedgerState,
    done: Result<(), Error>,
    fault: Fault,
) -> bool {
    &&& after == before
    &&& done is Err
    &&& done->Err_0@ == fault
}

/// What a completion of a unit of work is answered, and what it leaves.
pub open spec fn completion_answered(
    before: LedgerState,
    req: CompleteRequest,
    now: Moment,
    after: LedgerState,
    done: Result<(), Error>,
) -> bool {
    let key = seq![req.run_id@, req.kind@, req.input_digest@];
    match unit_at(before, key) {
        None => is_refused(before, after, done, Fault::TaskNotFound),
        Some(work) => if still_good(work, req.attempt, req.worker_id) {
            &&& done is Ok
            &&& only_the_unit_differs(before, after, key)
            &&& unit_at(after, key) matches Some(left)
            &&& is_completed(work, left, req.output@, now)
        } else {
            is_refused(before, after, done, Fault::TaskClaimLost)
        },
    }
}

/// A completion is taken of every known unit of work whose claim is still good, and ends that work
/// with the output that it names; any other changes nothing, and is told why.
pub proof fn completions_end_the_work(
    ledger: &mut Ledger,
    req: CompleteRequest,
    now: Moment,
    done: Result<(), Error>,
)
    requires
        call_ensures(Ledger::complete_at, (ledger, req, now), done),
    ensures
        completion_answered(old(ledger)@, req, now, final(ledger)@, done),
{
}

/// Completions that are answered by the clock are answered as for some time that it can show.
pub proof fn completions_go_by_the_clock(
    ledger: &mut Ledger,
    req: CompleteRequest,
    done: Result<(), Error>,
)
    requires
        call_ensures(Ledger::complete, (ledger, req), done),
    ensures
        exists|now: Moment| #[trigger]
            now.valid() && completion_answered(old(ledger)@, req, now, final(ledger)@, done),
{
}

/// The failed work keeps the report, gives the lease up, and is open again only if the failure is
/// retried: after the backoff, rounded up to seconds.
pub open spec fn is_failed(
    work: WorkState,
    left: WorkState,
    error: ErrorInfo,
    now: Moment,
    seed: u64,
) -> bool {
    let policy = policy_of(work);
    let delay = backoff_delay(policy, work.attempt as nat, seed as nat);
    let retried = is_retried(error.retryable, error.failure_class, policy);
    &&& left == (WorkState {
        status: if retried {
            Status::Failed
        } else {
            Status::Terminal
        },
        error: StoredErrorState::Present(error@),
        lease_owner: None,
        lease_expires_at: None,
        retry_at: left.retry_at,
        completed_at: Some(datetime_text(now.secs)),
        updated_at: datetime_text(now.secs),
        ..work
    })
    &&& !retried || delay == 0 ==> left.retry_at is None
    &&& forall|seconds: int|
        retried && delay > 0 && 1000 * seconds >= delay && 1000 * seconds < delay + 1000
            ==> left.retry_at == #[trigger] stored_after(now, seconds)
}

proof fn lemma_is_failed(work: WorkState, error: ErrorInfo, now: Moment, seed: u64)
    ensures
        is_failed(work, crate::work::failed(work, error@, now, seed as nat), error, now, seed),
{
    lemma_is_retried(policy_of(work), error);
    let delay = backoff_delay(policy_of(work), work.attempt as nat, seed as nat);
    let seconds = (delay + 999) / 1000;
    crate::laws::claims::failure_is_kept_and_scheduled(
        work,
        error@,
        now,
        seed as nat,
        seconds as nat,
    );
}

/// What a failure of a unit of work is answered, and what it leaves.
pub open spec fn failure_answered(
    before: LedgerState,
    req: FailRequest,
    now: Moment,
    seed: u64,
    after: LedgerState,
    done: Result<(), Error>,
) -> bool {
    let key = seq![req.run_id@, req.kind@, req.input_digest@];
    match unit_at(before, key) {
        None => is_refused(before, after, done, Fault::TaskNotFound),
        Some(work) => if still_good(work, req.attempt, req.worker_id) {
            &&& done is Ok
            &&& only_the_unit_differs(
                before,
                LedgerState { failures: before.failures, ..after },
                key,
            )
            &&& unit_at(after, key) matches Some(left)
            &&& is_failed(work, left, req.error, now, seed)
            &&& after.failures.len() == before.failures.len() + 1
            &&& after.failures.drop_last() == before.failures
            &&& reports_the_failure(after.failures.last(), key, work, req.error@, now)
            &&& after.failures.last().retryable == is_retried(
                req.error.retryable,
                req.error.failure_class,
                policy_of(work),
            )
        } else {
            is_refused(before, after, done, Fault::TaskClaimLost)
        },
    }
}

proof fn lemma_failure_answered(
    before: LedgerState,
    req: FailRequest,
    now: Moment,
    seed: u64,
    after: LedgerState,
    done: Result<(), Error>,
)
    requires
        ({
            let key = seq![req.run_id@, req.kind@, req.input_digest@];
            (after, crate::error::result_view(done)) == crate::unified::work_failed(
                before,
                key,
                req.attempt,
                crate::text::opt_text(req.worker_id),
                req.error@,
                now,
                seed as nat,
            )
        }),
    ensures
        failure_answered(before, req, now, seed, after, done),
{
    let key = seq![req.run_id@, req.kind@, req.input_digest@];
    crate::laws::claims::failures_concern_one_unit(
        before,
        key,
        req.attempt,
        crate::text::opt_text(req.worker_id),
        req.error@,
        now,
        seed as nat,
    );
    step_failures_concern_one_step(before, key, req.error@, now, seed as nat);
    if let Some(work) = unit_at(before, key) {
        lemma_is_failed(work, req.error, now, seed);
        lemma_is_retried(policy_of(work), req.error);
    }
}

/// A failure is taken of every known unit of work whose claim is still good. The work may be tried
/// again exactly if the report or the policy that it was begun with says so, and the failure is
/// added to those of the run; any other report changes nothing, and is told why.
pub proof fn failures_end_the_attempt(
    ledger: &mut Ledger,
    req: FailRequest,
    now: Moment,
    seed: u64,
    done: Result<(), Error>,
)
    requires
        call_ensures(Ledger::fail_at, (ledger, req, now, seed), done),
    ensures
        failure_answered(old(ledger)@, req, now, seed, final(ledger)@, done),
{
    lemma_failure_answered(old(ledger)@, req, now, seed, final(ledger)@, done);
}

/// Failures that are answered by the clock are answered as for some time that it can show, and some
/// fraction of a second to draw the jitter from.
pub proof fn failures_go_by_the_clock(
    ledger: &mut Ledger,
    req: FailRequest,
    done: Result<(), Error>,
)
    requires
        call_ensures(Ledger::fail, (ledger, req), done),
    ensures
        exists|now: Moment, seed: u64|
            #![trigger now.valid(), crate::live::seeded(seed)]
            now.valid() && seed < 1_000_000_000 && failure_answered(
                old(ledger)@,
                req,
                now,
                seed,
                final(ledger)@,
                done,
            ),
{
    let key = seq![req.run_id@, req.kind@, req.input_digest@];
    let (now, seed) = choose|now: Moment, seed: u64|
        #![trigger now.valid(), crate::live::seeded(seed)]
        now.valid() && crate::live::seeded(seed) && (
            final(ledger)@,
            crate::error::result_view(done),
        ) == crate::unified::work_failed(
            old(ledger)@,
            key,
            req.attempt,
            crate::text::opt_text(req.worker_id),
            req.error@,
            now,
            seed as nat,
        );
    lemma_failure_answered(old(ledger)@, req, now, seed, final(ledger)@, done);
    assert(now.valid() && crate::live::seeded(seed));
}

/// One of the artifacts that the request gives has the id.
pub open spec fn gives_artifact(req: CompleteStepRequest, id: Seq<char>) -> bool {
    exists|i: int|
        0 <= i < req.artifacts@.len() && (#[trigger] req.artifacts@[i]).artifact_id@ == id
}

/// What a completion of a step is answered, and what it leaves of the step and of each artifact.
pub open spec fn step_completion_answered(
    before: LedgerState,
    req: CompleteStepRequest,
    now: Moment,
    after: LedgerState,
    done: Result<(), Error>,
) -> bool {
    let key = seq![req.run_id@, req.step_name@, req.input_digest@];
    let made = views(req.artifacts@);
    match step_at(before, key) {
        None => is_refused(before, after, done, Fault::StepNotFound),
        Some(work) => if forall|i: int|
            0 <= i < req.artifacts@.len() ==> (#[trigger] req.artifacts@[i]).size
                <= 0x7fff_ffff_ffff_ffff {
            &&& done is Ok
            &&& only_the_step_differs(
                before,
                LedgerState { artifacts: before.artifacts, ..after },
                key,
            )
            &&& step_at(after, key) matches Some(left)
            &&& is_completed(work, left, req.output@, now)
            &&& forall|id: Seq<char>, i: int| #[trigger]
                is_last_with_id(made, i, id) ==> after.artifacts.contains_key(seq![id])
                    && keeps_the_artifact(after.artifacts[seq![id]], key, req.artifacts@[i]@, now)
            &&& forall|id: Seq<char>|
                !(#[trigger] gives_artifact(req, id)) ==> after.artifacts.contains_key(seq![id])
                    == before.artifacts.contains_key(seq![id]) && after.artifacts[seq![id]]
                    == before.artifacts[seq![id]]
        } else {
            is_refused(
                before,
                after,
                done,
                Fault::Sqlite("out of range integral type conversion attempted"@),
            )
        },
    }
}

proof fn lemma_step_completion_answered(
    before: LedgerState,
    req: CompleteStepRequest,
    now: Moment,
    after: LedgerState,
    done: Result<(), Error>,
)
    requires
        ({
            let key = seq![req.run_id@, req.step_name@, req.input_digest@];
            (after, crate::error::result_view(done)) == crate::steps::step_completed(
                before,
                key,
                req.output@,
                views(req.artifacts@),
                now,
            )
        }),
    ensures
        step_completion_answered(before, req, now, after, done),
{
    let key = seq![req.run_id@, req.step_name@, req.input_digest@];
    let made = views(req.artifacts@);
    assert forall|i: int| 0 <= i < made.len() implies #[trigger] made[i] == req.artifacts@[i]@ by {}
    if forall|i: int|
        0 <= i < req.artifacts@.len() ==> (#[trigger] req.artifacts@[i]).size
            <= 0x7fff_ffff_ffff_ffff {
        assert forall|i: int| 0 <= i < made.len() implies (#[trigger] made[i]).size
            <= 0x7fff_ffff_ffff_ffff by {
            assert(req.artifacts@[i].size <= 0x7fff_ffff_ffff_ffff);
        }
    } else {
        let i = choose|i: int|
            0 <= i < req.artifacts@.len() && (#[trigger] req.artifacts@[i]).size
                > 0x7fff_ffff_ffff_ffff;
        assert(made[i].size > 0x7fff_ffff_ffff_ffff);
    }
    step_completions_keep_artifacts(before, key, req.output@, made, now, Seq::empty());
    if step_at(before, key) is Some && done is Ok {
        assert forall|id: Seq<char>, i: int| #[trigger]
            is_last_with_id(made, i, id) implies after.artifacts.contains_key(seq![id])
            && keeps_the_artifact(after.artifacts[seq![id]], key, req.artifacts@[i]@, now) by {
            step_completions_keep_artifacts(before, key, req.output@, made, now, id);
        }
        assert forall|id: Seq<char>| !(#[trigger] gives_artifact(req, id)) implies after.artifacts
            .contains_key(seq![id]) == before.artifacts.contains_key(seq![id])
            && after.artifacts[seq![id]] == before.artifacts[seq![id]] by {
            assert forall|i: int| 0 <= i < made.len() implies (#[trigger] made[i]).artifact_id
                != id by {
                assert(req.artifacts@[i].artifact_id@ != id);
            }
            step_completions_keep_artifacts(before, key, req.output@, made, now, id);
        }
    }
}

/// A completion is taken of every known step whose artifacts fit, and ends the step with the output
/// and the artifacts that it names; any other changes nothing, and is told why.
pub proof fn step_completions_end_the_step(
    ledger: &mut Ledger,
    req: CompleteStepRequest,
    now: Moment,
    done: Result<(), Error>,
)
    requires
        call_ensures(Ledger::complete_step_at, (ledger, req, now), done),
    ensures
        step_completion_answered(old(ledger)@, req, now, final(ledger)@, done),
{
    lemma_step_completion_answered(old(ledger)@, req, now, final(ledger)@, done);
}

/// Completions of steps that are answered by the clock are answered as for some time that it can
/// show.
pub proof fn step_completions_go_by_the_clock(
    ledger: &mut Ledger,
    req: CompleteStepRequest,
    done: Result<(), Error>,
)
    requires
        call_ensures(Ledger::complete_step, (ledger, req), done),
    ensures
        exists|now: Moment| #[trigger]
            now.valid() && step_completion_answered(old(ledger)@, req, now, final(ledger)@, done),
{
    let key = seq![req.run_id@, req.step_name@, req.input_digest@];
    let now = choose|now: Moment| #[trigger]
        now.valid() && (final(ledger)@, crate::error::result_view(done))
            == crate::steps::step_completed(
            old(ledger)@,
            key,
            req.output@,
            views(req.artifacts@),
            now,
        );
    lemma_step_completion_answered(old(ledger)@, req, now, final(ledger)@, done);
    assert(now.valid());
}

/// What a failure of a step is answered, and what it leaves.
pub open spec fn step_failure_answered(
    before: LedgerState,
    req: FailStepRequest,
    now: Moment,
    seed: u64,
    after: LedgerState,
    done: Result<(), Error>,
) -> bool {
    let key = seq![req.run_id@, req.step_name@, req.input_digest@];
    match step_at(before, key) {
        None => is_refused(before, after, done, Fault::StepNotFound),
        Some(work) => {
            &&& done is Ok
            &&& only_the_step_differs(
                before,
                LedgerState { failures: before.failures, ..after },
                key,
            )
            &&& step_at(after, key) matches Some(left)
            &&& is_failed(work, left, req.error, now, seed)
            &&& after.failures.len() == before.failures.len() + 1
            &&& after.failures.drop_last() == before.failures
            &&& reports_the_failure(after.failures.last(), key, work, req.error@, now)
            &&& after.failures.last().retryable == is_retried(
                req.error.retryable,
                req.error.failure_class,
                policy_of(work),
            )
        },
    }
}

proof fn lemma_step_failure_answered(
    before: LedgerState,
    req: FailStepRequest,
    now: Moment,
    seed: u64,
    after: LedgerState,
    done: Result<(), Error>,
)
    requires
        ({
            let key = seq![req.run_id@, req.step_name@, req.input_digest@];
            (after, crate::error::result_view(done)) == crate::steps::step_failed(
                before,
                key,
                req.error@,
                now,
                seed as nat,
            )
        }),
    ensures
        step_failure_answered(before, req, now, seed, after, done),
{
    let key = seq![req.run_id@, req.step_name@, req.input_digest@];
    step_failures_concern_one_step(before, key, req.error@, now, seed as nat);
    if let Some(work) = step_at(before, key) {
        lemma_is_failed(work, req.error, now, seed);
        lemma_is_retried(policy_of(work), req.error);
    }
}

/// A failure is taken of every known step, as for any unit of work; a step that is not known is not
/// found, and nothing changes.
pub proof fn step_failures_end_the_attempt(
    ledger: &mut Ledger,
    req: FailStepRequest,
    now: Moment,
    seed: u64,
    done: Result<(), Error>,
)
    requires
        call_ensures(Ledger::fail_step_at, (ledger, req, now, seed), done),
    ensures
        step_failure_answered(old(ledger)@, req, now, seed, final(ledger)@, done),
{
    lemma_step_failure_answered(old(ledger)@, req, now, seed, final(ledger)@, done);
}

/// Failures of steps that are answered by the clock are answered as for some time that it can show,
/// and some fraction of a second to draw the jitter from.
pub proof fn step_failures_go_by_the_clock(
    ledger: &mut Ledger,
    req: FailStepRequest,
    done: Result<(), Error>,
)
    requires
        call_ensures(Ledger::fail_step, (ledger, req), done),
    ensures
        exists|now: Moment, seed: u64|
            #![trigger now.valid(), crate::live::seeded(seed)]
            now.valid() && seed < 1_000_000_000 && step_failure_answered(
                old(ledger)@,
                req,
                now,
                seed,
                final(ledger)@,
                done,
            ),
{
    let key = seq![req.run_id@, req.step_name@, req.input_digest@];
    let (now, seed) = choose|now: Moment, seed: u64|
        #![trigger now.valid(), crate::live::seeded(seed)]
        now.valid() && crate::live::seeded(seed) && (
            final(ledger)@,
            crate::error::result_view(done),
        ) == crate::steps::step_failed(old(ledger)@, key, req.error@, now, seed as nat);
    lemma_step_failure_answered(old(ledger)@, req, now, seed, final(ledger)@, done);
    assert(now.valid() && crate::live::seeded(seed));
}

} // verus!
