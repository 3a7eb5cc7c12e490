//! What each request on a unit of work makes of it, whatever the work and the request say.
use vstd::prelude::*;

use crate::error::Fault;
use crate::failure::{ErrorState, FailureClass};
use crate::json::{json_reading, list_text};
use crate::ledger::LedgerState;
use crate::retry::{backoff_delay, retries, PolicyState};
use crate::rows::{ArtifactState, FailureState, TaskState};
use crate::steps::{
    artifacts_kept, claim_of, step_beaten, step_begun, step_completed, step_failed,
};
use crate::time::{datetime_text, rfc3339_moment, Moment};
use crate::types::{ArtifactInput, BeginRequest, BeginStepRequest};
use crate::unified::{claim_made, work_beaten, work_begun, work_completed, work_failed};
use crate::work::{
    beaten, begun, claim_stands, completed, failed, fresh, owned, policy_of, ClaimState,
    OutcomeState, Status, StoredErrorState, WorkState,
};

verus! {

/// The seconds and nanoseconds since 1970 that a stored timestamp names, read in UTC: a `T` stands
/// for each of its blanks, and a `Z` at its end.
pub open spec fn instant(timestamp: Seq<char>) -> Option<(i64, u32)> {
    rfc3339_moment(
        Seq::new(
            timestamp.len() + 1,
            |i: int|
                if i == timestamp.len() {
                    'Z'
                } else if timestamp[i] == ' ' {
                    'T'
                } else {
                    timestamp[i]
                },
        ),
    )
}

/// There is a timestamp, it can be read, and it names a time later than `now`.
pub open spec fn still_to_come(timestamp: Option<Seq<char>>, now: Moment) -> bool {
    &&& timestamp matches Some(text)
    &&& instant(text) matches Some((secs, nanos))
    &&& secs > now.secs || (secs == now.secs && nanos > now.nanos)
}

/// The time `seconds` after `now` as it is stored; nothing past the last second of the year 9999.
pub open spec fn stored_after(now: Moment, seconds: int) -> Option<Seq<char>> {
    if now.secs + seconds <= 253_402_300_799 {
        Some(datetime_text((now.secs + seconds) as i64))
    } else {
        None
    }
}

proof fn lemma_instant(timestamp: Seq<char>)
    ensures
        instant(timestamp) == rfc3339_moment(crate::time::rfc3339_form(timestamp)),
{
    assert(crate::time::rfc3339_form(timestamp) =~= Seq::new(
        timestamp.len() + 1,
        |i: int|
            if i == timestamp.len() {
                'Z'
            } else if timestamp[i] == ' ' {
                'T'
            } else {
                timestamp[i]
            },
    ));
}

proof fn lemma_still_to_come(timestamp: Option<Seq<char>>, now: Moment)
    ensures
        still_to_come(timestamp, now) == crate::time::lease_holds(timestamp, now),
{
    if let Some(text) = timestamp {
        lemma_instant(text);
    }
}

/// The error that the harness itself reports, and never retries.
pub open spec fn told_by_the_harness(
    error: ErrorState,
    error_type: Seq<char>,
    message: Seq<char>,
) -> bool {
    &&& error.error_type == error_type
    &&& error.message == message
    &&& error.failure_class is DurableHarnessError
    &&& error.stack is None
    &&& error.retryable == Some(false)
}

/// Work that succeeded is left as it is by every claim, and the claim is told its output: the value
/// that the stored text reads as, JSON's `null` where nothing is stored, and the fault of the
/// column where what is stored cannot be read.
pub proof fn succeeded_work_tells_its_output(work: WorkState, claim: ClaimState, now: Moment)
    requires
        work.status is Succeeded,
    ensures
        begun(work, claim, now).0 == work,
        work.output_json is None ==> begun(work, claim, now).1 == Ok::<OutcomeState, Fault>(
            OutcomeState::SkipCompleted { output: "null"@ },
        ),
        work.output_json matches Some(text) ==> match json_reading(text) {
            Ok(output) => begun(work, claim, now).1 == Ok::<OutcomeState, Fault>(
                OutcomeState::SkipCompleted { output },
            ),
            Err(message) => begun(work, claim, now).1 == Err::<OutcomeState, Fault>(
                Fault::Sqlite("Conversion error from type Text at index: 0, "@ + message),
            ),
        },
{
    reveal_strlit("null");
    assert("null"@ =~= crate::json::null_text());
}

/// Work that failed for good is left as it is by every claim, and the claim is told the error that
/// was reported, or that the step failed where none was.
pub proof fn terminal_work_tells_its_error(work: WorkState, claim: ClaimState, now: Moment)
    requires
        work.status is Terminal,
    ensures
        begun(work, claim, now).0 == work,
        work.error matches StoredErrorState::Present(error) ==> begun(work, claim, now).1 == Ok::<
            OutcomeState,
            Fault,
        >(OutcomeState::FailedTerminal { error }),
        work.error is Absent ==> {
            &&& begun(work, claim, now).1 matches Ok(OutcomeState::FailedTerminal { error })
            &&& told_by_the_harness(error, "StepFailed"@, "step failed"@)
        },
        work.error matches StoredErrorState::Damaged(message) ==> begun(work, claim, now).1
            == Err::<OutcomeState, Fault>(
            Fault::Sqlite("Conversion error from type Text at index: 0, "@ + message),
        ),
{
}

/// A claim is told that work is in progress exactly if the work is running under a lease that has
/// not lapsed, and then changes nothing. Once the lease has lapsed nobody is turned away for it.
pub proof fn only_a_live_lease_turns_claims_away(work: WorkState, claim: ClaimState, now: Moment)
    ensures
        begun(work, claim, now).1 == Ok::<OutcomeState, Fault>(OutcomeState::InProgress) <==> (
        work.status is Running && still_to_come(work.lease_expires_at, now)),
        work.status is Running && still_to_come(work.lease_expires_at, now) ==> begun(
            work,
            claim,
            now,
        ).0 == work,
{
    lemma_still_to_come(work.lease_expires_at, now);
}

/// Work that is pending, has failed, or runs under a lapsed lease, and that has used up the attempts
/// that the claim allows, fails for good: the claim is told so, and of the work nothing changes but
/// its status and when it was last written. So a crash on the last attempt is not waited for.
pub proof fn used_up_work_fails_for_good(work: WorkState, claim: ClaimState, now: Moment)
    requires
        !(work.status is Succeeded),
        !(work.status is Terminal),
        !(work.status is Running && still_to_come(work.lease_expires_at, now)),
        work.attempt >= claim.retry.max_attempts,
    ensures
        begun(work, claim, now).1 matches Ok(OutcomeState::FailedTerminal { error })
            && told_by_the_harness(
            error,
            "MaxAttemptsExceeded"@,
            "step exceeded retry policy max_attempts"@,
        ),
        begun(work, claim, now).0 == (WorkState {
            status: Status::Terminal,
            updated_at: datetime_text(now.secs),
            ..work
        }),
{
    lemma_still_to_come(work.lease_expires_at, now);
}

/// A claim is told to come back later exactly if the work failed, has an attempt left, and the time
/// of its retry is still to come; it is told that time, and changes nothing.
pub proof fn only_a_backoff_puts_claims_off(work: WorkState, claim: ClaimState, now: Moment)
    ensures
        (begun(work, claim, now).1 matches Ok(OutcomeState::RetryLater { .. })) <==> (
        work.status is Failed && work.attempt < claim.retry.max_attempts && still_to_come(
            work.retry_at,
            now,
        )),
        begun(work, claim, now).1 matches Ok(OutcomeState::RetryLater { retry_at }) ==> {
            &&& work.retry_at == Some(retry_at)
            &&& begun(work, claim, now).0 == work
        },
{
    lemma_still_to_come(work.lease_expires_at, now);
    lemma_still_to_come(work.retry_at, now);
}

/// Work that is not finished, not held, not waiting and has an attempt left is handed out: on the
/// next attempt, under a lease of the claim's own length or else five minutes, to the worker that
/// the claim names. It keeps when it was first started, its output and its error.
pub proof fn free_work_is_handed_out(work: WorkState, claim: ClaimState, now: Moment)
    requires
        !(work.status is Succeeded),
        !(work.status is Terminal),
        !(work.status is Running && still_to_come(work.lease_expires_at, now)),
        !(work.status is Failed && still_to_come(work.retry_at, now)),
        work.attempt < claim.retry.max_attempts,
    ensures
        begun(work, claim, now).1 == Ok::<OutcomeState, Fault>(
            OutcomeState::Execute { attempt: (work.attempt + 1) as u32 },
        ),
        runs_under(begun(work, claim, now).0, work, (work.attempt + 1) as u32, claim, now),
{
    lemma_still_to_come(work.lease_expires_at, now);
    lemma_still_to_come(work.retry_at, now);
}

/// The work runs on that attempt under the claim, and is else as it was before.
pub open spec fn runs_under(
    after: WorkState,
    before: WorkState,
    attempt: u32,
    claim: ClaimState,
    now: Moment,
) -> bool {
    let seconds = match claim.lease_seconds {
        Some(seconds) => seconds as int,
        None => 300,
    };
    &&& after.status is Running
    &&& after.attempt == attempt
    &&& after.config_json == claim.config
    &&& after.dependencies_json == list_text(claim.dependencies)
    &&& after.variants_json == claim.variants
    &&& after.retry == Some(claim.retry)
    &&& after.lease_owner == claim.worker_id
    &&& after.lease_acquired_at == Some(datetime_text(now.secs))
    &&& after.lease_expires_at == stored_after(now, seconds)
    &&& after.heartbeat_at == Some(datetime_text(now.secs))
    &&& after.retry_at is None
    &&& after.started_at is Some
    &&& before.started_at is Some ==> after.started_at == before.started_at
    &&& before.started_at is None ==> after.started_at == Some(datetime_text(now.secs))
    &&& after.updated_at == datetime_text(now.secs)
    &&& after.output_json == before.output_json
    &&& after.error == before.error
    &&& after.completed_at == before.completed_at
}

/// The two stores differ in the steps at most.
pub open spec fn only_steps_differ(before: LedgerState, after: LedgerState) -> bool {
    after == (LedgerState { steps: after.steps, ..before })
}

/// The two stores differ in the tasks at most.
pub open spec fn only_tasks_differ(before: LedgerState, after: LedgerState) -> bool {
    after == (LedgerState { tasks: after.tasks, ..before })
}

/// The task in one store is that in the other with another state of its work.
pub open spec fn same_task_otherwise(before: TaskState, after: TaskState) -> bool {
    after == (TaskState { work: after.work, ..before })
}

/// Each key is known to both maps or to neither, and all but the one hold the same.
pub open spec fn all_others_stay<V>(
    before: Map<Seq<Seq<char>>, V>,
    after: Map<Seq<Seq<char>>, V>,
    key: Seq<Seq<char>>,
) -> bool {
    forall|other: Seq<Seq<char>>|
        #![trigger after.contains_key(other)]
        #![trigger after[other]]
        other != key ==> after.contains_key(other) == before.contains_key(other) && (
        before.contains_key(other) ==> after[other] == before[other])
}

/// A claim on a step, known or not, concerns that step alone. A known one becomes what the claim
/// makes of its work; an unknown one is created and handed out on its first attempt, whatever the
/// claim allows.
pub proof fn step_claims_concern_one_step(
    state: LedgerState,
    key: Seq<Seq<char>>,
    claim: ClaimState,
    now: Moment,
)
    ensures
        ({
            let (after, told) = step_begun(state, key, claim, now);
            &&& only_steps_differ(state, after)
            &&& all_others_stay(state.steps, after.steps, key)
            &&& after.steps.contains_key(key)
            &&& state.steps.contains_key(key) ==> (after.steps[key], told) == begun(
                state.steps[key],
                claim,
                now,
            )
            &&& !state.steps.contains_key(key) ==> {
                &&& told == Ok::<OutcomeState, Fault>(OutcomeState::Execute { attempt: 1 })
                &&& runs_under(after.steps[key], after.steps[key], 1, claim, now)
                &&& after.steps[key].started_at == Some(datetime_text(now.secs))
                &&& after.steps[key].output_json is None
                &&& after.steps[key].error is Absent
                &&& after.steps[key].completed_at is None
            }
        }),
{
}

/// A claim on a unit of work concerns the registered task where there is one, and else the step; of
/// the task nothing but its work.
pub proof fn claims_concern_one_unit(
    state: LedgerState,
    key: Seq<Seq<char>>,
    claim: ClaimState,
    now: Moment,
)
    ensures
        ({
            let (after, told) = work_begun(state, key, claim, now);
            &&& state.tasks.contains_key(key) ==> {
                &&& only_tasks_differ(state, after)
                &&& all_others_stay(state.tasks, after.tasks, key)
                &&& after.tasks.contains_key(key)
                &&& same_task_otherwise(state.tasks[key], after.tasks[key])
                &&& (after.tasks[key].work, told) == begun(state.tasks[key].work, claim, now)
            }
            &&& !state.tasks.contains_key(key) ==> (after, told) == step_begun(
                state,
                key,
                claim,
                now,
            )
        }),
{
}

/// A request to begin claims what it says: its own configuration, dependencies, policy, worker and
/// lease, and for a step its variants.
pub proof fn requests_claim_what_they_say(step: BeginStepRequest, any: BeginRequest)
    ensures
        claim_of(step).config == step.config@,
        claim_of(step).dependencies.len() == step.dependencies@.len(),
        forall|i: int|
            0 <= i < step.dependencies@.len() ==> #[trigger] claim_of(step).dependencies[i]
                == step.dependencies@[i]@,
        claim_of(step).variants == step.variants@,
        claim_of(step).retry == step.retry@,
        claim_of(step).worker_id is Some <==> step.worker_id is Some,
        step.worker_id matches Some(worker) ==> claim_of(step).worker_id == Some(worker@),
        claim_of(step).lease_seconds == step.lease_seconds,
        claim_made(any).config == any.config@,
        claim_made(any).dependencies.len() == any.dependencies@.len(),
        forall|i: int|
            0 <= i < any.dependencies@.len() ==> #[trigger] claim_made(any).dependencies[i]
                == any.dependencies@[i]@,
        claim_made(any).variants == "{}"@,
        claim_made(any).retry == any.retry@,
        claim_made(any).worker_id is Some <==> any.worker_id is Some,
        any.worker_id matches Some(worker) ==> claim_made(any).worker_id == Some(worker@),
        claim_made(any).lease_seconds == any.lease_seconds,
{
}

/// Completed work has succeeded with that output and without an error, at that time; its lease is
/// given up, and what it was begun with stays.
pub proof fn completion_keeps_the_output(work: WorkState, output: Seq<char>, now: Moment)
    ensures
        ({
            let after = completed(work, output, now);
            &&& after.status is Succeeded
            &&& after.output_json == Some(output)
            &&& after.error is Absent
            &&& after.lease_owner is None
            &&& after.lease_expires_at is None
            &&& after.completed_at == Some(datetime_text(now.secs))
            &&& after.updated_at == datetime_text(now.secs)
            &&& after.attempt == work.attempt
            &&& after.started_at == work.started_at
            &&& after.retry == work.retry
            &&& after.retry_at == work.retry_at
            &&& after.config_json == work.config_json
            &&& after.dependencies_json == work.dependencies_json
            &&& after.variants_json == work.variants_json
            &&& after.lease_acquired_at == work.lease_acquired_at
            &&& after.heartbeat_at == work.heartbeat_at
        }),
{
}

/// A failure is retried as its own report says, where it says so, whatever the policy.
pub proof fn reports_overrule_the_policy(policy: PolicyState, error: ErrorState)
    requires
        error.retryable is Some,
    ensures
        retries(policy, error) <==> error.retryable == Some(true),
{
}

/// Without a say of its own a failure is retried exactly if its class stands somewhere in the
/// policy's list of what is retried, and nowhere in its list of what is terminal. Nothing is
/// retried that the policy does not list.
pub proof fn only_listed_classes_are_retried(policy: PolicyState, error: ErrorState)
    requires
        error.retryable is None,
    ensures
        (forall|i: int|
            0 <= i < policy.retryable.len() ==> #[trigger] policy.retryable[i]
                != error.failure_class) ==> !retries(policy, error),
        (exists|i: int|
            0 <= i < policy.terminal.len() && #[trigger] policy.terminal[i]
                == error.failure_class) ==> !retries(policy, error),
        (exists|i: int|
            0 <= i < policy.retryable.len() && #[trigger] policy.retryable[i]
                == error.failure_class) && (forall|i: int|
            0 <= i < policy.terminal.len() ==> #[trigger] policy.terminal[i]
                != error.failure_class) ==> retries(policy, error),
{
}

/// Taking a class out of what a policy retries, or putting it among what is terminal, never makes a
/// failure retried that was not; and of the rest of the policy the decision does not depend.
pub proof fn narrower_policies_retry_less(
    policy: PolicyState,
    narrower: PolicyState,
    error: ErrorState,
)
    requires
        forall|class: FailureClass| #[trigger]
            narrower.retryable.contains(class) ==> policy.retryable.contains(class),
        forall|class: FailureClass| #[trigger]
            policy.terminal.contains(class) ==> narrower.terminal.contains(class),
    ensures
        retries(narrower, error) ==> retries(policy, error),
{
}

/// A failure is decided on by the policy that the work was begun with. Work that has none has two
/// attempts, no backoff, and retries what is transient or wants a resource.
pub proof fn the_policy_is_the_one_begun_with(work: WorkState)
    ensures
        work.retry matches Some(policy) ==> policy_of(work) == policy,
        work.retry is None ==> {
            let policy = policy_of(work);
            &&& policy.max_attempts == 2
            &&& policy.base_delay_ms == 0
            &&& policy.max_delay_ms == 0
            &&& !policy.jitter
            &&& policy.terminal.len() == 0
            &&& forall|class: FailureClass| #[trigger]
                policy.retryable.contains(class) <==> class is Transient
                    || class is ResourceUnavailable
        },
{
    let list = crate::retry::default_retryable();
    assert(list[0] == FailureClass::Transient);
    assert(list[1] == FailureClass::ResourceUnavailable);
}

/// Failed work keeps the error that was reported, at that time, and gives its lease up. If the
/// failure is retried it may be begun again, after the backoff in milliseconds rounded up to whole
/// seconds, and at once where that is none; if not, it failed for good. Its attempt, its output and
/// what it was begun with stay.
pub proof fn failure_is_kept_and_scheduled(
    work: WorkState,
    error: ErrorState,
    now: Moment,
    seed: nat,
    seconds: nat,
)
    requires
        1000 * seconds >= backoff_delay(policy_of(work), work.attempt as nat, seed),
        1000 * seconds < backoff_delay(policy_of(work), work.attempt as nat, seed) + 1000,
    ensures
        ({
            let after = failed(work, error, now, seed);
            &&& retries(policy_of(work), error) ==> after.status is Failed
            &&& !retries(policy_of(work), error) ==> after.status is Terminal
            &&& after.error == StoredErrorState::Present(error)
            &&& after.lease_owner is None
            &&& after.lease_expires_at is None
            &&& retries(policy_of(work), error) && seconds > 0 ==> after.retry_at == stored_after(
                now,
                seconds as int,
            )
            &&& !retries(policy_of(work), error) || seconds == 0 ==> after.retry_at is None
            &&& after.completed_at == Some(datetime_text(now.secs))
            &&& after.updated_at == datetime_text(now.secs)
            &&& after.attempt == work.attempt
            &&& after.output_json == work.output_json
            &&& after.started_at == work.started_at
            &&& after.retry == work.retry
            &&& after.config_json == work.config_json
            &&& after.dependencies_json == work.dependencies_json
            &&& after.variants_json == work.variants_json
            &&& after.lease_acquired_at == work.lease_acquired_at
            &&& after.heartbeat_at == work.heartbeat_at
        }),
{
}

/// A worker holds work exactly if it is running and the lease is in the worker's name. Neither how
/// long it has held it nor how often it was heard of matters, nor whether the lease has lapsed.
pub proof fn the_named_worker_holds_running_work(work: WorkState, worker_id: Seq<char>)
    ensures
        owned(work, worker_id) <==> (work.status is Running && work.lease_owner is Some
            && work.lease_owner->0 == worker_id),
{
}

/// A heartbeat moves the end of the lease to as long after it as it asks, notes when it came, and
/// changes nothing else of the work.
pub proof fn heartbeats_move_the_lease(work: WorkState, lease_seconds: nat, now: Moment)
    ensures
        beaten(work, lease_seconds, now) == (WorkState {
            lease_expires_at: stored_after(now, lease_seconds as int),
            heartbeat_at: Some(datetime_text(now.secs)),
            ..work
        }),
{
}

/// The store after the worker's heartbeats on the step under the key, one after the other.
pub open spec fn after_step_beats(
    state: LedgerState,
    key: Seq<Seq<char>>,
    worker_id: Seq<char>,
    beats: Seq<(nat, Moment)>,
) -> LedgerState
    decreases beats.len(),
{
    if beats.len() == 0 {
        state
    } else {
        step_beaten(
            after_step_beats(state, key, worker_id, beats.drop_last()),
            key,
            worker_id,
            beats.last().0,
            beats.last().1,
        ).0
    }
}

/// The store after the worker's heartbeats on the unit of work under the key, one after the other.
pub open spec fn after_beats(
    state: LedgerState,
    key: Seq<Seq<char>>,
    worker_id: Seq<char>,
    beats: Seq<(nat, Moment)>,
) -> LedgerState
    decreases beats.len(),
{
    if beats.len() == 0 {
        state
    } else {
        work_beaten(
            after_beats(state, key, worker_id, beats.drop_last()),
            key,
            worker_id,
            beats.last().0,
            beats.last().1,
        ).0
    }
}

/// A worker that was handed a step keeps it for as long as it is heard of: after any number of its
/// heartbeats the next one is kept too, and holds the step for as long as it asks.
pub proof fn step_is_kept_by_heartbeats(
    state: LedgerState,
    key: Seq<Seq<char>>,
    claim: ClaimState,
    worker_id: Seq<char>,
    attempt: u32,
    now: Moment,
    beats: Seq<(nat, Moment)>,
    lease_seconds: nat,
    later: Moment,
)
    requires
        claim.worker_id == Some(worker_id),
        step_begun(state, key, claim, now).1 == Ok::<OutcomeState, Fault>(
            OutcomeState::Execute { attempt },
        ),
    ensures
        ({
            let held = after_step_beats(step_begun(state, key, claim, now).0, key, worker_id, beats);
            let (after, kept) = step_beaten(held, key, worker_id, lease_seconds, later);
            &&& kept
            &&& after.steps.contains_key(key)
            &&& after.steps[key].lease_expires_at == stored_after(later, lease_seconds as int)
            &&& after.steps[key].status is Running
            &&& after.steps[key].attempt == attempt
            &&& after.steps[key].lease_owner == Some(worker_id)
        }),
    decreases beats.len(),
{
    if beats.len() > 0 {
        step_is_kept_by_heartbeats(
            state,
            key,
            claim,
            worker_id,
            attempt,
            now,
            beats.drop_last(),
            beats.last().0,
            beats.last().1,
        );
    }
}

/// A worker that was handed a unit of work keeps it for as long as it is heard of: after any number
/// of its heartbeats the next one is kept too, and holds the work for as long as it asks.
pub proof fn work_is_kept_by_heartbeats(
    state: LedgerState,
    key: Seq<Seq<char>>,
    claim: ClaimState,
    worker_id: Seq<char>,
    attempt: u32,
    now: Moment,
    beats: Seq<(nat, Moment)>,
    lease_seconds: nat,
    later: Moment,
)
    requires
        claim.worker_id == Some(worker_id),
        work_begun(state, key, claim, now).1 == Ok::<OutcomeState, Fault>(
            OutcomeState::Execute { attempt },
        ),
    ensures
        ({
            let held = after_beats(work_begun(state, key, claim, now).0, key, worker_id, beats);
            let (after, kept) = work_beaten(held, key, worker_id, lease_seconds, later);
            let work = if state.tasks.contains_key(key) {
                after.tasks[key].work
            } else {
                after.steps[key]
            };
            &&& kept
            &&& after.tasks.contains_key(key) == state.tasks.contains_key(key)
            &&& after.tasks.contains_key(key) || after.steps.contains_key(key)
            &&& work.lease_expires_at == stored_after(later, lease_seconds as int)
            &&& work.status is Running
            &&& work.attempt == attempt
            &&& work.lease_owner == Some(worker_id)
        }),
    decreases beats.len(),
{
    if beats.len() > 0 {
        work_is_kept_by_heartbeats(
            state,
            key,
            claim,
            worker_id,
            attempt,
            now,
            beats.drop_last(),
            beats.last().0,
            beats.last().1,
        );
    }
}

/// A heartbeat is kept exactly if the worker holds the work under the key, and then concerns that
/// work alone; one that is not kept changes nothing.
pub proof fn heartbeats_concern_one_unit(
    state: LedgerState,
    key: Seq<Seq<char>>,
    worker_id: Seq<char>,
    lease_seconds: nat,
    now: Moment,
)
    ensures
        ({
            let (after, kept) = step_beaten(state, key, worker_id, lease_seconds, now);
            &&& kept <==> state.steps.contains_key(key) && owned(state.steps[key], worker_id)
            &&& !kept ==> after == state
            &&& kept ==> {
                &&& only_steps_differ(state, after)
                &&& all_others_stay(state.steps, after.steps, key)
                &&& after.steps.contains_key(key)
                &&& after.steps[key] == beaten(state.steps[key], lease_seconds, now)
            }
        }),
        ({
            let (after, kept) = work_beaten(state, key, worker_id, lease_seconds, now);
            &&& state.tasks.contains_key(key) ==> {
                &&& kept <==> owned(state.tasks[key].work, worker_id)
                &&& !kept ==> after == state
                &&& kept ==> {
                    &&& only_tasks_differ(state, after)
                    &&& all_others_stay(state.tasks, after.tasks, key)
                    &&& after.tasks.contains_key(key)
                    &&& same_task_otherwise(state.tasks[key], after.tasks[key])
                    &&& after.tasks[key].work == beaten(
                        state.tasks[key].work,
                        lease_seconds,
                        now,
                    )
                }
            }
            &&& !state.tasks.contains_key(key) ==> (after, kept) == step_beaten(
                state,
                key,
                worker_id,
                lease_seconds,
                now,
            )
        }),
{
}

/// A report that names an attempt stands only while that is the work's attempt, and one that names
/// a worker only while the lease is in that worker's name; one that names neither always stands.
pub proof fn reports_stand_on_what_they_name(
    work: WorkState,
    attempt: Option<u32>,
    worker_id: Option<Seq<char>>,
)
    ensures
        attempt is None && worker_id is None ==> claim_stands(work, attempt, worker_id),
        attempt matches Some(named) && named != work.attempt ==> !claim_stands(
            work,
            attempt,
            worker_id,
        ),
        worker_id is Some && work.lease_owner is None ==> !claim_stands(work, attempt, worker_id),
        worker_id matches Some(named) && work.lease_owner matches Some(owner) && named != owner
            ==> !claim_stands(work, attempt, worker_id),
        (attempt is None || attempt == Some(work.attempt)) && (worker_id is None || worker_id
            == work.lease_owner) ==> claim_stands(work, attempt, worker_id),
{
}

/// A completion is taken for known work, be it a task or a step, as long as the claim stands; it
/// concerns that work alone. Otherwise nothing changes, and the answer says what is wrong.
pub proof fn completions_concern_one_unit(
    state: LedgerState,
    key: Seq<Seq<char>>,
    attempt: Option<u32>,
    worker_id: Option<Seq<char>>,
    output: Seq<char>,
    now: Moment,
)
    ensures
        ({
            let (after, told) = work_completed(state, key, attempt, worker_id, output, now);
            &&& !state.tasks.contains_key(key) && !state.steps.contains_key(key) ==> (after, told)
                == (state, Err::<(), Fault>(Fault::TaskNotFound))
            &&& state.tasks.contains_key(key) ==> if claim_stands(
                state.tasks[key].work,
                attempt,
                worker_id,
            ) {
                &&& told == Ok::<(), Fault>(())
                &&& only_tasks_differ(state, after)
                &&& all_others_stay(state.tasks, after.tasks, key)
                &&& after.tasks.contains_key(key)
                &&& same_task_otherwise(state.tasks[key], after.tasks[key])
                &&& after.tasks[key].work == completed(state.tasks[key].work, output, now)
            } else {
                (after, told) == (state, Err::<(), Fault>(Fault::TaskClaimLost))
            }
            &&& !state.tasks.contains_key(key) && state.steps.contains_key(key) ==> if claim_stands(
                state.steps[key],
                attempt,
                worker_id,
            ) {
                &&& told == Ok::<(), Fault>(())
                &&& only_steps_differ(state, after)
                &&& all_others_stay(state.steps, after.steps, key)
                &&& after.steps.contains_key(key)
                &&& after.steps[key] == completed(state.steps[key], output, now)
            } else {
                (after, told) == (state, Err::<(), Fault>(Fault::TaskClaimLost))
            }
        }),
{
}

/// The failure that was added says what was reported, of which work, on which attempt and when, and
/// whether it is retried.
pub open spec fn reports_the_failure(
    failure: FailureState,
    key: Seq<Seq<char>>,
    work: WorkState,
    error: ErrorState,
    now: Moment,
) -> bool {
    &&& failure.run_id == key[0]
    &&& failure.step_name == key[1]
    &&& failure.input_digest == key[2]
    &&& failure.attempt == work.attempt
    &&& failure.failure_class == error.failure_class
    &&& failure.error_type == error.error_type
    &&& failure.message == error.message
    &&& failure.stack == error.stack
    &&& failure.retryable == retries(policy_of(work), error)
    &&& failure.timestamp == datetime_text(now.secs)
}

/// A failure of known work is taken as long as the claim stands: it concerns that work alone, and
/// is added once at the end of the list of failures. Otherwise nothing changes, and the answer says
/// what is wrong.
pub proof fn failures_concern_one_unit(
    state: LedgerState,
    key: Seq<Seq<char>>,
    attempt: Option<u32>,
    worker_id: Option<Seq<char>>,
    error: ErrorState,
    now: Moment,
    seed: nat,
)
    ensures
        ({
            let (after, told) = work_failed(state, key, attempt, worker_id, error, now, seed);
            &&& !state.tasks.contains_key(key) && !state.steps.contains_key(key) ==> (after, told)
                == (state, Err::<(), Fault>(Fault::TaskNotFound))
            &&& state.tasks.contains_key(key) ==> if claim_stands(
                state.tasks[key].work,
                attempt,
                worker_id,
            ) {
                &&& told == Ok::<(), Fault>(())
                &&& only_tasks_differ(state, LedgerState { failures: state.failures, ..after })
                &&& all_others_stay(state.tasks, after.tasks, key)
                &&& after.tasks.contains_key(key)
                &&& same_task_otherwise(state.tasks[key], after.tasks[key])
                &&& after.tasks[key].work == failed(state.tasks[key].work, error, now, seed)
                &&& after.failures.len() == state.failures.len() + 1
                &&& after.failures.drop_last() == state.failures
                &&& reports_the_failure(
                    after.failures.last(),
                    key,
                    state.tasks[key].work,
                    error,
                    now,
                )
            } else {
                (after, told) == (state, Err::<(), Fault>(Fault::TaskClaimLost))
            }
            &&& !state.tasks.contains_key(key) && state.steps.contains_key(key) ==> if claim_stands(
                state.steps[key],
                attempt,
                worker_id,
            ) {
                (after, told) == step_failed(state, key, error, now, seed)
            } else {
                (after, told) == (state, Err::<(), Fault>(Fault::TaskClaimLost))
            }
        }),
{
    let after = work_failed(state, key, attempt, worker_id, error, now, seed).0;
    if after.failures.len() > 0 {
        assert(state.failures.push(after.failures.last()).drop_last() =~= state.failures);
    }
}

/// A failure of a known step concerns that step alone, and is added once at the end of the list of
/// failures; a step that is not known is not found, and nothing changes.
pub proof fn step_failures_concern_one_step(
    state: LedgerState,
    key: Seq<Seq<char>>,
    error: ErrorState,
    now: Moment,
    seed: nat,
)
    ensures
        ({
            let (after, told) = step_failed(state, key, error, now, seed);
            &&& !state.steps.contains_key(key) ==> (after, told) == (
                state,
                Err::<(), Fault>(Fault::StepNotFound),
            )
            &&& state.steps.contains_key(key) ==> {
                &&& told == Ok::<(), Fault>(())
                &&& only_steps_differ(state, LedgerState { failures: state.failures, ..after })
                &&& all_others_stay(state.steps, after.steps, key)
                &&& after.steps.contains_key(key)
                &&& after.steps[key] == failed(state.steps[key], error, now, seed)
                &&& after.failures.len() == state.failures.len() + 1
                &&& after.failures.drop_last() == state.failures
                &&& reports_the_failure(after.failures.last(), key, state.steps[key], error, now)
            }
        }),
{
    let after = step_failed(state, key, error, now, seed).0;
    if after.failures.len() > 0 {
        assert(state.failures.push(after.failures.last()).drop_last() =~= state.failures);
    }
}

/// The artifact that is kept says what the step gave, of which step, and when.
pub open spec fn keeps_the_artifact(
    kept: ArtifactState,
    key: Seq<Seq<char>>,
    given: ArtifactInput,
    now: Moment,
) -> bool {
    &&& kept.run_id == key[0]
    &&& kept.step_name == key[1]
    &&& kept.input_digest == key[2]
    &&& kept.name == given.name
    &&& kept.kind == given.kind
    &&& kept.path == given.path
    &&& kept.inline_json == given.inline_json
    &&& kept.sha256 == given.sha256
    &&& kept.size == given.size
    &&& kept.valid == given.valid
    &&& kept.created_at == datetime_text(now.secs)
}

/// The last of the artifacts with that id stands at `i`.
pub open spec fn is_last_with_id(made: Seq<ArtifactInput>, i: int, id: Seq<char>) -> bool {
    &&& 0 <= i < made.len()
    &&& made[i].artifact_id == id
    &&& forall|j: int| i < j < made.len() ==> (#[trigger] made[j]).artifact_id != id
}

proof fn lemma_artifacts_kept(
    artifacts: Map<Seq<Seq<char>>, ArtifactState>,
    key: Seq<Seq<char>>,
    made: Seq<ArtifactInput>,
    now: Moment,
    id: Seq<char>,
)
    ensures
        ({
            let after = artifacts_kept(artifacts, key, made, now);
            &&& forall|i: int|
                #[trigger] is_last_with_id(made, i, id) ==> after.contains_key(seq![id])
                    && keeps_the_artifact(after[seq![id]], key, made[i], now)
            &&& (forall|i: int|
                0 <= i < made.len() ==> (#[trigger] made[i]).artifact_id != id)
                ==> after.contains_key(seq![id]) == artifacts.contains_key(seq![id])
                && after[seq![id]] == artifacts[seq![id]]
        }),
    decreases made.len(),
{
    if made.len() > 0 {
        let fewer = made.drop_last();
        let last = made.last();
        lemma_artifacts_kept(artifacts, key, fewer, now, id);
        assert(seq![last.artifact_id][0] == last.artifact_id);
        assert(seq![id][0] == id);
        let after = artifacts_kept(artifacts, key, made, now);
        assert forall|i: int| #[trigger] is_last_with_id(made, i, id) implies after.contains_key(
            seq![id],
        ) && keeps_the_artifact(after[seq![id]], key, made[i], now) by {
            if i < fewer.len() {
                assert(made[made.len() - 1].artifact_id != id);
                assert forall|j: int| i < j < fewer.len() implies (
                #[trigger] fewer[j]).artifact_id != id by {
                    assert(made[j].artifact_id != id);
                }
                assert(is_last_with_id(fewer, i, id));
            }
        }
        if forall|i: int| 0 <= i < made.len() ==> (#[trigger] made[i]).artifact_id != id {
            assert(made[made.len() - 1].artifact_id != id);
            assert forall|i: int| 0 <= i < fewer.len() implies (#[trigger] fewer[i]).artifact_id
                != id by {
                assert(made[i].artifact_id != id);
            }
        }
    }
}

/// A completion of a known step whose artifacts are all small enough for a column completes that
/// step alone, and keeps each artifact that it gave under its id, the last where several have the
/// same; artifacts with other ids stay. One artifact that is too large refuses all of it, and a step
/// that is not known is not found; then nothing changes.
pub proof fn step_completions_keep_artifacts(
    state: LedgerState,
    key: Seq<Seq<char>>,
    output: Seq<char>,
    made: Seq<ArtifactInput>,
    now: Moment,
    id: Seq<char>,
)
    ensures
        ({
            let (after, told) = step_completed(state, key, output, made, now);
            &&& !state.steps.contains_key(key) ==> (after, told) == (
                state,
                Err::<(), Fault>(Fault::StepNotFound),
            )
            &&& state.steps.contains_key(key) && (exists|i: int|
                0 <= i < made.len() && (#[trigger] made[i]).size > 0x7fff_ffff_ffff_ffff) ==> (
                after,
                told,
            ) == (
                state,
                Err::<(), Fault>(
                    Fault::Sqlite("out of range integral type conversion attempted"@),
                ),
            )
            &&& state.steps.contains_key(key) && (forall|i: int|
                0 <= i < made.len() ==> (#[trigger] made[i]).size <= 0x7fff_ffff_ffff_ffff) ==> {
                &&& told == Ok::<(), Fault>(())
                &&& only_steps_differ(state, LedgerState { artifacts: state.artifacts, ..after })
                &&& all_others_stay(state.steps, after.steps, key)
                &&& after.steps.contains_key(key)
                &&& after.steps[key] == completed(state.steps[key], output, now)
                &&& forall|i: int|
                    #[trigger] is_last_with_id(made, i, id) ==> after.artifacts.contains_key(
                        seq![id],
                    ) && keeps_the_artifact(after.artifacts[seq![id]], key, made[i], now)
                &&& (forall|i: int|
                    0 <= i < made.len() ==> (#[trigger] made[i]).artifact_id != id)
                    ==> after.artifacts.contains_key(seq![id]) == state.artifacts.contains_key(
                    seq![id],
                ) && after.artifacts[seq![id]] == state.artifacts[seq![id]]
            }
        }),
{
    lemma_artifacts_kept(state.artifacts, key, made, now, id);
}

/// Work that was registered and nothing more is pending, without an attempt, an output, an error, a
/// lease or a time at which it started, and under the policy that holds where none is named.
pub proof fn new_work_is_blank(now: Moment)
    ensures
        ({
            let work = fresh(now);
            &&& work.status is Pending
            &&& work.attempt == 0
            &&& work.config_json == "null"@
            &&& work.dependencies_json == "[]"@
            &&& work.variants_json == "{}"@
            &&& work.retry is Some
            &&& policy_of(work) == policy_of(WorkState { retry: None, ..work })
            &&& work.output_json is None
            &&& work.error is Absent
            &&& work.lease_owner is None
            &&& work.lease_acquired_at is None
            &&& work.lease_expires_at is None
            &&& work.heartbeat_at is None
            &&& work.retry_at is None
            &&& work.started_at is None
            &&& work.completed_at is None
            &&& work.updated_at == datetime_text(now.secs)
        }),
{
}

} // verus!
