//! Units of work over several requests.
use vstd::prelude::*;

use crate::error::Fault;
use crate::failure::ErrorState;
use crate::json::reads_back;
use crate::history::{after_all, changed, Change};
use crate::ledger::{empty_ledger, LedgerState};
use crate::retry::{default_policy, retries};
use crate::steps::{oversized, step_beaten, step_begun, step_completed, step_failed};
use crate::tasks::task_missed;
use crate::time::{datetime_text, Moment, LAST_SECOND};
use crate::types::ArtifactInput;
use crate::unified::{
    known, with_work, work_beaten, work_begun, work_completed, work_failed, work_under,
};
use crate::work::{
    attempts_exceeded, backoff_seconds, beat_reads_back, beaten, claim_stands, completed, ended,
    failed, lease_of, lease_reads_back, policy_of, retry_reads_back, skipped, ClaimState,
    OutcomeState, WorkState,
};

verus! {

/// Writing a unit of work back as it is changes nothing.
proof fn lemma_same_work(state: LedgerState, key: Seq<Seq<char>>)
    requires
        known(state, key),
    ensures
        with_work(state, key, work_under(state, key)) == state,
{
    if state.tasks.contains_key(key) {
        assert(state.tasks.insert(key, state.tasks[key]) =~= state.tasks);
    } else {
        assert(state.steps.insert(key, state.steps[key]) =~= state.steps);
    }
}

/// What was written under a key is found under it.
proof fn lemma_with_work(state: LedgerState, key: Seq<Seq<char>>, work: WorkState)
    ensures
        known(with_work(state, key, work), key),
        work_under(with_work(state, key, work), key) == work,
{
}

/// Work that succeeded or failed for good is never touched by another claim, whatever that asks
/// for: completed work is skipped with its output, and a final failure is told again.
pub proof fn finished_work_is_preserved(
    state: LedgerState,
    key: Seq<Seq<char>>,
    claim: ClaimState,
    now: Moment,
)
    requires
        known(state, key),
        work_under(state, key).status is Succeeded || work_under(state, key).status is Terminal,
    ensures
        work_begun(state, key, claim, now).0 == state,
        work_under(state, key).status is Succeeded ==> work_begun(state, key, claim, now).1
            == skipped(work_under(state, key)),
        work_under(state, key).status is Terminal ==> work_begun(state, key, claim, now).1 == ended(
            work_under(state, key),
        ),
{
    lemma_same_work(state, key);
}

/// A completed unit of work is skipped from then on, and its output is told, as long as what was
/// written as its output reads back.
pub proof fn completed_work_is_skipped(
    state: LedgerState,
    key: Seq<Seq<char>>,
    attempt: Option<u32>,
    worker_id: Option<Seq<char>>,
    output: Seq<char>,
    claim: ClaimState,
    now: Moment,
    later: Moment,
)
    requires
        known(state, key),
        claim_stands(work_under(state, key), attempt, worker_id),
        reads_back(output),
    ensures
        ({
            let (done, told) = work_completed(state, key, attempt, worker_id, output, now);
            &&& told == Ok::<(), Fault>(())
            &&& work_begun(done, key, claim, later) == (
                done,
                Ok::<OutcomeState, Fault>(OutcomeState::SkipCompleted { output }),
            )
        }),
{
    let done = work_completed(state, key, attempt, worker_id, output, now).0;
    lemma_with_work(state, key, completed(work_under(state, key), output, now));
    finished_work_is_preserved(done, key, claim, later);
}

/// A completed step is skipped from then on, and its output is told, as long as what was written
/// as its output reads back.
pub proof fn completed_step_is_skipped(
    state: LedgerState,
    key: Seq<Seq<char>>,
    output: Seq<char>,
    made: Seq<ArtifactInput>,
    claim: ClaimState,
    now: Moment,
    later: Moment,
)
    requires
        state.steps.contains_key(key),
        !oversized(made),
        reads_back(output),
    ensures
        ({
            let (done, told) = step_completed(state, key, output, made, now);
            &&& told == Ok::<(), Fault>(())
            &&& step_begun(done, key, claim, later) == (
                done,
                Ok::<OutcomeState, Fault>(OutcomeState::SkipCompleted { output }),
            )
        }),
{
    let done = step_completed(state, key, output, made, now).0;
    assert(step_begun(done, key, claim, later).0 =~= done);
}

/// A failure that is not retried is final: it is told again to every later claim.
pub proof fn final_failure_is_told_again(
    state: LedgerState,
    key: Seq<Seq<char>>,
    attempt: Option<u32>,
    worker_id: Option<Seq<char>>,
    error: ErrorState,
    claim: ClaimState,
    now: Moment,
    later: Moment,
    seed: nat,
)
    requires
        known(state, key),
        claim_stands(work_under(state, key), attempt, worker_id),
        !retries(policy_of(work_under(state, key)), error),
    ensures
        ({
            let (failed, told) = work_failed(state, key, attempt, worker_id, error, now, seed);
            &&& told == Ok::<(), Fault>(())
            &&& work_begun(failed, key, claim, later) == (
                failed,
                Ok::<OutcomeState, Fault>(OutcomeState::FailedTerminal { error }),
            )
        }),
{
    let after = work_failed(state, key, attempt, worker_id, error, now, seed).0;
    lemma_with_work(state, key, failed(work_under(state, key), error, now, seed));
    finished_work_is_preserved(after, key, claim, later);
}

/// A failure that is retried without backoff starts the next attempt on the next claim, as long as
/// the policy allows one more.
pub proof fn retried_failure_starts_the_next_attempt(
    state: LedgerState,
    key: Seq<Seq<char>>,
    attempt: Option<u32>,
    worker_id: Option<Seq<char>>,
    error: ErrorState,
    claim: ClaimState,
    now: Moment,
    later: Moment,
    seed: nat,
)
    requires
        known(state, key),
        claim_stands(work_under(state, key), attempt, worker_id),
        retries(policy_of(work_under(state, key)), error),
        backoff_seconds(work_under(state, key), seed) == 0,
        work_under(state, key).attempt < claim.retry.max_attempts,
    ensures
        ({
            let failed = work_failed(state, key, attempt, worker_id, error, now, seed).0;
            work_begun(failed, key, claim, later).1 == Ok::<OutcomeState, Fault>(
                OutcomeState::Execute { attempt: (work_under(state, key).attempt + 1) as u32 },
            )
        }),
{
    lemma_with_work(state, key, failed(work_under(state, key), error, now, seed));
}

/// While the backoff of a failure lasts, every claim is told to come back later, and changes
/// nothing; once it is over, the next attempt starts.
pub proof fn backoff_is_waited_out(
    state: LedgerState,
    key: Seq<Seq<char>>,
    attempt: Option<u32>,
    worker_id: Option<Seq<char>>,
    error: ErrorState,
    claim: ClaimState,
    now: Moment,
    later: Moment,
    seed: nat,
)
    requires
        known(state, key),
        claim_stands(work_under(state, key), attempt, worker_id),
        retries(policy_of(work_under(state, key)), error),
        0 < backoff_seconds(work_under(state, key), seed) <= LAST_SECOND - now.secs,
        retry_reads_back(work_under(state, key), now, seed),
        work_under(state, key).attempt < claim.retry.max_attempts,
    ensures
        ({
            let failed = work_failed(state, key, attempt, worker_id, error, now, seed).0;
            let until = now.secs + backoff_seconds(work_under(state, key), seed);
            if later.secs < until {
                work_begun(failed, key, claim, later) == (
                    failed,
                    Ok::<OutcomeState, Fault>(
                        OutcomeState::RetryLater { retry_at: datetime_text(until as i64) },
                    ),
                )
            } else {
                work_begun(failed, key, claim, later).1 == Ok::<OutcomeState, Fault>(
                    OutcomeState::Execute { attempt: (work_under(state, key).attempt + 1) as u32 },
                )
            }
        }),
{
    let after = work_failed(state, key, attempt, worker_id, error, now, seed).0;
    lemma_with_work(state, key, failed(work_under(state, key), error, now, seed));
    lemma_same_work(after, key);
}

/// Only one worker runs a unit of work at a time: while the lease of a claim lasts, every other
/// claim is told that the work is in progress, and changes nothing; once it has lapsed, another
/// claim takes the work over, as long as its policy allows one more attempt.
pub proof fn lease_holds_off_other_claims(
    state: LedgerState,
    key: Seq<Seq<char>>,
    claim: ClaimState,
    other: ClaimState,
    attempt: u32,
    now: Moment,
    later: Moment,
)
    requires
        work_begun(state, key, claim, now).1 == Ok::<OutcomeState, Fault>(
            OutcomeState::Execute { attempt },
        ),
        now.secs + lease_of(claim) <= LAST_SECOND,
        lease_reads_back(claim, now),
    ensures
        ({
            let begun = work_begun(state, key, claim, now).0;
            if later.secs < now.secs + lease_of(claim) {
                work_begun(begun, key, other, later) == (
                    begun,
                    Ok::<OutcomeState, Fault>(OutcomeState::InProgress),
                )
            } else {
                attempt < other.retry.max_attempts ==> work_begun(begun, key, other, later).1
                    == Ok::<OutcomeState, Fault>(
                    OutcomeState::Execute { attempt: (attempt + 1) as u32 },
                )
            }
        }),
{
    let begun_state = work_begun(state, key, claim, now).0;
    lemma_same_work(begun_state, key);
}

/// A heartbeat that is kept holds off other claims for as long as it asks.
pub proof fn heartbeat_extends_the_lease(
    state: LedgerState,
    key: Seq<Seq<char>>,
    worker_id: Seq<char>,
    lease_seconds: nat,
    other: ClaimState,
    now: Moment,
    later: Moment,
)
    requires
        work_beaten(state, key, worker_id, lease_seconds, now).1,
        now.secs + lease_seconds <= LAST_SECOND,
        beat_reads_back(lease_seconds, now),
        later.secs < now.secs + lease_seconds,
    ensures
        ({
            let beaten = work_beaten(state, key, worker_id, lease_seconds, now).0;
            work_begun(beaten, key, other, later) == (
                beaten,
                Ok::<OutcomeState, Fault>(OutcomeState::InProgress),
            )
        }),
{
    let after = work_beaten(state, key, worker_id, lease_seconds, now).0;
    lemma_with_work(state, key, beaten(work_under(state, key), lease_seconds, now));
    lemma_same_work(after, key);
}

/// Once work is completed or failed, the worker's heartbeat is refused.
pub proof fn finished_work_refuses_heartbeats(
    state: LedgerState,
    key: Seq<Seq<char>>,
    worker_id: Seq<char>,
    lease_seconds: nat,
    now: Moment,
)
    requires
        known(state, key),
        !(work_under(state, key).status is Running),
    ensures
        work_beaten(state, key, worker_id, lease_seconds, now) == (state, false),
{
}

/// No claim starts more attempts than its policy allows, but for the first attempt of new work.
pub proof fn attempts_stay_within_the_policy(
    state: LedgerState,
    key: Seq<Seq<char>>,
    claim: ClaimState,
    attempt: u32,
    now: Moment,
)
    requires
        work_begun(state, key, claim, now).1 == Ok::<OutcomeState, Fault>(
            OutcomeState::Execute { attempt },
        ),
    ensures
        attempt >= 1,
        known(state, key) ==> attempt <= claim.retry.max_attempts && attempt == work_under(
            state,
            key,
        ).attempt + 1,
        !known(state, key) ==> attempt == 1,
{
}

/// Work whose attempts are used up fails for good on the next claim, and stays so.
pub proof fn used_up_attempts_are_final(
    state: LedgerState,
    key: Seq<Seq<char>>,
    claim: ClaimState,
    now: Moment,
)
    requires
        known(state, key),
        work_under(state, key).status is Failed || work_under(state, key).status is Pending,
        work_under(state, key).attempt >= claim.retry.max_attempts,
    ensures
        work_begun(state, key, claim, now).1 == Ok::<OutcomeState, Fault>(
            OutcomeState::FailedTerminal { error: attempts_exceeded() },
        ),
        work_under(work_begun(state, key, claim, now).0, key).status is Terminal,
{
}

/// A request that rests on a claim that was lost, because another attempt runs or another worker
/// holds the work, is refused and changes nothing.
pub proof fn lost_claims_change_nothing(
    state: LedgerState,
    key: Seq<Seq<char>>,
    attempt: Option<u32>,
    worker_id: Option<Seq<char>>,
    output: Seq<char>,
    error: ErrorState,
    now: Moment,
    seed: nat,
)
    requires
        known(state, key),
        !claim_stands(work_under(state, key), attempt, worker_id),
    ensures
        work_completed(state, key, attempt, worker_id, output, now) == (
            state,
            Err::<(), Fault>(Fault::TaskClaimLost),
        ),
        work_failed(state, key, attempt, worker_id, error, now, seed) == (
            state,
            Err::<(), Fault>(Fault::TaskClaimLost),
        ),
{
}

/// A step and a task are begun, completed and failed alike: under a key that no task has, the
/// common path does what the path for steps does.
pub proof fn steps_take_the_common_path(
    state: LedgerState,
    key: Seq<Seq<char>>,
    claim: ClaimState,
    error: ErrorState,
    worker_id: Seq<char>,
    lease_seconds: nat,
    now: Moment,
    seed: nat,
)
    requires
        !state.tasks.contains_key(key),
    ensures
        work_begun(state, key, claim, now) == step_begun(state, key, claim, now),
        state.steps.contains_key(key) ==> work_failed(state, key, None, None, error, now, seed)
            == step_failed(state, key, error, now, seed),
        work_beaten(state, key, worker_id, lease_seconds, now) == step_beaten(
            state,
            key,
            worker_id,
            lease_seconds,
            now,
        ),
{
}

/// A failure reported of a task counts as an attempt, and the task is not retried once it has had
/// as many as the report allows.
pub proof fn failed_tasks_stop_at_the_ceiling(
    work: WorkState,
    error: ErrorState,
    max_attempts: u32,
    now: Moment,
)
    requires
        work.attempt < u32::MAX,
    ensures
        ({
            let missed = task_missed(work, error, max_attempts, now);
            &&& missed.attempt == work.attempt + 1
            &&& missed.attempt >= max_attempts ==> missed.status is Terminal
            &&& missed.attempt < max_attempts && retries(default_policy(), error)
                ==> missed.status is Failed
            &&& !retries(default_policy(), error) ==> missed.status is Terminal
        }),
{
}

/// The attempt of the step under the key; zero where there is no such step.
pub open spec fn step_attempt(state: LedgerState, key: Seq<Seq<char>>) -> nat {
    if state.steps.contains_key(key) {
        state.steps[key].attempt as nat
    } else {
        0
    }
}

/// The attempt that a worker is told to go ahead with, if it is.
pub open spec fn executed(outcome: Result<OutcomeState, Fault>) -> Option<u32> {
    match outcome {
        Ok(OutcomeState::Execute { attempt }) => Some(attempt),
        _ => None,
    }
}

/// The attempt on which the change hands the step under the key out, if it does.
pub open spec fn handed_out(
    state: LedgerState,
    change: Change,
    key: Seq<Seq<char>>,
) -> Option<u32> {
    match change {
        Change::BeginStep { key: at, claim, now } if at == key => executed(
            step_begun(state, key, claim, now).1,
        ),
        Change::Begin { key: at, claim, now } if at == key && !state.tasks.contains_key(key) =>
            executed(work_begun(state, key, claim, now).1),
        _ => None,
    }
}

/// The attempts on which the changes, one after the other, hand the step under the key out.
pub open spec fn all_handed_out(
    state: LedgerState,
    changes: Seq<Change>,
    key: Seq<Seq<char>>,
) -> Seq<u32>
    decreases changes.len(),
{
    if changes.len() == 0 {
        Seq::empty()
    } else {
        let fewer = changes.drop_last();
        let before = all_handed_out(state, fewer, key);
        match handed_out(after_all(state, fewer), changes.last(), key) {
            Some(attempt) => before.push(attempt),
            None => before,
        }
    }
}

/// The change makes no claim on the step under the key that allows more than `limit` attempts.
pub open spec fn allows_at_most(change: Change, key: Seq<Seq<char>>, limit: nat) -> bool {
    match change {
        Change::BeginStep { key: at, claim, .. } => at == key ==> claim.retry.max_attempts <= limit,
        Change::Begin { key: at, claim, .. } => at == key ==> claim.retry.max_attempts <= limit,
        _ => true,
    }
}

/// A claim counts the attempt of a step on by one where it hands the step out, and no other change
/// touches the attempt.
#[verifier::rlimit(60)]
proof fn lemma_attempts_are_counted(
    state: LedgerState,
    change: Change,
    key: Seq<Seq<char>>,
    limit: nat,
)
    requires
        limit >= 1,
        allows_at_most(change, key, limit),
    ensures
        ({
            let before = step_attempt(state, key);
            let after = step_attempt(changed(state, change), key);
            match handed_out(state, change, key) {
                Some(attempt) => attempt == before + 1 && after == attempt && attempt <= limit,
                None => after == before,
            }
        }),
{
}

/// Over any history a step is handed out with the attempts 1, 2, 3 and so on, none left out and
/// none twice, and with no more than the largest number that a claim on it allows. The first
/// attempt of a new step is handed out even to a claim that allows none.
pub proof fn attempts_are_handed_out_in_turn(
    changes: Seq<Change>,
    key: Seq<Seq<char>>,
    limit: nat,
)
    requires
        limit >= 1,
        forall|i: int|
            0 <= i < changes.len() ==> allows_at_most(#[trigger] changes[i], key, limit),
    ensures
        ({
            let given = all_handed_out(empty_ledger(), changes, key);
            &&& given.len() <= limit
            &&& given.len() == step_attempt(after_all(empty_ledger(), changes), key)
            &&& forall|i: int| 0 <= i < given.len() ==> #[trigger] given[i] == i + 1
        }),
    decreases changes.len(),
{
    if changes.len() > 0 {
        let fewer = changes.drop_last();
        assert forall|i: int| 0 <= i < fewer.len() implies allows_at_most(
            #[trigger] fewer[i],
            key,
            limit,
        ) by {
            assert(allows_at_most(changes[i], key, limit));
        }
        attempts_are_handed_out_in_turn(fewer, key, limit);
        assert(allows_at_most(changes[changes.len() - 1], key, limit));
        lemma_attempts_are_counted(
            after_all(empty_ledger(), fewer),
            changes.last(),
            key,
            limit,
        );
    }
}

} // verus!
