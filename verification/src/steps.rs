//! Steps: single units of work, begun, completed and failed under their own names.
use vstd::prelude::*;

use crate::error::{result_view, views, Error, Fault};
use crate::failure::ErrorState;
use crate::ledger::{key3, Ledger, LedgerState};
use crate::retry::retries;
use crate::rows::{ArtifactRow, ArtifactState, FailureRecord, FailureState, StepRow};
use crate::table::Row;
use crate::text::{opt_text, text_of, texts};
use crate::time::{datetime_text, timestamp, Moment};
use crate::types::{
    Artifact, ArtifactInput, BeginStepRequest, CompleteStepRequest, FailStepRequest,
    HeartbeatStepRequest,
};
use crate::work::{
    beat_reads_back, beaten, begun, claimed, completed, failed, fresh, lease_reads_back, owned,
    policy_of, retry_reads_back, Claim, ClaimState, Outcome, OutcomeState, Work,
};

verus! {

/// A claim on a step. The first claim on an unknown step creates it and starts its first attempt.
pub open spec fn step_begun(
    state: LedgerState,
    key: Seq<Seq<char>>,
    claim: ClaimState,
    now: Moment,
) -> (LedgerState, Result<OutcomeState, Fault>) {
    if state.steps.contains_key(key) {
        let (work, outcome) = begun(state.steps[key], claim, now);
        (LedgerState { steps: state.steps.insert(key, work), ..state }, outcome)
    } else {
        let work = claimed(fresh(now), 1, claim, now);
        (
            LedgerState { steps: state.steps.insert(key, work), ..state },
            Ok(OutcomeState::Execute { attempt: 1 }),
        )
    }
}

/// The artifact as it is kept for the step under `key`.
pub open spec fn artifact_kept(
    key: Seq<Seq<char>>,
    artifact: ArtifactInput,
    now: Moment,
) -> ArtifactState {
    ArtifactState {
        run_id: key[0],
        step_name: key[1],
        input_digest: key[2],
        name: artifact.name,
        kind: artifact.kind,
        path: artifact.path,
        inline_json: artifact.inline_json,
        sha256: artifact.sha256,
        size: artifact.size,
        valid: artifact.valid,
        created_at: datetime_text(now.secs),
    }
}

/// The artifacts after those of the step were kept, one after the other; a later one with the
/// same id takes the place of an earlier one.
pub open spec fn artifacts_kept(
    artifacts: Map<Seq<Seq<char>>, ArtifactState>,
    key: Seq<Seq<char>>,
    made: Seq<ArtifactInput>,
    now: Moment,
) -> Map<Seq<Seq<char>>, ArtifactState>
    decreases made.len(),
{
    if made.len() == 0 {
        artifacts
    } else {
        artifacts_kept(artifacts, key, made.drop_last(), now).insert(
            seq![made.last().artifact_id],
            artifact_kept(key, made.last(), now),
        )
    }
}

/// Some artifact is larger than a column can say.
pub open spec fn oversized(made: Seq<ArtifactInput>) -> bool {
    exists|i: int| 0 <= i < made.len() && (#[trigger] made[i]).size > i64::MAX
}

/// What the database says of a number that no column holds.
pub open spec fn size_refusal() -> Fault {
    Fault::Sqlite("out of range integral type conversion attempted"@)
}

/// A step is completed, if it is known and its artifacts can be kept.
pub open spec fn step_completed(
    state: LedgerState,
    key: Seq<Seq<char>>,
    output: Seq<char>,
    made: Seq<ArtifactInput>,
    now: Moment,
) -> (LedgerState, Result<(), Fault>) {
    if !state.steps.contains_key(key) {
        (state, Err(Fault::StepNotFound))
    } else if oversized(made) {
        (state, Err(size_refusal()))
    } else {
        (
            LedgerState {
                steps: state.steps.insert(key, completed(state.steps[key], output, now)),
                artifacts: artifacts_kept(state.artifacts, key, made, now),
                ..state
            },
            Ok(()),
        )
    }
}

/// The failure as it is kept for the step under `key`.
pub open spec fn failure_kept(
    key: Seq<Seq<char>>,
    attempt: u32,
    error: ErrorState,
    retried: bool,
    now: Moment,
) -> FailureState {
    FailureState {
        run_id: key[0],
        step_name: key[1],
        input_digest: key[2],
        attempt,
        failure_class: error.failure_class,
        error_type: error.error_type,
        message: error.message,
        stack: error.stack,
        retryable: retried,
        timestamp: datetime_text(now.secs),
    }
}

/// A failure of a step is reported, if the step is known, and is kept in the list of failures.
pub open spec fn step_failed(
    state: LedgerState,
    key: Seq<Seq<char>>,
    error: ErrorState,
    now: Moment,
    seed: nat,
) -> (LedgerState, Result<(), Fault>) {
    if !state.steps.contains_key(key) {
        (state, Err(Fault::StepNotFound))
    } else {
        let work = state.steps[key];
        let kept = failure_kept(key, work.attempt, error, retries(policy_of(work), error), now);
        (
            LedgerState {
                steps: state.steps.insert(key, failed(work, error, now, seed)),
                failures: state.failures.push(kept),
                ..state
            },
            Ok(()),
        )
    }
}

/// A lease on a step is extended, if the worker holds it; and whether it does.
pub open spec fn step_beaten(
    state: LedgerState,
    key: Seq<Seq<char>>,
    worker_id: Seq<char>,
    lease_seconds: nat,
    now: Moment,
) -> (LedgerState, bool) {
    if state.steps.contains_key(key) && owned(state.steps[key], worker_id) {
        let work = beaten(state.steps[key], lease_seconds, now);
        (LedgerState { steps: state.steps.insert(key, work), ..state }, true)
    } else {
        (state, false)
    }
}

fn keep_artifact(
    run_id: &String,
    step_name: &String,
    input_digest: &String,
    artifact: &Artifact,
    now: Moment,
) -> (row: ArtifactRow)
    requires
        now.valid(),
    ensures
        row@ == artifact_kept(seq![run_id@, step_name@, input_digest@], artifact@, now),
        row.key() == seq![artifact@.artifact_id],
{
    ArtifactRow {
        artifact_id: artifact.artifact_id.clone(),
        run_id: run_id.clone(),
        step_name: step_name.clone(),
        input_digest: input_digest.clone(),
        name: artifact.name.clone(),
        kind: artifact.kind.clone(),
        path: crate::text::copy_opt(&artifact.path),
        inline_json: match &artifact.inline_json {
            Some(inline) => Some(text_of(inline.text())),
            None => None,
        },
        sha256: artifact.sha256.clone(),
        size: artifact.size,
        valid: artifact.valid,
        created_at: timestamp(now),
    }
}

fn any_oversized(made: &Vec<Artifact>) -> (found: bool)
    ensures
        found == oversized(views(made@)),
{
    for i in 0..made.len()
        invariant
            forall|j: int| 0 <= j < i ==> made@[j].size <= i64::MAX,
    {
        if made[i].size > i64::MAX as u64 {
            assert(views(made@)[i as int].size > i64::MAX);
            return true;
        }
    }
    assert forall|j: int| 0 <= j < made@.len() implies (#[trigger] views(made@)[j]).size
        <= i64::MAX by {
        assert(made@[j].size <= i64::MAX);
    }
    false
}

impl Ledger {
    /// Begins a step, unless it is done, held, waiting or has failed for good.
    pub fn begin_step_at(&mut self, req: BeginStepRequest, now: Moment) -> (outcome: Result<
        Outcome,
        Error,
    >)
        requires
            old(self).wf(),
            now.valid(),
        ensures
            final(self).wf(),
            final(self)@ == step_begun(
                old(self)@,
                seq![req.run_id@, req.step_name@, req.input_digest@],
                claim_of(req),
                now,
            ).0,
            result_view(outcome) == step_begun(
                old(self)@,
                seq![req.run_id@, req.step_name@, req.input_digest@],
                claim_of(req),
                now,
            ).1,
            outcome matches Ok(Outcome::Execute { attempt }) ==> lease_reads_back(
                claim_of(req),
                now,
            ),
    {
        let key = key3(&req.run_id, &req.step_name, &req.input_digest);
        let claim = Claim {
            config: req.config,
            dependencies: req.dependencies,
            variants: req.variants,
            retry: req.retry,
            worker_id: req.worker_id,
            lease_seconds: req.lease_seconds,
        };
        self.begin_step_keyed(key, req.run_id, req.step_name, req.input_digest, claim, now)
    }

    /// Begins the step with that key.
    pub(crate) fn begin_step_keyed(
        &mut self,
        key: Vec<String>,
        run_id: String,
        step_name: String,
        input_digest: String,
        claim: Claim,
        now: Moment,
    ) -> (outcome: Result<Outcome, Error>)
        requires
            old(self).wf(),
            now.valid(),
            texts(key@) == seq![run_id@, step_name@, input_digest@],
        ensures
            final(self).wf(),
            final(self)@ == step_begun(old(self)@, texts(key@), claim@, now).0,
            result_view(outcome) == step_begun(old(self)@, texts(key@), claim@, now).1,
            outcome matches Ok(Outcome::Execute { attempt }) ==> lease_reads_back(claim@, now),
    {
        match self.steps.take(&key) {
            Some(mut row) => {
                let outcome = row.work.begin(claim, now);
                self.steps.put(row);
                assert(self@ =~= step_begun(old(self)@, texts(key@), claim@, now).0);
                outcome
            },
            None => {
                let mut work = Work::new(now);
                work.claim(1, claim, now);
                self.steps.put(StepRow { run_id, step_name, input_digest, work });
                Ok(Outcome::Execute { attempt: 1 })
            },
        }
    }

    fn keep_artifacts(
        &mut self,
        run_id: &String,
        step_name: &String,
        input_digest: &String,
        made: &Vec<Artifact>,
        now: Moment,
    )
        requires
            old(self).wf(),
            now.valid(),
        ensures
            final(self).wf(),
            final(self)@ == (LedgerState {
                artifacts: artifacts_kept(
                    old(self)@.artifacts,
                    seq![run_id@, step_name@, input_digest@],
                    views(made@),
                    now,
                ),
                ..old(self)@
            }),
    {
        let ghost key = seq![run_id@, step_name@, input_digest@];
        for i in 0..made.len()
            invariant
                self.wf(),
                now.valid(),
                key == seq![run_id@, step_name@, input_digest@],
                self@ == (LedgerState {
                    artifacts: artifacts_kept(
                        old(self)@.artifacts,
                        key,
                        views(made@.take(i as int)),
                        now,
                    ),
                    ..old(self)@
                }),
        {
            let row = keep_artifact(run_id, step_name, input_digest, &made[i], now);
            self.artifacts.put(row);
            proof {
                let more = views(made@.take(i + 1));
                assert(more.drop_last() =~= views(made@.take(i as int)));
                assert(more.last() == made@[i as int]@);
            }
        }
        assert(made@.take(made@.len() as int) =~= made@);
    }

    /// Completes a step and keeps what it made.
    pub fn complete_step_at(&mut self, req: CompleteStepRequest, now: Moment) -> (done: Result<
        (),
        Error,
    >)
        requires
            old(self).wf(),
            now.valid(),
        ensures
            final(self).wf(),
            final(self)@ == step_completed(
                old(self)@,
                seq![req.run_id@, req.step_name@, req.input_digest@],
                req.output@,
                views(req.artifacts@),
                now,
            ).0,
            result_view(done) == step_completed(
                old(self)@,
                seq![req.run_id@, req.step_name@, req.input_digest@],
                req.output@,
                views(req.artifacts@),
                now,
            ).1,
    {
        let key = key3(&req.run_id, &req.step_name, &req.input_digest);
        if self.steps.get(&key).is_none() {
            return Err(Error::StepNotFound);
        }
        if any_oversized(&req.artifacts) {
            return Err(
                Error::Sqlite(text_of("out of range integral type conversion attempted")),
            );
        }
        if let Some(mut row) = self.steps.take(&key) {
            row.work.complete(req.output, now);
            self.steps.put(row);
        }
        self.keep_artifacts(&req.run_id, &req.step_name, &req.input_digest, &req.artifacts, now);
        assert(self@ =~= step_completed(
            old(self)@,
            texts(key@),
            req.output@,
            views(req.artifacts@),
            now,
        ).0);
        Ok(())
    }

    /// Reports that a step failed.
    pub fn fail_step_at(&mut self, req: FailStepRequest, now: Moment, seed: u64) -> (done: Result<
        (),
        Error,
    >)
        requires
            old(self).wf(),
            now.valid(),
        ensures
            final(self).wf(),
            final(self)@ == step_failed(
                old(self)@,
                seq![req.run_id@, req.step_name@, req.input_digest@],
                req.error@,
                now,
                seed as nat,
            ).0,
            result_view(done) == step_failed(
                old(self)@,
                seq![req.run_id@, req.step_name@, req.input_digest@],
                req.error@,
                now,
                seed as nat,
            ).1,
            done is Ok ==> ({
                let work = old(self)@.steps[seq![req.run_id@, req.step_name@, req.input_digest@]];
                retries(policy_of(work), req.error@) ==> retry_reads_back(work, now, seed as nat)
            }),
    {
        let key = key3(&req.run_id, &req.step_name, &req.input_digest);
        match self.steps.take(&key) {
            None => Err(Error::StepNotFound),
            Some(mut row) => {
                let attempt: u32 = row.work.attempt;
                let retried = row.work.fail(req.error.copy(), now, seed);
                self.steps.put(row);
                let kept = FailureRecord {
                    run_id: req.run_id,
                    step_name: req.step_name,
                    input_digest: req.input_digest,
                    attempt,
                    failure_class: req.error.failure_class,
                    error_type: req.error.error_type,
                    message: req.error.message,
                    stack: req.error.stack,
                    retryable: retried,
                    timestamp: timestamp(now),
                };
                self.failures.push(kept);
                assert(views(self.failures@) =~= views(old(self).failures@).push(kept@));
                assert(self@ =~= step_failed(
                    old(self)@,
                    texts(key@),
                    req.error@,
                    now,
                    seed as nat,
                ).0);
                Ok(())
            },
        }
    }

    /// Extends the lease on a step; returns whether the worker still holds it.
    pub fn heartbeat_step_at(&mut self, req: HeartbeatStepRequest, now: Moment) -> (kept: Result<
        bool,
        Error,
    >)
        requires
            old(self).wf(),
            now.valid(),
        ensures
            final(self).wf(),
            final(self)@ == step_beaten(
                old(self)@,
                seq![req.run_id@, req.step_name@, req.input_digest@],
                req.worker_id@,
                req.lease_seconds as nat,
                now,
            ).0,
            kept == Ok::<bool, Error>(
                step_beaten(
                    old(self)@,
                    seq![req.run_id@, req.step_name@, req.input_digest@],
                    req.worker_id@,
                    req.lease_seconds as nat,
                    now,
                ).1,
            ),
            kept == Ok::<bool, Error>(true) ==> beat_reads_back(req.lease_seconds as nat, now),
    {
        let key = key3(&req.run_id, &req.step_name, &req.input_digest);
        match self.steps.take(&key) {
            None => Ok(false),
            Some(mut row) => {
                let kept = row.work.heartbeat(&req.worker_id, req.lease_seconds, now);
                self.steps.put(row);
                assert(self@ =~= step_beaten(
                    old(self)@,
                    texts(key@),
                    req.worker_id@,
                    req.lease_seconds as nat,
                    now,
                ).0);
                Ok(kept)
            },
        }
    }
}

/// The claim that a request to begin a step makes.
pub open spec fn claim_of(req: BeginStepRequest) -> ClaimState {
    ClaimState {
        config: req.config@,
        dependencies: texts(req.dependencies@),
        variants: req.variants@,
        retry: req.retry@,
        worker_id: opt_text(req.worker_id),
        lease_seconds: req.lease_seconds,
    }
}

} // verus!
