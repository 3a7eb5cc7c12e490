//! One path for every unit of work: a task of a dataset where one is registered under the key,
//! and a step where none is.
use vstd::prelude::*;

use crate::error::{list_view, result_view, views, Error, Fault};
use crate::failure::{ErrorInfo, ErrorState};
use crate::json::Json;
use crate::ledger::{key3, Ledger, LedgerState};
use crate::order::lists;
use crate::retry::retries;
use crate::rows::{FailureRecord, TaskRow, TaskState};
use crate::steps::{failure_kept, step_begun};
use crate::tasks::wanted_tasks;
use crate::text::{opt_text, texts};
use crate::time::{timestamp, Moment};
use crate::types::{
    BeginRequest, CompleteRequest, FailRequest, HeartbeatRequest, ListRequest, TaskRecord,
};
use crate::work::{
    beat_reads_back, beaten, begun, claim_stands, completed, failed, lease_reads_back, owned,
    policy_of, retry_reads_back, Claim, ClaimState, Outcome, OutcomeState, WorkState,
};

verus! {

/// There is a unit of work under the key.
pub open spec fn known(state: LedgerState, key: Seq<Seq<char>>) -> bool {
    state.tasks.contains_key(key) || state.steps.contains_key(key)
}

/// The unit of work under the key.
pub open spec fn work_under(state: LedgerState, key: Seq<Seq<char>>) -> WorkState {
    if state.tasks.contains_key(key) {
        state.tasks[key].work
    } else {
        state.steps[key]
    }
}

/// The store with the unit of work under the key changed.
pub open spec fn with_work(
    state: LedgerState,
    key: Seq<Seq<char>>,
    work: WorkState,
) -> LedgerState {
    if state.tasks.contains_key(key) {
        LedgerState {
            tasks: state.tasks.insert(key, TaskState { work, ..state.tasks[key] }),
            ..state
        }
    } else {
        LedgerState { steps: state.steps.insert(key, work), ..state }
    }
}

/// A claim on a unit of work. The first claim under an unknown key creates a step.
pub open spec fn work_begun(
    state: LedgerState,
    key: Seq<Seq<char>>,
    claim: ClaimState,
    now: Moment,
) -> (LedgerState, Result<OutcomeState, Fault>) {
    if known(state, key) {
        let (work, outcome) = begun(work_under(state, key), claim, now);
        (with_work(state, key, work), outcome)
    } else {
        step_begun(state, key, claim, now)
    }
}

/// A unit of work is completed, if it is known and the claim still stands.
pub open spec fn work_completed(
    state: LedgerState,
    key: Seq<Seq<char>>,
    attempt: Option<u32>,
    worker_id: Option<Seq<char>>,
    output: Seq<char>,
    now: Moment,
) -> (LedgerState, Result<(), Fault>) {
    if !known(state, key) {
        (state, Err(Fault::TaskNotFound))
    } else if !claim_stands(work_under(state, key), attempt, worker_id) {
        (state, Err(Fault::TaskClaimLost))
    } else {
        (with_work(state, key, completed(work_under(state, key), output, now)), Ok(()))
    }
}

/// A failure of a unit of work is reported and kept, if the work is known and the claim still
/// stands.
pub open spec fn work_failed(
    state: LedgerState,
    key: Seq<Seq<char>>,
    attempt: Option<u32>,
    worker_id: Option<Seq<char>>,
    error: ErrorState,
    now: Moment,
    seed: nat,
) -> (LedgerState, Result<(), Fault>) {
    if !known(state, key) {
        (state, Err(Fault::TaskNotFound))
    } else if !claim_stands(work_under(state, key), attempt, worker_id) {
        (state, Err(Fault::TaskClaimLost))
    } else {
        let work = work_under(state, key);
        let kept = failure_kept(key, work.attempt, error, retries(policy_of(work), error), now);
        (
            LedgerState {
                failures: state.failures.push(kept),
                ..with_work(state, key, failed(work, error, now, seed))
            },
            Ok(()),
        )
    }
}

/// A lease on a unit of work is extended, if the worker holds it; and whether it does.
pub open spec fn work_beaten(
    state: LedgerState,
    key: Seq<Seq<char>>,
    worker_id: Seq<char>,
    lease_seconds: nat,
    now: Moment,
) -> (LedgerState, bool) {
    if known(state, key) && owned(work_under(state, key), worker_id) {
        (with_work(state, key, beaten(work_under(state, key), lease_seconds, now)), true)
    } else {
        (state, false)
    }
}

/// The claim that a request to begin makes; it names no variants.
pub open spec fn claim_made(req: BeginRequest) -> ClaimState {
    ClaimState {
        config: req.config@,
        dependencies: texts(req.dependencies@),
        variants: "{}"@,
        retry: req.retry@,
        worker_id: opt_text(req.worker_id),
        lease_seconds: req.lease_seconds,
    }
}

/// Keeps a failure of the work under a key of three columns.
fn failure_record(
    run_id: String,
    kind: String,
    input_digest: String,
    attempt: u32,
    error: ErrorInfo,
    retried: bool,
    now: Moment,
) -> (record: FailureRecord)
    requires
        now.valid(),
    ensures
        record@ == failure_kept(
            seq![run_id@, kind@, input_digest@],
            attempt,
            error@,
            retried,
            now,
        ),
{
    FailureRecord {
        run_id,
        step_name: kind,
        input_digest,
        attempt,
        failure_class: error.failure_class,
        error_type: error.error_type,
        message: error.message,
        stack: error.stack,
        retryable: retried,
        timestamp: timestamp(now),
    }
}

impl Ledger {
    /// Begins a unit of work, unless it is done, held, waiting or has failed for good.
    pub fn begin_at(&mut self, req: BeginRequest, now: Moment) -> (outcome: Result<Outcome, Error>)
        requires
            old(self).wf(),
            now.valid(),
        ensures
            final(self).wf(),
            final(self)@ == work_begun(
                old(self)@,
                seq![req.run_id@, req.kind@, req.input_digest@],
                claim_made(req),
                now,
            ).0,
            result_view(outcome) == work_begun(
                old(self)@,
                seq![req.run_id@, req.kind@, req.input_digest@],
                claim_made(req),
                now,
            ).1,
            outcome matches Ok(Outcome::Execute { attempt }) ==> lease_reads_back(
                claim_made(req),
                now,
            ),
    {
        let key = key3(&req.run_id, &req.kind, &req.input_digest);
        let claim = Claim {
            config: req.config,
            dependencies: req.dependencies,
            variants: Json::empty_object(),
            retry: req.retry,
            worker_id: req.worker_id,
            lease_seconds: req.lease_seconds,
        };
        match self.tasks.take(&key) {
            Some(mut row) => {
                let outcome = row.work.begin(claim, now);
                self.tasks.put(row);
                assert(self@ =~= work_begun(old(self)@, texts(key@), claim@, now).0);
                outcome
            },
            None => self.begin_step_keyed(
                key,
                req.run_id,
                req.kind,
                req.input_digest,
                claim,
                now,
            ),
        }
    }

    /// Completes a unit of work.
    pub fn complete_at(&mut self, req: CompleteRequest, now: Moment) -> (done: Result<(), Error>)
        requires
            old(self).wf(),
            now.valid(),
        ensures
            final(self).wf(),
            ({
                let next = work_completed(
                    old(self)@,
                    seq![req.run_id@, req.kind@, req.input_digest@],
                    req.attempt,
                    opt_text(req.worker_id),
                    req.output@,
                    now,
                );
                final(self)@ == next.0 && result_view(done) == next.1
            }),
    {
        let key = key3(&req.run_id, &req.kind, &req.input_digest);
        let ghost next = work_completed(
            old(self)@,
            texts(key@),
            req.attempt,
            opt_text(req.worker_id),
            req.output@,
            now,
        );
        if let Some(mut row) = self.tasks.take(&key) {
            let stands = row.work.claim_holds(req.attempt, &req.worker_id);
            if stands {
                row.work.complete(req.output, now);
            }
            self.tasks.put(row);
            assert(self@ =~= next.0);
            return if stands {
                Ok(())
            } else {
                Err(Error::TaskClaimLost)
            };
        }
        if let Some(mut row) = self.steps.take(&key) {
            let stands = row.work.claim_holds(req.attempt, &req.worker_id);
            if stands {
                row.work.complete(req.output, now);
            }
            self.steps.put(row);
            assert(self@ =~= next.0);
            return if stands {
                Ok(())
            } else {
                Err(Error::TaskClaimLost)
            };
        }
        Err(Error::TaskNotFound)
    }

    /// Reports that a unit of work failed.
    pub fn fail_at(&mut self, req: FailRequest, now: Moment, seed: u64) -> (done: Result<
        (),
        Error,
    >)
        requires
            old(self).wf(),
            now.valid(),
        ensures
            final(self).wf(),
            ({
                let next = work_failed(
                    old(self)@,
                    seq![req.run_id@, req.kind@, req.input_digest@],
                    req.attempt,
                    opt_text(req.worker_id),
                    req.error@,
                    now,
                    seed as nat,
                );
                final(self)@ == next.0 && result_view(done) == next.1
            }),
            done is Ok ==> ({
                let work = work_under(
                    old(self)@,
                    seq![req.run_id@, req.kind@, req.input_digest@],
                );
                retries(policy_of(work), req.error@) ==> retry_reads_back(work, now, seed as nat)
            }),
    {
        let key = key3(&req.run_id, &req.kind, &req.input_digest);
        let ghost next = work_failed(
            old(self)@,
            texts(key@),
            req.attempt,
            opt_text(req.worker_id),
            req.error@,
            now,
            seed as nat,
        );
        let attempt: u32;
        let retried: bool;
        if let Some(mut row) = self.tasks.take(&key) {
            let stands = row.work.claim_holds(req.attempt, &req.worker_id);
            if !stands {
                self.tasks.put(row);
                assert(self@ =~= next.0);
                return Err(Error::TaskClaimLost);
            }
            attempt = row.work.attempt;
            retried = row.work.fail(req.error.copy(), now, seed);
            self.tasks.put(row);
            assert(self@.tasks =~= next.0.tasks);
        } else if let Some(mut row) = self.steps.take(&key) {
            let stands = row.work.claim_holds(req.attempt, &req.worker_id);
            if !stands {
                self.steps.put(row);
                assert(self@ =~= next.0);
                return Err(Error::TaskClaimLost);
            }
            attempt = row.work.attempt;
            retried = row.work.fail(req.error.copy(), now, seed);
            self.steps.put(row);
            assert(self@.steps =~= next.0.steps);
        } else {
            return Err(Error::TaskNotFound);
        }
        let kept = failure_record(
            req.run_id,
            req.kind,
            req.input_digest,
            attempt,
            req.error,
            retried,
            now,
        );
        self.failures.push(kept);
        assert(views(self.failures@) =~= views(old(self).failures@).push(kept@));
        assert(self@ =~= next.0);
        Ok(())
    }

    /// Extends the lease on a unit of work; returns whether the worker still holds it.
    pub fn heartbeat_at(&mut self, req: HeartbeatRequest, now: Moment) -> (kept: Result<
        bool,
        Error,
    >)
        requires
            old(self).wf(),
            now.valid(),
        ensures
            final(self).wf(),
            ({
                let next = work_beaten(
                    old(self)@,
                    seq![req.run_id@, req.kind@, req.input_digest@],
                    req.worker_id@,
                    req.lease_seconds as nat,
                    now,
                );
                final(self)@ == next.0 && kept == Ok::<bool, Error>(next.1)
            }),
            kept == Ok::<bool, Error>(true) ==> beat_reads_back(req.lease_seconds as nat, now),
    {
        let key = key3(&req.run_id, &req.kind, &req.input_digest);
        let ghost next = work_beaten(
            old(self)@,
            texts(key@),
            req.worker_id@,
            req.lease_seconds as nat,
            now,
        );
        if let Some(mut row) = self.tasks.take(&key) {
            let kept = row.work.heartbeat(&req.worker_id, req.lease_seconds, now);
            self.tasks.put(row);
            assert(self@ =~= next.0);
            return Ok(kept);
        }
        if let Some(mut row) = self.steps.take(&key) {
            let kept = row.work.heartbeat(&req.worker_id, req.lease_seconds, now);
            self.steps.put(row);
            assert(self@ =~= next.0);
            return Ok(kept);
        }
        Ok(false)
    }

    /// The current tasks of a dataset that pass the request's filters.
    pub fn list(&self, req: ListRequest) -> (records: Result<Vec<TaskRecord>, Error>)
        requires
            self.wf(),
        ensures
            lists::<TaskRow>(
                self@.tasks,
                wanted_tasks(
                    self@,
                    seq![req.run_id@, req.kind@],
                    texts(req.statuses@),
                    texts(req.categories@),
                ),
                list_view(records),
            ),
    {
        self.list_tasks(req)
    }
}

} // verus!
