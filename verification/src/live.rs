//! The requests as a server takes them: each at the moment it comes in.
use vstd::prelude::*;

use crate::datasets::{
    dataset_numbers, dataset_registered, generation_refusal, next_generation, rows_under,
};
use crate::error::{result_view, views, Error, Fault};
use crate::export::{exports, tells_numbers, Export};
use crate::json::list_reads_back;
use crate::ledger::{memo_written, run_registered, Ledger, LedgerState};
use crate::registry::{review_kept, worker_registered};
use crate::report::{countable, summed_up};
use crate::retry::retries;
use crate::rows::{ReviewRecord, ReviewState};
use crate::steps::{claim_of, step_beaten, step_begun, step_completed, step_failed};
use crate::tasks::{
    case_missed, opt_view, startable, starts_first, task_changed, task_done, task_missed,
};
use crate::text::{opt_text, texts};
use crate::time::{clock, datetime_text, jitter_seed, Moment};
use crate::traces::trace_added;
use crate::types::{
    BeginRequest, BeginStepRequest, CompleteRequest, CompleteStepRequest, CompleteTaskRequest,
    DatasetSummary, ExportRequest, FailCaseRequest, FailRequest, FailStepRequest, FailTaskRequest,
    HeartbeatRequest, HeartbeatStepRequest, ListRequest, MemoPutRequest, RegisterDatasetRequest,
    RegisterRunRequest, RegisterWorkerRequest, ReviewRequest, RunSummary, SummaryRequest,
    TaskRecord, TraceEventRecord, TraceEventRequest, WorkerRecord, WorkerRecordState,
};
use crate::unified::{
    claim_made, work_beaten, work_begun, work_completed, work_failed, work_under,
};
use crate::work::{beat_reads_back, lease_reads_back, policy_of, retry_reads_back, Outcome};

verus! {

/// The number is a seed for jitter: less than a second in nanoseconds.
pub open spec fn seeded(seed: u64) -> bool {
    seed < 1_000_000_000
}

impl Ledger {
    /// Registers a run, or changes its name and configuration.
    pub fn register_run(&mut self, req: RegisterRunRequest) -> (done: Result<(), Error>)
        requires
            old(self).wf(),
        ensures
            final(self).wf(),
            exists|now: Moment|
                #[trigger] now.valid()
                    && done is Ok
                    && final(self)@ == run_registered(
                        old(self)@,
                        req.run_id@,
                        opt_text(req.name),
                        req.config@,
                        now,
                    ),
    {
        let now = clock();
        assert(now.valid());
        self.register_run_at(req, now)
    }

    /// Begins a step, unless it is done, held, waiting or has failed for good.
    pub fn begin_step(&mut self, req: BeginStepRequest) -> (outcome: Result<Outcome, Error>)
        requires
            old(self).wf(),
        ensures
            final(self).wf(),
            exists|now: Moment|
                #[trigger] now.valid() && {
                    let next = step_begun(
                        old(self)@,
                        seq![req.run_id@, req.step_name@, req.input_digest@],
                        claim_of(req),
                        now,
                    );
                    &&& final(self)@ == next.0
                    &&& result_view(outcome) == next.1
                    &&& outcome matches Ok(Outcome::Execute { attempt }) ==> lease_reads_back(
                        claim_of(req),
                        now,
                    )
                },
    {
        let now = clock();
        assert(now.valid());
        self.begin_step_at(req, now)
    }

    /// Completes a step and keeps what it made.
    pub fn complete_step(&mut self, req: CompleteStepRequest) -> (done: Result<(), Error>)
        requires
            old(self).wf(),
        ensures
            final(self).wf(),
            exists|now: Moment|
                #[trigger] now.valid() && {
                    let next = step_completed(
                        old(self)@,
                        seq![req.run_id@, req.step_name@, req.input_digest@],
                        req.output@,
                        views(req.artifacts@),
                        now,
                    );
                    final(self)@ == next.0 && result_view(done) == next.1
                },
    {
        let now = clock();
        assert(now.valid());
        self.complete_step_at(req, now)
    }

    /// Reports that a step failed.
    pub fn fail_step(&mut self, req: FailStepRequest) -> (done: Result<(), Error>)
        requires
            old(self).wf(),
        ensures
            final(self).wf(),
            exists|now: Moment, seed: u64|
                #[trigger] now.valid() && #[trigger] seeded(seed) && {
                    let key = seq![req.run_id@, req.step_name@, req.input_digest@];
                    let next = step_failed(old(self)@, key, req.error@, now, seed as nat);
                    let work = old(self)@.steps[key];
                    &&& final(self)@ == next.0
                    &&& result_view(done) == next.1
                    &&& done is Ok && retries(policy_of(work), req.error@) ==> retry_reads_back(
                        work,
                        now,
                        seed as nat,
                    )
                },
    {
        let now = clock();
        let seed: u64 = jitter_seed();
        assert(now.valid() && seeded(seed));
        self.fail_step_at(req, now, seed)
    }

    /// Extends the lease on a step; returns whether the worker still holds it.
    pub fn heartbeat_step(&mut self, req: HeartbeatStepRequest) -> (kept: Result<bool, Error>)
        requires
            old(self).wf(),
        ensures
            final(self).wf(),
            exists|now: Moment|
                #[trigger] now.valid() && {
                    let next = step_beaten(
                        old(self)@,
                        seq![req.run_id@, req.step_name@, req.input_digest@],
                        req.worker_id@,
                        req.lease_seconds as nat,
                        now,
                    );
                    &&& final(self)@ == next.0
                    &&& kept == Ok::<bool, Error>(next.1)
                    &&& next.1 ==> beat_reads_back(req.lease_seconds as nat, now)
                },
    {
        let now = clock();
        assert(now.valid());
        self.heartbeat_step_at(req, now)
    }

    /// Begins a unit of work, unless it is done, held, waiting or has failed for good.
    pub fn begin(&mut self, req: BeginRequest) -> (outcome: Result<Outcome, Error>)
        requires
            old(self).wf(),
        ensures
            final(self).wf(),
            exists|now: Moment|
                #[trigger] now.valid() && {
                    let next = work_begun(
                        old(self)@,
                        seq![req.run_id@, req.kind@, req.input_digest@],
                        claim_made(req),
                        now,
                    );
                    &&& final(self)@ == next.0
                    &&& result_view(outcome) == next.1
                    &&& outcome matches Ok(Outcome::Execute { attempt }) ==> lease_reads_back(
                        claim_made(req),
                        now,
                    )
                },
    {
        let now = clock();
        assert(now.valid());
        self.begin_at(req, now)
    }

    /// Completes a unit of work.
    pub fn complete(&mut self, req: CompleteRequest) -> (done: Result<(), Error>)
        requires
            old(self).wf(),
        ensures
            final(self).wf(),
            exists|now: Moment|
                #[trigger] now.valid() && {
                    let next = work_completed(
                        old(self)@,
                        seq![req.run_id@, req.kind@, req.input_digest@],
                        req.attempt,
                        opt_text(req.worker_id),
                        req.output@,
                        now,
                    );
                    final(self)@ == next.0 && result_view(done) == next.1
                },
    {
        let now = clock();
        assert(now.valid());
        self.complete_at(req, now)
    }

    /// Reports that a unit of work failed.
    pub fn fail(&mut self, req: FailRequest) -> (done: Result<(), Error>)
        requires
            old(self).wf(),
        ensures
            final(self).wf(),
            exists|now: Moment, seed: u64|
                #[trigger] now.valid() && #[trigger] seeded(seed) && {
                    let key = seq![req.run_id@, req.kind@, req.input_digest@];
                    let next = work_failed(
                        old(self)@,
                        key,
                        req.attempt,
                        opt_text(req.worker_id),
                        req.error@,
                        now,
                        seed as nat,
                    );
                    let work = work_under(old(self)@, key);
                    &&& final(self)@ == next.0
                    &&& result_view(done) == next.1
                    &&& done is Ok && retries(policy_of(work), req.error@) ==> retry_reads_back(
                        work,
                        now,
                        seed as nat,
                    )
                },
    {
        let now = clock();
        let seed: u64 = jitter_seed();
        assert(now.valid() && seeded(seed));
        self.fail_at(req, now, seed)
    }

    /// Extends the lease on a unit of work; returns whether the worker still holds it.
    pub fn heartbeat(&mut self, req: HeartbeatRequest) -> (kept: Result<bool, Error>)
        requires
            old(self).wf(),
        ensures
            final(self).wf(),
            exists|now: Moment|
                #[trigger] now.valid() && {
                    let next = work_beaten(
                        old(self)@,
                        seq![req.run_id@, req.kind@, req.input_digest@],
                        req.worker_id@,
                        req.lease_seconds as nat,
                        now,
                    );
                    &&& final(self)@ == next.0
                    &&& kept == Ok::<bool, Error>(next.1)
                    &&& next.1 ==> beat_reads_back(req.lease_seconds as nat, now)
                },
    {
        let now = clock();
        assert(now.valid());
        self.heartbeat_at(req, now)
    }

    /// Registers the tasks of a dataset; the tasks of this registration count from now on.
    pub fn register_dataset(
        &mut self,
        req: RegisterDatasetRequest,
    ) -> (summary: Result<DatasetSummary, Error>)
        requires
            old(self).wf(),
            rows_under(old(self)@, seq![req.run_id@, req.kind@]) + req.tasks@.len() <= u32::MAX,
        ensures
            final(self).wf(),
            exists|now: Moment|
                #[trigger] now.valid() && {
                    let state = dataset_registered(
                        old(self)@,
                        req.run_id@,
                        req.kind@,
                        views(req.tasks@),
                        now,
                    );
                    if next_generation(
                        old(self)@.datasets,
                        seq![req.run_id@, req.kind@],
                    ) > u32::MAX {
                        final(self)@ == old(self)@
                            && result_view(summary) == Err::<DatasetSummary, Fault>(
                                generation_refusal(),
                            )
                    } else {
                        final(self)@ == state
                            && result_view(summary) == Ok::<DatasetSummary, Fault>(
                                dataset_numbers(state, req.run_id@, req.kind@),
                            )
                    }
                },
    {
        let now = clock();
        assert(now.valid());
        self.register_dataset_at(req, now)
    }

    /// Completes a task.
    pub fn complete_task(&mut self, req: CompleteTaskRequest) -> (done: Result<(), Error>)
        requires
            old(self).wf(),
        ensures
            final(self).wf(),
            exists|now: Moment|
                #[trigger] now.valid() && {
                    let next = task_changed(
                        old(self)@,
                        seq![req.run_id@, req.kind@, req.input_digest@],
                        task_done(
                            old(self)@.tasks[seq![req.run_id@, req.kind@, req.input_digest@]].work,
                            req.output@,
                            now,
                        ),
                    );
                    final(self)@ == next.0 && result_view(done) == next.1
                },
    {
        let now = clock();
        assert(now.valid());
        self.complete_task_at(req, now)
    }

    /// Reports that a task failed, which counts as an attempt.
    pub fn fail_task(&mut self, req: FailTaskRequest) -> (done: Result<(), Error>)
        requires
            old(self).wf(),
            ({
                let key = seq![req.run_id@, req.kind@, req.input_digest@];
                old(self)@.tasks.contains_key(key) ==> old(self)@.tasks[key].work.attempt < u32::MAX
            }),
        ensures
            final(self).wf(),
            exists|now: Moment|
                #[trigger] now.valid() && {
                    let next = task_changed(
                        old(self)@,
                        seq![req.run_id@, req.kind@, req.input_digest@],
                        task_missed(
                            old(self)@.tasks[seq![req.run_id@, req.kind@, req.input_digest@]].work,
                            req.error@,
                            req.max_attempts,
                            now,
                        ),
                    );
                    final(self)@ == next.0 && result_view(done) == next.1
                },
    {
        let now = clock();
        assert(now.valid());
        self.fail_task_at(req, now)
    }

    /// Reports that a started task failed.
    pub fn fail_case(&mut self, req: FailCaseRequest) -> (done: Result<(), Error>)
        requires
            old(self).wf(),
        ensures
            final(self).wf(),
            exists|now: Moment|
                #[trigger] now.valid() && {
                    let next = task_changed(
                        old(self)@,
                        seq![req.run_id@, req.kind@, req.input_digest@],
                        case_missed(
                            old(self)@.tasks[seq![req.run_id@, req.kind@, req.input_digest@]].work,
                            req.error@,
                            now,
                        ),
                    );
                    final(self)@ == next.0 && result_view(done) == next.1
                },
    {
        let now = clock();
        assert(now.valid());
        self.fail_case_at(req, now)
    }

    /// Starts the first of the dataset's tasks that pass the request's filters, if there is one.
    pub fn start_case(&mut self, req: ListRequest) -> (started: Result<Option<TaskRecord>, Error>)
        requires
            old(self).wf(),
            startable(
                old(self)@,
                seq![req.run_id@, req.kind@],
                texts(req.statuses@),
                texts(req.categories@),
            ),
        ensures
            final(self).wf(),
            exists|now: Moment|
                #[trigger] now.valid()
                    && starts_first(
                        old(self)@,
                        seq![req.run_id@, req.kind@],
                        texts(req.statuses@),
                        texts(req.categories@),
                        now,
                        final(self)@,
                        opt_view(started),
                    ),
    {
        let now = clock();
        assert(now.valid());
        self.start_case_at(req, now)
    }

    /// Makes a worker known.
    pub fn register_worker(
        &mut self,
        req: RegisterWorkerRequest,
    ) -> (record: Result<WorkerRecord, Error>)
        requires
            old(self).wf(),
        ensures
            final(self).wf(),
            exists|now: Moment|
                #[trigger] now.valid()
                    && final(self)@ == worker_registered(
                        old(self)@,
                        req.worker_id@,
                        opt_text(req.hostname),
                        req.process_id,
                        req.resources@,
                        now,
                    )
                    && result_view(record) == Ok::<WorkerRecordState, Fault>(
                        WorkerRecordState {
                            worker_id: req.worker_id@,
                            hostname: opt_text(req.hostname),
                            process_id: req.process_id,
                            resources: req.resources@,
                            heartbeat_at: datetime_text(now.secs),
                        },
                    ),
    {
        let now = clock();
        assert(now.valid());
        self.register_worker_at(req, now)
    }

    /// Records a decision on a task.
    pub fn mark_reviewed(&mut self, req: ReviewRequest) -> (record: Result<ReviewRecord, Error>)
        requires
            old(self).wf(),
        ensures
            final(self).wf(),
            exists|now: Moment|
                #[trigger] now.valid()
                    && final(self)@ == (LedgerState {
                        reviews: old(self)@.reviews.push(review_kept(req, now)),
                        ..old(self)@
                    })
                    && result_view(record) == Ok::<ReviewState, Fault>(review_kept(req, now)),
    {
        let now = clock();
        assert(now.valid());
        self.mark_reviewed_at(req, now)
    }

    /// Adds an event to the trace of a task.
    pub fn add_trace_event(&mut self, req: TraceEventRequest) -> (record: Result<
        TraceEventRecord,
        Error,
    >)
        requires
            old(self).wf(),
        ensures
            final(self).wf(),
            exists|now: Moment|
                #[trigger] now.valid() && {
                    let next = trace_added(old(self)@, req@, now);
                    final(self)@ == next.0 && result_view(record) == next.1
                },
            record is Ok ==> list_reads_back(texts(req.artifact_ids@)),
    {
        let now = clock();
        assert(now.valid());
        self.add_trace_event_at(req, now)
    }

    /// Writes a memo.
    pub fn memo_put(&mut self, req: MemoPutRequest) -> (done: Result<(), Error>)
        requires
            old(self).wf(),
        ensures
            final(self).wf(),
            exists|now: Moment|
                #[trigger] now.valid()
                    && done is Ok
                    && final(self)@ == memo_written(
                        old(self)@,
                        req.run_id@,
                        req.key_digest@,
                        req.key@,
                        req.value@,
                        now,
                    ),
    {
        let now = clock();
        assert(now.valid());
        self.memo_put_at(req, now)
    }

    /// A run in numbers.
    pub fn summary(&self, req: SummaryRequest) -> (summary: Result<RunSummary, Error>)
        requires
            self.wf(),
            countable(self@, req.run_id@),
        ensures
            exists|now: Moment|
                #[trigger] now.valid()
                    && result_view(summary) == summed_up(self@, req.run_id@, now),
    {
        let now = clock();
        assert(now.valid());
        self.summary_at(req, now)
    }

    /// What an export of a run consists of.
    pub fn export(&self, req: ExportRequest) -> (export: Result<Export, Error>)
        requires
            self.wf(),
            tells_numbers(req.kind) ==> countable(self@, req.run_id@),
        ensures
            exists|now: Moment|
                #[trigger] now.valid()
                    && exports(self@, req.run_id@, req.kind, now, result_view(export)),
    {
        let now = clock();
        assert(now.valid());
        self.export_at(req, now)
    }
}

} // verus!
