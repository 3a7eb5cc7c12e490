//! What the requests that write come to, other than those on units of work: what each answers and
//! leaves, by what it was given.
use vstd::prelude::*;

use crate::datasets::{dataset_numbers, dataset_registered, next_generation};
use crate::error::{result_view, views, Error, Fault};
use crate::failure::ErrorInfo;
use crate::json::list_text;
use crate::laws::claims::{
    all_others_stay, new_work_is_blank, only_tasks_differ, same_task_otherwise,
};
use crate::laws::entries::{events_are_as_given, runs_are_as_registered};
use crate::laws::queries::{lemma_variants_told, variants_told};
use crate::laws::records::variants_of_a_dimension_are_replaced;
use crate::laws::tasks::{
    counted_keys, failed_cases_keep_the_attempt, failed_tasks_count_attempts,
    numbers_count_the_tasks, registered_inputs_become_tasks, registrations_count_up,
    registrations_leave_other_tasks, retried_by_default, same_but_for_the_report,
};
use crate::laws::values::spells;
use crate::ledger::{Ledger, LedgerState};
use crate::rows::{ReviewRecord, TraceState, VariantState};
use crate::text::{opt_text, texts};
use crate::time::{datetime_text, Moment};
use crate::traces::{highest_index, trace_added};
use crate::types::{
    CompleteTaskRequest, DatasetSummary, FailCaseRequest, FailTaskRequest, MemoPutRequest,
    RegisterDatasetRequest, RegisterRunRequest, RegisterVariantsRequest, RegisterWorkerRequest,
    ReviewRequest, TraceEventRecord, TraceEventRequest, VariantRecord, WorkerRecord,
};
use crate::work::{Status, StoredErrorState, WorkState};

verus! {

/// What a registration of a run leaves.
pub open spec fn run_answered(
    before: LedgerState,
    req: RegisterRunRequest,
    now: Moment,
    after: LedgerState,
    done: Result<(), Error>,
) -> bool {
    let key = seq![req.run_id@];
    let run = after.runs[key];
    &&& done is Ok
    &&& after == (LedgerState { runs: after.runs, ..before })
    &&& all_others_stay(before.runs, after.runs, key)
    &&& after.runs.contains_key(key)
    &&& req.name is None ==> run.name is None
    &&& req.name is Some ==> run.name == Some(req.name->0@)
    &&& run.config_json == req.config@
    &&& spells(
        run.config_digest,
        crate::digest::sha256_digest(vstd::utf8::encode_utf8(req.config@)),
    )
    &&& run.updated_at == datetime_text(now.secs)
    &&& run.created_at == if before.runs.contains_key(key) {
        before.runs[key].created_at
    } else {
        datetime_text(now.secs)
    }
}

/// A run is registered with the name and the configuration of the request, and keeps when it first
/// was; nothing else changes.
pub proof fn runs_are_registered(
    ledger: &mut Ledger,
    req: RegisterRunRequest,
    now: Moment,
    done: Result<(), Error>,
)
    requires
        call_ensures(Ledger::register_run_at, (ledger, req, now), done),
    ensures
        run_answered(old(ledger)@, req, now, final(ledger)@, done),
{
    runs_are_as_registered(old(ledger)@, req.run_id@, opt_text(req.name), req.config@, now);
}

/// Registrations of runs that are answered by the clock are answered as for some time that it can
/// show.
pub proof fn runs_go_by_the_clock(
    ledger: &mut Ledger,
    req: RegisterRunRequest,
    done: Result<(), Error>,
)
    requires
        call_ensures(Ledger::register_run, (ledger, req), done),
    ensures
        exists|now: Moment| #[trigger]
            now.valid() && run_answered(old(ledger)@, req, now, final(ledger)@, done),
{
    let now = choose|now: Moment| #[trigger]
        now.valid() && done is Ok && final(ledger)@ == crate::ledger::run_registered(
            old(ledger)@,
            req.run_id@,
            opt_text(req.name),
            req.config@,
            now,
        );
    runs_are_as_registered(old(ledger)@, req.run_id@, opt_text(req.name), req.config@, now);
    assert(now.valid());
}

/// What a memo that is written leaves.
pub open spec fn memo_answered(
    before: LedgerState,
    req: MemoPutRequest,
    now: Moment,
    after: LedgerState,
    done: Result<(), Error>,
) -> bool {
    let key = seq![req.run_id@, req.key_digest@];
    &&& done is Ok
    &&& after == (LedgerState { memos: after.memos, ..before })
    &&& all_others_stay(before.memos, after.memos, key)
    &&& after.memos.contains_key(key)
    &&& after.memos[key].key_json == req.key@
    &&& after.memos[key].value_json == req.value@
    &&& after.memos[key].created_at == if before.memos.contains_key(key) {
        before.memos[key].created_at
    } else {
        datetime_text(now.secs)
    }
}

/// A memo is written under its run and its digest with the key and the value of the request, and
/// keeps when it first was; nothing else changes.
pub proof fn memos_are_written(
    ledger: &mut Ledger,
    req: MemoPutRequest,
    now: Moment,
    done: Result<(), Error>,
)
    requires
        call_ensures(Ledger::memo_put_at, (ledger, req, now), done),
    ensures
        memo_answered(old(ledger)@, req, now, final(ledger)@, done),
{
}

/// Memos that are written by the clock are written as for some time that it can show.
pub proof fn memos_go_by_the_clock(
    ledger: &mut Ledger,
    req: MemoPutRequest,
    done: Result<(), Error>,
)
    requires
        call_ensures(Ledger::memo_put, (ledger, req), done),
    ensures
        exists|now: Moment| #[trigger]
            now.valid() && memo_answered(old(ledger)@, req, now, final(ledger)@, done),
{
}

/// No earlier input of the request has the digest of that at `i`.
pub open spec fn is_new_input(req: RegisterDatasetRequest, i: int) -> bool {
    &&& 0 <= i < req.tasks@.len()
    &&& forall|j: int|
        0 <= j < i ==> (#[trigger] req.tasks@[j]).input_digest@ != req.tasks@[i].input_digest@
}

/// The input at `i` stands in the store as a task of the latest registration, at its place. One that
/// was there before keeps its input and its work.
pub open spec fn input_is_registered(
    before: LedgerState,
    req: RegisterDatasetRequest,
    now: Moment,
    after: LedgerState,
    i: int,
) -> bool {
    let key = seq![req.run_id@, req.kind@, req.tasks@[i].input_digest@];
    let task = after.tasks[key];
    &&& after.tasks.contains_key(key)
    &&& task.label == opt_text(req.tasks@[i].label)
    &&& task.category == opt_text(req.tasks@[i].category)
    &&& task.position == i
    &&& task.generation == after.datasets[seq![req.run_id@, req.kind@]]
    &&& !before.tasks.contains_key(key) ==> {
        &&& task.input_json == req.tasks@[i].input@
        &&& task.created_at == datetime_text(now.secs)
        &&& task.work.status is Pending
        &&& task.work.attempt == 0
        &&& task.work.output_json is None
        &&& task.work.error is Absent
        &&& task.work.lease_owner is None
        &&& task.work.started_at is None
        &&& task.work.completed_at is None
        &&& task.work.updated_at == datetime_text(now.secs)
    }
    &&& before.tasks.contains_key(key) ==> {
        &&& task.input_json == before.tasks[key].input_json
        &&& task.created_at == before.tasks[key].created_at
        &&& task.work == (WorkState {
            updated_at: datetime_text(now.secs),
            ..before.tasks[key].work
        })
    }
}

/// The key is that of one of the inputs in the dataset.
pub open spec fn is_input_key(req: RegisterDatasetRequest, key: Seq<Seq<char>>) -> bool {
    exists|i: int|
        0 <= i < req.tasks@.len() && key == seq![
            req.run_id@,
            req.kind@,
            (#[trigger] req.tasks@[i]).input_digest@,
        ]
}

/// The summary says how many tasks of the dataset count, all of them and by status.
pub open spec fn summary_says(
    state: LedgerState,
    run_id: Seq<char>,
    kind: Seq<char>,
    numbers: DatasetSummary,
) -> bool {
    let of = |status: Status| counted_keys(state, run_id, kind, Some(status)).len() as u32;
    &&& numbers.total == counted_keys(state, run_id, kind, None).len() as u32
    &&& numbers.pending == of(Status::Pending)
    &&& numbers.running == of(Status::Running)
    &&& numbers.succeeded == of(Status::Succeeded)
    &&& numbers.failed == of(Status::Failed)
    &&& numbers.terminal == of(Status::Terminal)
}

/// What a registration of a dataset is answered, and what it leaves.
pub open spec fn dataset_answered(
    before: LedgerState,
    req: RegisterDatasetRequest,
    now: Moment,
    after: LedgerState,
    summary: Result<DatasetSummary, Error>,
) -> bool {
    let at = seq![req.run_id@, req.kind@];
    if before.datasets.contains_key(at) && before.datasets[at] == u32::MAX {
        &&& after == before
        &&& summary is Err
        &&& summary->Err_0@ == Fault::Sqlite("Integer 4294967296 out of range at index 0"@)
    } else {
        &&& summary is Ok
        &&& summary_says(after, req.run_id@, req.kind@, summary->Ok_0)
        &&& after == (LedgerState { tasks: after.tasks, datasets: after.datasets, ..before })
        &&& all_others_stay(before.datasets, after.datasets, at)
        &&& after.datasets.contains_key(at)
        &&& before.datasets.contains_key(at) ==> after.datasets[at] == before.datasets[at] + 1
        &&& !before.datasets.contains_key(at) ==> after.datasets[at] == 1
        &&& forall|i: int| #[trigger]
            is_new_input(req, i) ==> input_is_registered(before, req, now, after, i)
        &&& forall|key: Seq<Seq<char>>|
            !(#[trigger] is_input_key(req, key)) ==> {
                &&& after.tasks.contains_key(key) == before.tasks.contains_key(key)
                &&& before.tasks.contains_key(key) ==> after.tasks[key] == before.tasks[key]
            }
    }
}

proof fn lemma_dataset_answered(
    before: LedgerState,
    req: RegisterDatasetRequest,
    now: Moment,
    after: LedgerState,
    summary: Result<DatasetSummary, Error>,
)
    requires
        req.tasks@.len() <= u32::MAX,
        if next_generation(before.datasets, seq![req.run_id@, req.kind@]) > u32::MAX {
            after == before && result_view(summary) == Err::<DatasetSummary, Fault>(
                crate::datasets::generation_refusal(),
            )
        } else {
            after == dataset_registered(before, req.run_id@, req.kind@, views(req.tasks@), now)
                && result_view(summary) == Ok::<DatasetSummary, Fault>(
                dataset_numbers(after, req.run_id@, req.kind@),
            )
        },
    ensures
        dataset_answered(before, req, now, after, summary),
{
    let at = seq![req.run_id@, req.kind@];
    let inputs = views(req.tasks@);
    assert forall|i: int| 0 <= i < inputs.len() implies #[trigger] inputs[i] == req.tasks@[i]@ by {}
    if !(before.datasets.contains_key(at) && before.datasets[at] == u32::MAX) {
        registrations_count_up(before, req.run_id@, req.kind@, inputs, now);
        numbers_count_the_tasks(after, req.run_id@, req.kind@);
        new_work_is_blank(now);
        assert forall|i: int| #[trigger] is_new_input(req, i) implies input_is_registered(
            before,
            req,
            now,
            after,
            i,
        ) by {
            assert forall|j: int| 0 <= j < i implies (#[trigger] inputs[j]).input_digest
                != inputs[i].input_digest by {
                assert(req.tasks@[j].input_digest@ != req.tasks@[i].input_digest@);
            }
            registered_inputs_become_tasks(before, req.run_id@, req.kind@, inputs, now, i);
        }
        assert forall|key: Seq<Seq<char>>| !(#[trigger] is_input_key(req, key)) implies {
            &&& after.tasks.contains_key(key) == before.tasks.contains_key(key)
            &&& before.tasks.contains_key(key) ==> after.tasks[key] == before.tasks[key]
        } by {
            assert forall|i: int| 0 <= i < inputs.len() implies key != seq![
                req.run_id@,
                req.kind@,
                (#[trigger] inputs[i]).input_digest,
            ] by {
                assert(inputs[i].input_digest == req.tasks@[i].input_digest@);
            }
            registrations_leave_other_tasks(before, req.run_id@, req.kind@, inputs, now, key);
        }
    }
}

/// A registration places each of its inputs once, at the place where it first stands, and leaves all
/// other tasks alone; it counts the registrations of the dataset up, and says how many tasks then
/// count. Only a dataset whose registrations can be counted no further is refused.
pub proof fn registrations_place_their_inputs(
    ledger: &mut Ledger,
    req: RegisterDatasetRequest,
    now: Moment,
    summary: Result<DatasetSummary, Error>,
)
    requires
        req.tasks@.len() <= u32::MAX,
        call_ensures(Ledger::register_dataset_at, (ledger, req, now), summary),
    ensures
        dataset_answered(old(ledger)@, req, now, final(ledger)@, summary),
{
    lemma_dataset_answered(old(ledger)@, req, now, final(ledger)@, summary);
}

/// Registrations that are answered by the clock are answered as for some time that it can show.
pub proof fn registrations_go_by_the_clock(
    ledger: &mut Ledger,
    req: RegisterDatasetRequest,
    summary: Result<DatasetSummary, Error>,
)
    requires
        req.tasks@.len() <= u32::MAX,
        call_ensures(Ledger::register_dataset, (ledger, req), summary),
    ensures
        exists|now: Moment| #[trigger]
            now.valid() && dataset_answered(old(ledger)@, req, now, final(ledger)@, summary),
{
    let before = old(ledger)@;
    let after = final(ledger)@;
    let at = seq![req.run_id@, req.kind@];
    let now = choose|now: Moment| #[trigger]
        now.valid() && if next_generation(before.datasets, at) > u32::MAX {
            after == before && result_view(summary) == Err::<DatasetSummary, Fault>(
                crate::datasets::generation_refusal(),
            )
        } else {
            after == dataset_registered(before, req.run_id@, req.kind@, views(req.tasks@), now)
                && result_view(summary) == Ok::<DatasetSummary, Fault>(
                dataset_numbers(after, req.run_id@, req.kind@),
            )
        };
    lemma_dataset_answered(before, req, now, after, summary);
    assert(now.valid());
}

/// A new store knows nothing.
pub proof fn new_stores_are_empty(ledger: Ledger)
    requires
        call_ensures(Ledger::new, (), ledger),
    ensures
        ledger.wf(),
        forall|key: Seq<Seq<char>>| !#[trigger] ledger@.runs.contains_key(key),
        forall|key: Seq<Seq<char>>| !#[trigger] ledger@.steps.contains_key(key),
        forall|key: Seq<Seq<char>>| !#[trigger] ledger@.artifacts.contains_key(key),
        forall|key: Seq<Seq<char>>| !#[trigger] ledger@.datasets.contains_key(key),
        forall|key: Seq<Seq<char>>| !#[trigger] ledger@.tasks.contains_key(key),
        forall|key: Seq<Seq<char>>| !#[trigger] ledger@.memos.contains_key(key),
        forall|key: Seq<Seq<char>>| !#[trigger] ledger@.variants.contains_key(key),
        forall|key: Seq<Seq<char>>| !#[trigger] ledger@.workers.contains_key(key),
        ledger@.failures.len() == 0,
        ledger@.traces.len() == 0,
        ledger@.last_trace_id == 0,
        ledger@.reviews.len() == 0,
{
}

/// A summary of a dataset says how many of its tasks count, all of them and by status.
pub proof fn summaries_say_how_many(
    ledger: &Ledger,
    run_id: &str,
    kind: &str,
    summary: Result<DatasetSummary, Error>,
)
    requires
        call_ensures(Ledger::dataset_summary, (ledger, run_id, kind), summary),
    ensures
        summary is Ok,
        summary_says(ledger@, run_id@, kind@, summary->Ok_0),
{
    numbers_count_the_tasks(ledger@, run_id@, kind@);
}

/// What a report on a task of a dataset is answered: one on a known task concerns its work alone,
/// and one on an unknown task nothing.
pub open spec fn report_answered(
    before: LedgerState,
    key: Seq<Seq<char>>,
    after: LedgerState,
    done: Result<(), Error>,
) -> bool {
    &&& before.tasks.contains_key(key) ==> {
        &&& done is Ok
        &&& only_tasks_differ(before, after)
        &&& all_others_stay(before.tasks, after.tasks, key)
        &&& after.tasks.contains_key(key)
        &&& same_task_otherwise(before.tasks[key], after.tasks[key])
        &&& same_but_for_the_report(before.tasks[key].work, after.tasks[key].work)
        &&& after.tasks[key].work.started_at == before.tasks[key].work.started_at
    }
    &&& !before.tasks.contains_key(key) ==> {
        &&& done is Err
        &&& done->Err_0@ is TaskNotFound
        &&& after == before
    }
}

/// The task under the key has succeeded with the output.
pub open spec fn task_completed(
    before: LedgerState,
    key: Seq<Seq<char>>,
    output: Seq<char>,
    now: Moment,
    after: LedgerState,
) -> bool {
    before.tasks.contains_key(key) ==> {
        let work = after.tasks[key].work;
        &&& work.status is Succeeded
        &&& work.output_json == Some(output)
        &&& work.error is Absent
        &&& work.attempt == before.tasks[key].work.attempt
        &&& work.completed_at == Some(datetime_text(now.secs))
        &&& work.updated_at == datetime_text(now.secs)
    }
}

/// The task under the key has failed with the error, on that attempt, and may be tried again or not.
pub open spec fn task_failed(
    before: LedgerState,
    key: Seq<Seq<char>>,
    error: ErrorInfo,
    attempt: int,
    again: bool,
    now: Moment,
    after: LedgerState,
) -> bool {
    before.tasks.contains_key(key) ==> {
        let work = after.tasks[key].work;
        &&& work.status == if again {
            Status::Failed
        } else {
            Status::Terminal
        }
        &&& work.output_json == before.tasks[key].work.output_json
        &&& work.error == StoredErrorState::Present(error@)
        &&& work.attempt == attempt
        &&& work.completed_at == Some(datetime_text(now.secs))
        &&& work.updated_at == datetime_text(now.secs)
    }
}

/// A completion of a task of a dataset ends that task with its output, and nothing else changes.
pub proof fn task_completions_end_the_task(
    ledger: &mut Ledger,
    req: CompleteTaskRequest,
    now: Moment,
    done: Result<(), Error>,
)
    requires
        call_ensures(Ledger::complete_task_at, (ledger, req, now), done),
    ensures
        ({
            let key = seq![req.run_id@, req.kind@, req.input_digest@];
            &&& report_answered(old(ledger)@, key, final(ledger)@, done)
            &&& task_completed(old(ledger)@, key, req.output@, now, final(ledger)@)
        }),
{
}

/// Completions of tasks that are answered by the clock are answered as for some time that it can
/// show.
pub proof fn task_completions_go_by_the_clock(
    ledger: &mut Ledger,
    req: CompleteTaskRequest,
    done: Result<(), Error>,
)
    requires
        call_ensures(Ledger::complete_task, (ledger, req), done),
    ensures
        exists|now: Moment| #[trigger]
            now.valid() && ({
                let key = seq![req.run_id@, req.kind@, req.input_digest@];
                &&& report_answered(old(ledger)@, key, final(ledger)@, done)
                &&& task_completed(old(ledger)@, key, req.output@, now, final(ledger)@)
            }),
{
}

/// A failure of a task of a dataset counts one attempt. The task may be tried again exactly if the
/// error is one that is retried by default or by its report, and attempts are left.
pub proof fn task_failures_count_the_attempt(
    ledger: &mut Ledger,
    req: FailTaskRequest,
    now: Moment,
    done: Result<(), Error>,
)
    requires
        call_ensures(Ledger::fail_task_at, (ledger, req, now), done),
        ({
            let key = seq![req.run_id@, req.kind@, req.input_digest@];
            old(ledger)@.tasks.contains_key(key) ==> old(ledger)@.tasks[key].work.attempt
                < u32::MAX
        }),
    ensures
        ({
            let key = seq![req.run_id@, req.kind@, req.input_digest@];
            let attempt = old(ledger)@.tasks[key].work.attempt + 1;
            &&& report_answered(old(ledger)@, key, final(ledger)@, done)
            &&& task_failed(
                old(ledger)@,
                key,
                req.error,
                attempt,
                retried_by_default(req.error@) && attempt < req.max_attempts,
                now,
                final(ledger)@,
            )
        }),
{
    let key = seq![req.run_id@, req.kind@, req.input_digest@];
    if old(ledger)@.tasks.contains_key(key) {
        failed_tasks_count_attempts(
            old(ledger)@.tasks[key].work,
            req.error@,
            req.max_attempts,
            now,
        );
    }
}

/// Failures of tasks that are answered by the clock are answered as for some time that it can show.
pub proof fn task_failures_go_by_the_clock(
    ledger: &mut Ledger,
    req: FailTaskRequest,
    done: Result<(), Error>,
)
    requires
        call_ensures(Ledger::fail_task, (ledger, req), done),
        ({
            let key = seq![req.run_id@, req.kind@, req.input_digest@];
            old(ledger)@.tasks.contains_key(key) ==> old(ledger)@.tasks[key].work.attempt
                < u32::MAX
        }),
    ensures
        exists|now: Moment| #[trigger]
            now.valid() && ({
                let key = seq![req.run_id@, req.kind@, req.input_digest@];
                let attempt = old(ledger)@.tasks[key].work.attempt + 1;
                &&& report_answered(old(ledger)@, key, final(ledger)@, done)
                &&& task_failed(
                    old(ledger)@,
                    key,
                    req.error,
                    attempt,
                    retried_by_default(req.error@) && attempt < req.max_attempts,
                    now,
                    final(ledger)@,
                )
            }),
{
    let key = seq![req.run_id@, req.kind@, req.input_digest@];
    let before = old(ledger)@;
    let now = choose|now: Moment| #[trigger]
        now.valid() && (final(ledger)@, result_view(done)) == crate::tasks::task_changed(
            before,
            key,
            crate::tasks::task_missed(before.tasks[key].work, req.error@, req.max_attempts, now),
        );
    if before.tasks.contains_key(key) {
        failed_tasks_count_attempts(before.tasks[key].work, req.error@, req.max_attempts, now);
    }
    assert(now.valid());
}

/// A failure of a started task counts no further attempt. The task may be tried again exactly if the
/// error is one that is retried by default or by its report.
pub proof fn case_failures_keep_the_attempt(
    ledger: &mut Ledger,
    req: FailCaseRequest,
    now: Moment,
    done: Result<(), Error>,
)
    requires
        call_ensures(Ledger::fail_case_at, (ledger, req, now), done),
    ensures
        ({
            let key = seq![req.run_id@, req.kind@, req.input_digest@];
            &&& report_answered(old(ledger)@, key, final(ledger)@, done)
            &&& task_failed(
                old(ledger)@,
                key,
                req.error,
                old(ledger)@.tasks[key].work.attempt as int,
                retried_by_default(req.error@),
                now,
                final(ledger)@,
            )
        }),
{
    let key = seq![req.run_id@, req.kind@, req.input_digest@];
    failed_cases_keep_the_attempt(old(ledger)@.tasks[key].work, req.error@, now);
}

/// Failures of started tasks that are answered by the clock are answered as for some time that it can
/// show.
pub proof fn case_failures_go_by_the_clock(
    ledger: &mut Ledger,
    req: FailCaseRequest,
    done: Result<(), Error>,
)
    requires
        call_ensures(Ledger::fail_case, (ledger, req), done),
    ensures
        exists|now: Moment| #[trigger]
            now.valid() && ({
                let key = seq![req.run_id@, req.kind@, req.input_digest@];
                &&& report_answered(old(ledger)@, key, final(ledger)@, done)
                &&& task_failed(
                    old(ledger)@,
                    key,
                    req.error,
                    old(ledger)@.tasks[key].work.attempt as int,
                    retried_by_default(req.error@),
                    now,
                    final(ledger)@,
                )
            }),
{
    let key = seq![req.run_id@, req.kind@, req.input_digest@];
    let before = old(ledger)@;
    let now = choose|now: Moment| #[trigger]
        now.valid() && (final(ledger)@, result_view(done)) == crate::tasks::task_changed(
            before,
            key,
            crate::tasks::case_missed(before.tasks[key].work, req.error@, now),
        );
    failed_cases_keep_the_attempt(before.tasks[key].work, req.error@, now);
    assert(now.valid());
}

/// A registration of variants is refused exactly if two of them share a name, and then changes
/// nothing. Any other leaves, along its dimension of its run, exactly the variants that it names,
/// and all others as they were.
pub proof fn variants_are_replaced(
    ledger: &mut Ledger,
    req: RegisterVariantsRequest,
    records: Result<Vec<VariantRecord>, Error>,
    key: Seq<Seq<char>>,
)
    requires
        call_ensures(Ledger::register_variants, (ledger, req), records),
    ensures
        (exists|i: int, j: int|
            0 <= i < j < req.variants@.len() && (#[trigger] req.variants@[i]).name@ == (
            #[trigger] req.variants@[j]).name@) ==> {
            &&& final(ledger)@ == old(ledger)@
            &&& records is Err
            &&& records->Err_0@ == Fault::Sqlite(
                "UNIQUE constraint failed: variants.run_id, variants.dimension, variants.name"@,
            )
        },
        (forall|i: int, j: int|
            0 <= i < j < req.variants@.len() ==> (#[trigger] req.variants@[i]).name@ != (
            #[trigger] req.variants@[j]).name@) ==> {
            let before = old(ledger)@;
            let after = final(ledger)@;
            let here = key.len() >= 2 && key[0] == req.run_id@ && key[1] == req.dimension@;
            &&& after == (LedgerState { variants: after.variants, ..before })
            &&& forall|i: int|
                0 <= i < req.variants@.len() && key == seq![
                    req.run_id@,
                    req.dimension@,
                    (#[trigger] req.variants@[i]).name@,
                ] ==> after.variants.contains_key(key) && after.variants[key] == (VariantState {
                    config_json: req.variants@[i].config@,
                    digest: req.variants@[i].digest@,
                })
            &&& here && after.variants.contains_key(key) ==> exists|i: int|
                0 <= i < req.variants@.len() && key == seq![
                    req.run_id@,
                    req.dimension@,
                    (#[trigger] req.variants@[i]).name@,
                ]
            &&& !here ==> after.variants.contains_key(key) == before.variants.contains_key(key) && (
            after.variants.contains_key(key) ==> after.variants[key] == before.variants[key])
        },
{
    let inputs = views(req.variants@);
    assert forall|i: int| 0 <= i < inputs.len() implies #[trigger] inputs[i]
        == req.variants@[i]@ by {}
    let prefix = seq![req.run_id@, req.dimension@];
    assert(prefix[0] == req.run_id@ && prefix[1] == req.dimension@);
    if key.len() >= 2 {
        assert(key.take(2)[0] == key[0] && key.take(2)[1] == key[1]);
        if key[0] == req.run_id@ && key[1] == req.dimension@ {
            assert(key.take(2) =~= prefix);
        }
    }
    if exists|i: int, j: int|
        0 <= i < j < req.variants@.len() && (#[trigger] req.variants@[i]).name@ == (
        #[trigger] req.variants@[j]).name@ {
        let (i, j) = choose|i: int, j: int|
            0 <= i < j < req.variants@.len() && (#[trigger] req.variants@[i]).name@ == (
            #[trigger] req.variants@[j]).name@;
        assert(inputs[i].name == inputs[j].name);
    } else {
        assert forall|i: int, j: int| 0 <= i < j < inputs.len() implies (#[trigger] inputs[i]).name
            != (#[trigger] inputs[j]).name by {
            assert(req.variants@[i].name@ != req.variants@[j].name@);
        }
        variants_of_a_dimension_are_replaced(
            old(ledger)@,
            req.run_id@,
            req.dimension@,
            inputs,
            key,
        );
        let after = final(ledger)@;
        assert forall|i: int|
            0 <= i < req.variants@.len() && key == seq![
                req.run_id@,
                req.dimension@,
                (#[trigger] req.variants@[i]).name@,
            ] implies after.variants.contains_key(key) && after.variants[key] == (VariantState {
            config_json: req.variants@[i].config@,
            digest: req.variants@[i].digest@,
        }) by {
            assert(inputs[i].name == req.variants@[i].name@);
        }
        if crate::table::under(prefix, key) && after.variants.contains_key(key) {
            let i = choose|i: int|
                0 <= i < inputs.len() && key == seq![
                    req.run_id@,
                    req.dimension@,
                    (#[trigger] inputs[i]).name,
                ];
            assert(inputs[i].name == req.variants@[i].name@);
        }
    }
}

/// A registration of variants that is not refused is answered with all variants of the run.
pub proof fn replaced_variants_are_told(
    ledger: &mut Ledger,
    req: RegisterVariantsRequest,
    records: Result<Vec<VariantRecord>, Error>,
)
    requires
        call_ensures(Ledger::register_variants, (ledger, req), records),
        forall|i: int, j: int|
            0 <= i < j < req.variants@.len() ==> (#[trigger] req.variants@[i]).name@ != (
            #[trigger] req.variants@[j]).name@,
    ensures
        variants_told(final(ledger)@, req.run_id@, records),
{
    let inputs = views(req.variants@);
    assert forall|i: int, j: int| 0 <= i < j < inputs.len() implies (#[trigger] inputs[i]).name != (
    #[trigger] inputs[j]).name by {
        assert(req.variants@[i].name@ != req.variants@[j].name@);
    }
    lemma_variants_told(&*final(ledger), req.run_id@, records);
}

/// What a worker that makes itself known is answered, and what it leaves.
pub open spec fn worker_answered(
    before: LedgerState,
    req: RegisterWorkerRequest,
    now: Moment,
    after: LedgerState,
    record: Result<WorkerRecord, Error>,
) -> bool {
    let key = seq![req.worker_id@];
    let worker = after.workers[key];
    &&& after == (LedgerState { workers: after.workers, ..before })
    &&& all_others_stay(before.workers, after.workers, key)
    &&& after.workers.contains_key(key)
    &&& req.hostname is None ==> worker.hostname is None
    &&& req.hostname is Some ==> worker.hostname == Some(req.hostname->0@)
    &&& worker.process_id == req.process_id
    &&& worker.resources_json == req.resources@
    &&& worker.heartbeat_at == datetime_text(now.secs)
    &&& record is Ok
    &&& record->Ok_0.worker_id@ == req.worker_id@
    &&& opt_text(record->Ok_0.hostname) == worker.hostname
    &&& record->Ok_0.process_id == req.process_id
    &&& record->Ok_0.resources@ == req.resources@
    &&& record->Ok_0.heartbeat_at@ == datetime_text(now.secs)
}

/// A worker is known from then on as it says, and told so; nothing else changes.
pub proof fn workers_are_known(
    ledger: &mut Ledger,
    req: RegisterWorkerRequest,
    now: Moment,
    record: Result<WorkerRecord, Error>,
)
    requires
        call_ensures(Ledger::register_worker_at, (ledger, req, now), record),
    ensures
        worker_answered(old(ledger)@, req, now, final(ledger)@, record),
{
}

/// Workers that make themselves known by the clock are known as for some time that it can show.
pub proof fn workers_go_by_the_clock(
    ledger: &mut Ledger,
    req: RegisterWorkerRequest,
    record: Result<WorkerRecord, Error>,
)
    requires
        call_ensures(Ledger::register_worker, (ledger, req), record),
    ensures
        exists|now: Moment| #[trigger]
            now.valid() && worker_answered(old(ledger)@, req, now, final(ledger)@, record),
{
}

/// What a decision on a task is answered, and what it leaves.
pub open spec fn decision_answered(
    before: LedgerState,
    req: ReviewRequest,
    now: Moment,
    after: LedgerState,
    record: Result<ReviewRecord, Error>,
) -> bool {
    let kept = after.reviews.last();
    &&& after == (LedgerState { reviews: after.reviews, ..before })
    &&& after.reviews.len() == before.reviews.len() + 1
    &&& after.reviews.drop_last() == before.reviews
    &&& kept.run_id == req.run_id@
    &&& kept.kind == req.kind@
    &&& kept.task_id == req.task_id@
    &&& kept.reviewer == req.reviewer@
    &&& kept.decision == req.decision
    &&& req.note is None ==> kept.note is None
    &&& req.note is Some ==> kept.note == Some(req.note->0@)
    &&& kept.timestamp == datetime_text(now.secs)
    &&& record is Ok
    &&& record->Ok_0@ == kept
}

/// A decision on a task is added to those before it as it was taken, and told so; nothing else
/// changes.
pub proof fn decisions_are_added(
    ledger: &mut Ledger,
    req: ReviewRequest,
    now: Moment,
    record: Result<ReviewRecord, Error>,
)
    requires
        call_ensures(Ledger::mark_reviewed_at, (ledger, req, now), record),
    ensures
        decision_answered(old(ledger)@, req, now, final(ledger)@, record),
{
    let before = old(ledger)@.reviews;
    assert(before.push(final(ledger)@.reviews.last()).drop_last() =~= before);
}

/// Decisions that are taken by the clock are taken as for some time that it can show.
pub proof fn decisions_go_by_the_clock(
    ledger: &mut Ledger,
    req: ReviewRequest,
    record: Result<ReviewRecord, Error>,
)
    requires
        call_ensures(Ledger::mark_reviewed, (ledger, req), record),
    ensures
        exists|now: Moment| #[trigger]
            now.valid() && decision_answered(old(ledger)@, req, now, final(ledger)@, record),
{
    let before = old(ledger)@.reviews;
    assert(before.push(final(ledger)@.reviews.last()).drop_last() =~= before);
}

/// The event is of the attempt that the request names.
pub open spec fn is_of_the_attempt(trace: TraceState, req: TraceEventRequest) -> bool {
    &&& trace.run_id == req.run_id@
    &&& trace.kind == req.kind@
    &&& trace.task_id == req.task_id@
    &&& trace.attempt == req.attempt
}

/// The number is the highest among the events of the attempt that the request names; none is higher
/// than zero where there is no event.
pub open spec fn is_highest(traces: Seq<TraceState>, req: TraceEventRequest, n: int) -> bool {
    &&& forall|i: int|
        0 <= i < traces.len() && is_of_the_attempt(#[trigger] traces[i], req)
            ==> traces[i].event_index <= n
    &&& n == 0 || exists|i: int|
        0 <= i < traces.len() && is_of_the_attempt(#[trigger] traces[i], req)
            && traces[i].event_index == n
}

/// What an event that is added is answered, and what it leaves.
pub open spec fn event_answered(
    before: LedgerState,
    req: TraceEventRequest,
    now: Moment,
    after: LedgerState,
    record: Result<TraceEventRecord, Error>,
) -> bool {
    let kept = after.traces.last();
    forall|highest: int| #[trigger]
        is_highest(before.traces, req, highest) && highest >= 0 ==> {
            &&& highest >= u32::MAX ==> {
                &&& after == before
                &&& record is Err
                &&& record->Err_0@ == Fault::Sqlite("Integer 4294967296 out of range at index 0"@)
            }
            &&& highest < u32::MAX && before.last_trace_id == i64::MAX ==> {
                &&& after == before
                &&& record is Err
                &&& record->Err_0@ == Fault::Sqlite("database or disk is full"@)
            }
            &&& highest < u32::MAX && before.last_trace_id < i64::MAX ==> {
                &&& after == (LedgerState {
                    traces: after.traces,
                    last_trace_id: (before.last_trace_id + 1) as i64,
                    ..before
                })
                &&& after.traces.len() == before.traces.len() + 1
                &&& after.traces.drop_last() == before.traces
                &&& is_of_the_attempt(kept, req)
                &&& kept.id == before.last_trace_id + 1
                &&& kept.event_index == highest + 1
                &&& kept.event_type == req.event_type@
                &&& kept.payload_json == req.payload@
                &&& kept.artifact_ids_json == list_text(texts(req.artifact_ids@))
                &&& kept.created_at == datetime_text(now.secs)
                &&& record is Ok
                &&& record->Ok_0.id == kept.id
                &&& record->Ok_0.run_id@ == req.run_id@
                &&& record->Ok_0.kind@ == req.kind@
                &&& record->Ok_0.task_id@ == req.task_id@
                &&& record->Ok_0.attempt == req.attempt
                &&& record->Ok_0.event_index == highest + 1
                &&& record->Ok_0.event_type@ == req.event_type@
                &&& record->Ok_0.payload@ == req.payload@
                &&& texts(record->Ok_0.artifact_ids@) == texts(req.artifact_ids@)
                &&& record->Ok_0.created_at@ == datetime_text(now.secs)
            }
        }
}

proof fn lemma_event_answered(
    before: LedgerState,
    req: TraceEventRequest,
    now: Moment,
    after: LedgerState,
    record: Result<TraceEventRecord, Error>,
)
    requires
        (after, result_view(record)) == trace_added(before, req@, now),
    ensures
        event_answered(before, req, now, after, record),
{
    events_are_as_given(before, req@, now);
    crate::laws::entries::the_highest_number_is_the_highest(
        before.traces,
        req.run_id@,
        req.kind@,
        req.task_id@,
        req.attempt,
    );
    let known = highest_index(before.traces, req.run_id@, req.kind@, req.task_id@, req.attempt);
    assert forall|highest: int| #[trigger]
        is_highest(before.traces, req, highest) && highest >= 0 implies highest == known by {
        if known > 0 {
            let i = choose|i: int|
                0 <= i < before.traces.len() && (#[trigger] before.traces[i]).run_id == req.run_id@
                    && before.traces[i].kind == req.kind@ && before.traces[i].task_id
                    == req.task_id@ && before.traces[i].attempt == req.attempt
                    && before.traces[i].event_index == known;
            assert(is_of_the_attempt(before.traces[i], req));
        }
        if highest > 0 {
            let i = choose|i: int|
                0 <= i < before.traces.len() && is_of_the_attempt(
                    #[trigger] before.traces[i],
                    req,
                ) && before.traces[i].event_index == highest;
            assert(before.traces[i].event_index <= known);
        }
    }
}

/// An event is added at the end as it was given, under the next id and under the number after the
/// highest of its attempt, and told so; only where one of the two has run out is it refused, and
/// nothing changes.
pub proof fn events_are_added(
    ledger: &mut Ledger,
    req: TraceEventRequest,
    now: Moment,
    record: Result<TraceEventRecord, Error>,
)
    requires
        call_ensures(Ledger::add_trace_event_at, (ledger, req, now), record),
    ensures
        event_answered(old(ledger)@, req, now, final(ledger)@, record),
{
    lemma_event_answered(old(ledger)@, req, now, final(ledger)@, record);
}

/// Events that are added by the clock are added as for some time that it can show.
pub proof fn events_go_by_the_clock(
    ledger: &mut Ledger,
    req: TraceEventRequest,
    record: Result<TraceEventRecord, Error>,
)
    requires
        call_ensures(Ledger::add_trace_event, (ledger, req), record),
    ensures
        exists|now: Moment| #[trigger]
            now.valid() && event_answered(old(ledger)@, req, now, final(ledger)@, record),
{
    let now = choose|now: Moment| #[trigger]
        now.valid() && (final(ledger)@, result_view(record)) == trace_added(
            old(ledger)@,
            req@,
            now,
        );
    lemma_event_answered(old(ledger)@, req, now, final(ledger)@, record);
    assert(now.valid());
}

} // verus!
