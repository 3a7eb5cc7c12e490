//! What each request on the tasks of a dataset makes of them, whatever they say.
use vstd::prelude::*;

use crate::datasets::{
    current_count, current_under, dataset_numbers, dataset_registered, next_generation,
    status_count, with_status,
};
use crate::error::Fault;
use crate::failure::{ErrorState, FailureClass};
use crate::laws::claims::{all_others_stay, only_tasks_differ, same_task_otherwise};
use crate::laws::lists::{counts_in, tells_the_task};
use crate::ledger::LedgerState;
use crate::order::is_listing;
use crate::rows::{TaskRow, TaskState};
use crate::table::{keys_where, under};
use crate::tasks::{
    case_missed, case_started, first_started, passes, starts_first, task_changed, task_done,
    task_missed, task_told, wanted_tasks,
};
use crate::time::{datetime_text, Moment};
use crate::types::{TaskInputState, TaskRecordState};
use crate::work::{fresh, Status, StoredErrorState, WorkState};

verus! {

/// The error is retried where its report says so, or says nothing and is transient or wants a
/// resource.
pub open spec fn retried_by_default(error: ErrorState) -> bool {
    match error.retryable {
        Some(retryable) => retryable,
        None => error.failure_class is Transient || error.failure_class is ResourceUnavailable,
    }
}

proof fn lemma_default(error: ErrorState)
    ensures
        crate::retry::retries(crate::retry::default_policy(), error) == retried_by_default(error),
{
    let list = crate::retry::default_retryable();
    assert(list[0] == FailureClass::Transient);
    assert(list[1] == FailureClass::ResourceUnavailable);
}

/// Of the two states of work nothing differs but what a report on a task changes.
pub open spec fn same_but_for_the_report(before: WorkState, after: WorkState) -> bool {
    after == (WorkState {
        status: after.status,
        attempt: after.attempt,
        output_json: after.output_json,
        error: after.error,
        started_at: after.started_at,
        completed_at: after.completed_at,
        updated_at: after.updated_at,
        ..before
    })
}

/// A completed task has succeeded with that output and without an error, at that time, on the
/// attempt it was on; all else stays.
pub proof fn completed_tasks_keep_the_output(work: WorkState, output: Seq<char>, now: Moment)
    ensures
        ({
            let after = task_done(work, output, now);
            &&& same_but_for_the_report(work, after)
            &&& after.status is Succeeded
            &&& after.attempt == work.attempt
            &&& after.output_json == Some(output)
            &&& after.error is Absent
            &&& after.started_at == work.started_at
            &&& after.completed_at == Some(datetime_text(now.secs))
            &&& after.updated_at == datetime_text(now.secs)
        }),
{
}

/// A failure reported of a task counts one attempt, keeps the error and when it came, and leaves the
/// output. The task may be tried again exactly if the error is retried and fewer attempts are
/// counted than the report allows; else it failed for good.
pub proof fn failed_tasks_count_attempts(
    work: WorkState,
    error: ErrorState,
    max_attempts: u32,
    now: Moment,
)
    requires
        work.attempt < u32::MAX,
    ensures
        ({
            let after = task_missed(work, error, max_attempts, now);
            &&& same_but_for_the_report(work, after)
            &&& after.attempt == work.attempt + 1
            &&& after.status is Failed || after.status is Terminal
            &&& after.status is Failed <==> retried_by_default(error) && work.attempt + 1
                < max_attempts
            &&& after.output_json == work.output_json
            &&& after.error == StoredErrorState::Present(error)
            &&& after.started_at == work.started_at
            &&& after.completed_at == Some(datetime_text(now.secs))
            &&& after.updated_at == datetime_text(now.secs)
        }),
{
    lemma_default(error);
}

/// A failure reported of a started task counts no further attempt; it may be tried again exactly if
/// the error is retried.
pub proof fn failed_cases_keep_the_attempt(work: WorkState, error: ErrorState, now: Moment)
    ensures
        ({
            let after = case_missed(work, error, now);
            &&& same_but_for_the_report(work, after)
            &&& after.attempt == work.attempt
            &&& after.status is Failed || after.status is Terminal
            &&& after.status is Failed <==> retried_by_default(error)
            &&& after.output_json == work.output_json
            &&& after.error == StoredErrorState::Present(error)
            &&& after.started_at == work.started_at
            &&& after.completed_at == Some(datetime_text(now.secs))
            &&& after.updated_at == datetime_text(now.secs)
        }),
{
    lemma_default(error);
}

/// A started task runs on its next attempt; when it was first started stays, and so do its output,
/// its error and when it was completed.
pub proof fn started_cases_run(work: WorkState, now: Moment)
    requires
        work.attempt < u32::MAX,
    ensures
        ({
            let after = case_started(work, now);
            &&& same_but_for_the_report(work, after)
            &&& after.status is Running
            &&& after.attempt == work.attempt + 1
            &&& after.output_json == work.output_json
            &&& after.error == work.error
            &&& after.completed_at == work.completed_at
            &&& work.started_at is Some ==> after.started_at == work.started_at
            &&& work.started_at is None ==> after.started_at == Some(datetime_text(now.secs))
            &&& after.updated_at == datetime_text(now.secs)
        }),
{
}

/// A report on a known task concerns the work of that task alone; one on an unknown task is not
/// found, and nothing changes.
pub proof fn reports_concern_one_task(
    state: LedgerState,
    key: Seq<Seq<char>>,
    work: WorkState,
)
    ensures
        ({
            let (after, told) = task_changed(state, key, work);
            &&& !state.tasks.contains_key(key) ==> (after, told) == (
                state,
                Err::<(), Fault>(Fault::TaskNotFound),
            )
            &&& state.tasks.contains_key(key) ==> {
                &&& told == Ok::<(), Fault>(())
                &&& only_tasks_differ(state, after)
                &&& all_others_stay(state.tasks, after.tasks, key)
                &&& after.tasks.contains_key(key)
                &&& same_task_otherwise(state.tasks[key], after.tasks[key])
                &&& after.tasks[key].work == work
            }
        }),
{
}

/// The task that is started is one of the dataset's that count and pass the filters, and none of
/// those stands at an earlier place; it is told as it is then: running, on its next attempt. Where no
/// task passes none is started, and nothing changes.
pub proof fn the_first_that_passes_is_started(
    state: LedgerState,
    run_id: Seq<char>,
    kind: Seq<char>,
    statuses: Seq<Seq<char>>,
    categories: Seq<Seq<char>>,
    now: Moment,
    after: LedgerState,
    told: Option<TaskRecordState>,
)
    requires
        forall|key: Seq<Seq<char>>| #[trigger] state.tasks.contains_key(key) ==> key.len() == 3,
        starts_first(state, seq![run_id, kind], statuses, categories, now, after, Ok(told)),
    ensures
        told is None ==> after == state && forall|digest: Seq<char>| #[trigger]
            counts_in(state, run_id, kind, digest) ==> !passes(
                state.tasks[seq![run_id, kind, digest]],
                statuses,
                categories,
            ),
        told matches Some(record) ==> {
            let key = seq![run_id, kind, record.input_digest];
            let task = state.tasks[key];
            &&& counts_in(state, run_id, kind, record.input_digest)
            &&& passes(task, statuses, categories)
            &&& forall|digest: Seq<char>| #[trigger]
                counts_in(state, run_id, kind, digest) && passes(
                    state.tasks[seq![run_id, kind, digest]],
                    statuses,
                    categories,
                ) ==> task.position <= state.tasks[seq![run_id, kind, digest]].position
            &&& only_tasks_differ(state, after)
            &&& all_others_stay(state.tasks, after.tasks, key)
            &&& after.tasks.contains_key(key)
            &&& after.tasks[key] == (TaskState { work: case_started(task.work, now), ..task })
            &&& tells_the_task(record, run_id, kind, record.input_digest, after.tasks[key])
        },
{
    let prefix = seq![run_id, kind];
    let wanted = wanted_tasks(state, prefix, statuses, categories);
    let keys = choose|keys: Seq<Seq<Seq<char>>>| #[trigger]
        is_listing::<TaskRow>(state.tasks, wanted, keys) && (
            after,
            Ok::<Option<TaskRecordState>, Fault>(told),
        ) == first_started(state, keys, now);
    assert forall|digest: Seq<char>| #[trigger]
        counts_in(state, run_id, kind, digest) && passes(
            state.tasks[seq![run_id, kind, digest]],
            statuses,
            categories,
        ) implies keys.to_set().contains(seq![run_id, kind, digest]) by {
        let key = seq![run_id, kind, digest];
        assert(key.take(2) =~= prefix);
        assert(keys_where(state.tasks, wanted).contains(key));
    }
    if keys.len() == 0 {
        assert forall|digest: Seq<char>| #[trigger]
            counts_in(state, run_id, kind, digest) implies !passes(
            state.tasks[seq![run_id, kind, digest]],
            statuses,
            categories,
        ) by {
            if passes(state.tasks[seq![run_id, kind, digest]], statuses, categories) {
                assert(keys.to_set().contains(seq![run_id, kind, digest]));
            }
        }
    } else {
        let first = keys[0];
        let record = told->0;
        assert(keys.to_set().contains(first));
        assert(keys_where(state.tasks, wanted).contains(first));
        assert(first.len() == 3);
        assert(first.take(2)[0] == first[0] && first.take(2)[1] == first[1]);
        assert(first =~= seq![run_id, kind, first[2]]);
        assert(first.take(2) =~= prefix);
        assert(task_told(first, state.tasks[first]) is Ok);
        assert(record.input_digest == first[2]);
        assert forall|digest: Seq<char>| #[trigger]
            counts_in(state, run_id, kind, digest) && passes(
                state.tasks[seq![run_id, kind, digest]],
                statuses,
                categories,
            ) implies state.tasks[first].position <= state.tasks[seq![
            run_id,
            kind,
            digest,
        ]].position by {
            let key = seq![run_id, kind, digest];
            assert(keys.to_set().contains(key));
            let a = choose|a: int| 0 <= a < keys.len() && keys[a] == key;
            if a > 0 {
                assert(<TaskRow as crate::order::Listed>::precedes(
                    keys[0],
                    state.tasks[keys[0]],
                    keys[a],
                    state.tasks[keys[a]],
                ));
                assert(keys[a][0] == run_id && keys[a][1] == kind);
                crate::text::lemma_text_before_irreflexive(run_id);
                crate::text::lemma_text_before_irreflexive(kind);
            }
        }
    }
}

/// No task is started twice by two equal requests in a row where running tasks do not pass: the
/// second starts another one, or none.
pub proof fn a_started_case_is_not_started_again(
    state: LedgerState,
    run_id: Seq<char>,
    kind: Seq<char>,
    statuses: Seq<Seq<char>>,
    categories: Seq<Seq<char>>,
    now: Moment,
    later: Moment,
    once: LedgerState,
    twice: LedgerState,
    one: TaskRecordState,
    two: TaskRecordState,
)
    requires
        forall|key: Seq<Seq<char>>| #[trigger] state.tasks.contains_key(key) ==> key.len() == 3,
        statuses.len() > 0,
        forall|i: int| 0 <= i < statuses.len() ==> #[trigger] statuses[i] != "running"@,
        starts_first(state, seq![run_id, kind], statuses, categories, now, once, Ok(Some(one))),
        starts_first(once, seq![run_id, kind], statuses, categories, later, twice, Ok(Some(two))),
    ensures
        one.input_digest != two.input_digest,
{
    the_first_that_passes_is_started(
        state,
        run_id,
        kind,
        statuses,
        categories,
        now,
        once,
        Some(one),
    );
    let key = seq![run_id, kind, one.input_digest];
    assert forall|other: Seq<Seq<char>>| #[trigger] once.tasks.contains_key(other) implies other.len()
        == 3 by {
        if other != key {
            assert(state.tasks.contains_key(other));
        }
    }
    the_first_that_passes_is_started(
        once,
        run_id,
        kind,
        statuses,
        categories,
        later,
        twice,
        Some(two),
    );
}

/// A registration gives its dataset the next generation, the first where it has none, and changes
/// nothing but tasks and generations.
pub proof fn registrations_count_up(
    state: LedgerState,
    run_id: Seq<char>,
    kind: Seq<char>,
    inputs: Seq<TaskInputState>,
    now: Moment,
)
    requires
        next_generation(state.datasets, seq![run_id, kind]) <= u32::MAX,
    ensures
        ({
            let after = dataset_registered(state, run_id, kind, inputs, now);
            let at = seq![run_id, kind];
            &&& after == (LedgerState { tasks: after.tasks, datasets: after.datasets, ..state })
            &&& after.datasets.contains_key(at)
            &&& state.datasets.contains_key(at) ==> after.datasets[at] == state.datasets[at] + 1
            &&& !state.datasets.contains_key(at) ==> after.datasets[at] == 1
            &&& all_others_stay(state.datasets, after.datasets, at)
        }),
{
}

/// An input that was not known becomes a blank task with that input, registered then; one that was
/// known keeps its input, its work and when it was registered. Either way the task has the label,
/// the category and the place of the input, and the generation of the registration.
pub proof fn registered_inputs_become_tasks(
    state: LedgerState,
    run_id: Seq<char>,
    kind: Seq<char>,
    inputs: Seq<TaskInputState>,
    now: Moment,
    i: int,
)
    requires
        inputs.len() <= u32::MAX,
        0 <= i < inputs.len(),
        forall|j: int| 0 <= j < i ==> (#[trigger] inputs[j]).input_digest != inputs[i].input_digest,
    ensures
        ({
            let key = seq![run_id, kind, inputs[i].input_digest];
            let after = dataset_registered(state, run_id, kind, inputs, now);
            let task = after.tasks[key];
            &&& after.tasks.contains_key(key)
            &&& task.label == inputs[i].label
            &&& task.category == inputs[i].category
            &&& task.position == i
            &&& task.generation == after.datasets[seq![run_id, kind]]
            &&& !state.tasks.contains_key(key) ==> {
                &&& task.input_json == inputs[i].input
                &&& task.created_at == datetime_text(now.secs)
                &&& task.work == fresh(now)
            }
            &&& state.tasks.contains_key(key) ==> {
                &&& task.input_json == state.tasks[key].input_json
                &&& task.created_at == state.tasks[key].created_at
                &&& task.work == (WorkState {
                    updated_at: datetime_text(now.secs),
                    ..state.tasks[key].work
                })
            }
        }),
{
    let digest = inputs[i].input_digest;
    let key = seq![run_id, kind, digest];
    crate::laws::datasets::first_of_identical_inputs_wins(state, run_id, kind, inputs, now, i);
    assert(crate::datasets::is_first(inputs, i, digest));
    assert(key == seq![run_id, kind, key[2]]);
    assert(crate::datasets::registers(run_id, kind, inputs, key));
}

/// A registration changes no task whose input it leaves out, of its own dataset or another.
pub proof fn registrations_leave_other_tasks(
    state: LedgerState,
    run_id: Seq<char>,
    kind: Seq<char>,
    inputs: Seq<TaskInputState>,
    now: Moment,
    key: Seq<Seq<char>>,
)
    requires
        forall|i: int|
            0 <= i < inputs.len() ==> key != seq![
                run_id,
                kind,
                (#[trigger] inputs[i]).input_digest,
            ],
    ensures
        ({
            let after = dataset_registered(state, run_id, kind, inputs, now);
            &&& after.tasks.contains_key(key) == state.tasks.contains_key(key)
            &&& state.tasks.contains_key(key) ==> after.tasks[key] == state.tasks[key]
        }),
{
    if crate::datasets::registers(run_id, kind, inputs, key) {
        let i = choose|i: int| crate::datasets::is_first(inputs, i, key[2]);
        assert(key == seq![run_id, kind, inputs[i].input_digest]);
    }
}

/// The keys of the dataset's tasks that count, all of them or those with one status.
pub open spec fn counted_keys(
    state: LedgerState,
    run_id: Seq<char>,
    kind: Seq<char>,
    status: Option<Status>,
) -> Set<Seq<Seq<char>>> {
    state.tasks.dom().filter(
        |key: Seq<Seq<char>>|
            {
                &&& key.len() >= 2
                &&& key[0] == run_id
                &&& key[1] == kind
                &&& state.datasets.contains_key(seq![run_id, kind]) ==> state.tasks[key].generation
                    == state.datasets[seq![run_id, kind]]
                &&& status is Some ==> state.tasks[key].work.status == status->0
            },
    )
}

/// The numbers of a dataset are how many of its tasks count, all of them and by status.
pub proof fn numbers_count_the_tasks(state: LedgerState, run_id: Seq<char>, kind: Seq<char>)
    ensures
        ({
            let numbers = dataset_numbers(state, run_id, kind);
            let of = |status: Status| counted_keys(state, run_id, kind, Some(status)).len() as u32;
            &&& numbers.total == counted_keys(state, run_id, kind, None).len() as u32
            &&& numbers.pending == of(Status::Pending)
            &&& numbers.running == of(Status::Running)
            &&& numbers.succeeded == of(Status::Succeeded)
            &&& numbers.failed == of(Status::Failed)
            &&& numbers.terminal == of(Status::Terminal)
        }),
{
    lemma_counted_keys(state, run_id, kind, Status::Pending);
    lemma_counted_keys(state, run_id, kind, Status::Running);
    lemma_counted_keys(state, run_id, kind, Status::Succeeded);
    lemma_counted_keys(state, run_id, kind, Status::Failed);
    lemma_counted_keys(state, run_id, kind, Status::Terminal);
}

proof fn lemma_counted_keys(
    state: LedgerState,
    run_id: Seq<char>,
    kind: Seq<char>,
    status: Status,
)
    ensures
        current_count(state, seq![run_id, kind]) == counted_keys(state, run_id, kind, None).len(),
        status_count(state, seq![run_id, kind], status) == counted_keys(
            state,
            run_id,
            kind,
            Some(status),
        ).len(),
{
    let prefix = seq![run_id, kind];
    let all = keys_where(state.tasks, current_under(state, prefix));
    let some = keys_where(state.tasks, with_status(state, prefix, status));
    assert forall|key: Seq<Seq<char>>|
        (all.contains(key) <==> counted_keys(state, run_id, kind, None).contains(key)) && (
        some.contains(key) <==> counted_keys(state, run_id, kind, Some(status)).contains(key)) by {
        if key.len() >= 2 {
            assert(key.take(2)[0] == key[0] && key.take(2)[1] == key[1]);
            assert(prefix[0] == run_id && prefix[1] == kind);
            if key[0] == run_id && key[1] == kind {
                assert(key.take(2) =~= prefix);
            }
            if under(prefix, key) {
                assert(key.take(2) == prefix);
            }
        }
    }
    assert(all =~= counted_keys(state, run_id, kind, None));
    assert(some =~= counted_keys(state, run_id, kind, Some(status)));
}

} // verus!
