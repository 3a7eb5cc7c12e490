//! Histories: every change that a request can make, and what all of them keep.
use vstd::prelude::*;

use crate::datasets::{dataset_registered, next_generation, registers, tasks_placed};
use crate::failure::ErrorState;
use crate::laws::datasets::registration_adds_at_most_its_inputs;
use crate::ledger::{empty_ledger, memo_written, run_registered, LedgerState};
use crate::registry::{name_twice, variants_added, variants_replaced, worker_registered};
use crate::rows::{ReviewState, TaskState, TraceState, VariantState};
use crate::steps::{step_beaten, step_begun, step_completed, step_failed};
use crate::table::{under, without};
use crate::tasks::{case_missed, case_started, task_changed, task_done, task_missed};
use crate::time::Moment;
use crate::traces::{highest_index, of_attempt, trace_added};
use crate::types::{ArtifactInput, TaskInputState, TraceEventState, VariantInputState};
use crate::unified::{work_beaten, work_begun, work_completed, work_failed};
use crate::work::{ClaimState, WorkState};

verus! {

/// A change that a request makes to the store.
pub enum Change {
    RegisterRun { run_id: Seq<char>, name: Option<Seq<char>>, config: Seq<char>, now: Moment },
    BeginStep { key: Seq<Seq<char>>, claim: ClaimState, now: Moment },
    CompleteStep {
        key: Seq<Seq<char>>,
        output: Seq<char>,
        made: Seq<ArtifactInput>,
        now: Moment,
    },
    FailStep { key: Seq<Seq<char>>, error: ErrorState, now: Moment, seed: nat },
    BeatStep { key: Seq<Seq<char>>, worker_id: Seq<char>, lease_seconds: nat, now: Moment },
    Begin { key: Seq<Seq<char>>, claim: ClaimState, now: Moment },
    Complete {
        key: Seq<Seq<char>>,
        attempt: Option<u32>,
        worker_id: Option<Seq<char>>,
        output: Seq<char>,
        now: Moment,
    },
    Fail {
        key: Seq<Seq<char>>,
        attempt: Option<u32>,
        worker_id: Option<Seq<char>>,
        error: ErrorState,
        now: Moment,
        seed: nat,
    },
    Beat { key: Seq<Seq<char>>, worker_id: Seq<char>, lease_seconds: nat, now: Moment },
    RegisterDataset {
        run_id: Seq<char>,
        kind: Seq<char>,
        inputs: Seq<TaskInputState>,
        now: Moment,
    },
    CompleteTask { key: Seq<Seq<char>>, output: Seq<char>, now: Moment },
    FailTask { key: Seq<Seq<char>>, error: ErrorState, max_attempts: u32, now: Moment },
    StartCase { key: Seq<Seq<char>>, now: Moment },
    FailCase { key: Seq<Seq<char>>, error: ErrorState, now: Moment },
    RegisterVariants {
        run_id: Seq<char>,
        dimension: Seq<char>,
        inputs: Seq<VariantInputState>,
    },
    RegisterWorker {
        worker_id: Seq<char>,
        hostname: Option<Seq<char>>,
        process_id: Option<u32>,
        resources: Seq<char>,
        now: Moment,
    },
    Review { review: ReviewState },
    AddTraceEvent { event: TraceEventState, now: Moment },
    PutMemo {
        run_id: Seq<char>,
        key_digest: Seq<char>,
        key: Seq<char>,
        value: Seq<char>,
        now: Moment,
    },
}

/// The store after the change.
pub open spec fn changed(state: LedgerState, change: Change) -> LedgerState {
    match change {
        Change::RegisterRun { run_id, name, config, now } => run_registered(
            state,
            run_id,
            name,
            config,
            now,
        ),
        Change::BeginStep { key, claim, now } => step_begun(state, key, claim, now).0,
        Change::CompleteStep { key, output, made, now } => step_completed(
            state,
            key,
            output,
            made,
            now,
        ).0,
        Change::FailStep { key, error, now, seed } => step_failed(state, key, error, now, seed).0,
        Change::BeatStep { key, worker_id, lease_seconds, now } => step_beaten(
            state,
            key,
            worker_id,
            lease_seconds,
            now,
        ).0,
        Change::Begin { key, claim, now } => work_begun(state, key, claim, now).0,
        Change::Complete { key, attempt, worker_id, output, now } => work_completed(
            state,
            key,
            attempt,
            worker_id,
            output,
            now,
        ).0,
        Change::Fail { key, attempt, worker_id, error, now, seed } => work_failed(
            state,
            key,
            attempt,
            worker_id,
            error,
            now,
            seed,
        ).0,
        Change::Beat { key, worker_id, lease_seconds, now } => work_beaten(
            state,
            key,
            worker_id,
            lease_seconds,
            now,
        ).0,
        Change::RegisterDataset { run_id, kind, inputs, now } => if next_generation(
            state.datasets,
            seq![run_id, kind],
        ) > u32::MAX {
            state
        } else {
            dataset_registered(state, run_id, kind, inputs, now)
        },
        Change::CompleteTask { key, output, now } => task_changed(
            state,
            key,
            task_done(state.tasks[key].work, output, now),
        ).0,
        Change::FailTask { key, error, max_attempts, now } => task_changed(
            state,
            key,
            task_missed(state.tasks[key].work, error, max_attempts, now),
        ).0,
        Change::StartCase { key, now } => task_changed(
            state,
            key,
            case_started(state.tasks[key].work, now),
        ).0,
        Change::FailCase { key, error, now } => task_changed(
            state,
            key,
            case_missed(state.tasks[key].work, error, now),
        ).0,
        Change::RegisterVariants { run_id, dimension, inputs } => if name_twice(inputs) {
            state
        } else {
            variants_replaced(state, run_id, dimension, inputs)
        },
        Change::RegisterWorker { worker_id, hostname, process_id, resources, now } =>
            worker_registered(state, worker_id, hostname, process_id, resources, now),
        Change::Review { review } => LedgerState { reviews: state.reviews.push(review), ..state },
        Change::AddTraceEvent { event, now } => trace_added(state, event, now).0,
        Change::PutMemo { run_id, key_digest, key, value, now } => memo_written(
            state,
            run_id,
            key_digest,
            key,
            value,
            now,
        ),
    }
}

/// The key of the unit of work that the change is about, if it is about one.
pub open spec fn work_key(change: Change) -> Option<Seq<Seq<char>>> {
    match change {
        Change::BeginStep { key, .. } => Some(key),
        Change::CompleteStep { key, .. } => Some(key),
        Change::FailStep { key, .. } => Some(key),
        Change::BeatStep { key, .. } => Some(key),
        Change::Begin { key, .. } => Some(key),
        Change::Complete { key, .. } => Some(key),
        Change::Fail { key, .. } => Some(key),
        Change::Beat { key, .. } => Some(key),
        Change::CompleteTask { key, .. } => Some(key),
        Change::FailTask { key, .. } => Some(key),
        Change::StartCase { key, .. } => Some(key),
        Change::FailCase { key, .. } => Some(key),
        _ => None,
    }
}

/// A unit of work is found by a run, a kind and a digest.
pub open spec fn proper(change: Change) -> bool {
    work_key(change) matches Some(key) ==> key.len() == 3
}

/// Work that succeeded has an output and no error.
pub open spec fn outcome_kept(work: WorkState) -> bool {
    work.status is Succeeded ==> work.output_json is Some && work.error is Absent
}

/// How many of the first events belong to that attempt.
pub open spec fn events_of(
    traces: Seq<TraceState>,
    run_id: Seq<char>,
    kind: Seq<char>,
    task_id: Seq<char>,
    attempt: u32,
) -> nat
    decreases traces.len(),
{
    if traces.len() == 0 {
        0
    } else {
        events_of(traces.drop_last(), run_id, kind, task_id, attempt) + if of_attempt(
            traces.last(),
            run_id,
            kind,
            task_id,
            attempt,
        ) {
            1nat
        } else {
            0nat
        }
    }
}

/// The event at `i` has the number that comes next in its attempt.
pub open spec fn numbered(traces: Seq<TraceState>, i: int) -> bool {
    let trace = traces[i];
    trace.event_index == events_of(
        traces.take(i),
        trace.run_id,
        trace.kind,
        trace.task_id,
        trace.attempt,
    ) + 1
}

/// The store is in order:
///
/// - there are finitely many tasks;
/// - the tasks of a dataset are from its registrations, none later than the latest;
/// - work that succeeded has its output;
/// - the events of each attempt are numbered from one on, without gaps;
/// - the ids of events grow.
pub open spec fn orderly(state: LedgerState) -> bool {
    &&& state.tasks.dom().finite()
    &&& forall|key: Seq<Seq<char>>| #[trigger]
        state.tasks.contains_key(key) ==> {
            &&& key.len() == 3
            &&& state.datasets.contains_key(key.take(2))
            &&& 1 <= state.tasks[key].generation <= state.datasets[key.take(2)]
            &&& outcome_kept(state.tasks[key].work)
        }
    &&& forall|key: Seq<Seq<char>>| #[trigger]
        state.steps.contains_key(key) ==> key.len() == 3 && outcome_kept(state.steps[key])
    &&& forall|i: int| 0 <= i < state.traces.len() ==> #[trigger] numbered(state.traces, i)
    &&& forall|i: int, j: int|
        0 <= i < j < state.traces.len() ==> (#[trigger] state.traces[i]).id < (
        #[trigger] state.traces[j]).id
    &&& forall|i: int| 0 <= i < state.traces.len() ==> (#[trigger] state.traces[i]).id
        <= state.last_trace_id
}

/// A store that knows nothing is in order.
pub proof fn empty_is_orderly()
    ensures
        orderly(empty_ledger()),
{
}

/// In an orderly trace the highest number of an attempt is how many events it has.
proof fn lemma_highest_is_count(
    traces: Seq<TraceState>,
    run_id: Seq<char>,
    kind: Seq<char>,
    task_id: Seq<char>,
    attempt: u32,
)
    requires
        forall|i: int| 0 <= i < traces.len() ==> #[trigger] numbered(traces, i),
    ensures
        highest_index(traces, run_id, kind, task_id, attempt) == events_of(
            traces,
            run_id,
            kind,
            task_id,
            attempt,
        ),
    decreases traces.len(),
{
    if traces.len() > 0 {
        let fewer = traces.drop_last();
        assert forall|i: int| 0 <= i < fewer.len() implies #[trigger] numbered(fewer, i) by {
            assert(numbered(traces, i));
            assert(fewer.take(i) =~= traces.take(i));
        }
        lemma_highest_is_count(fewer, run_id, kind, task_id, attempt);
        assert(numbered(traces, traces.len() - 1));
        assert(traces.take(traces.len() - 1) =~= fewer);
    }
}

proof fn lemma_trace_added_orderly(state: LedgerState, event: TraceEventState, now: Moment)
    requires
        orderly(state),
    ensures
        orderly(trace_added(state, event, now).0),
{
    let after = trace_added(state, event, now).0;
    lemma_highest_is_count(
        state.traces,
        event.run_id,
        event.kind,
        event.task_id,
        event.attempt,
    );
    if after.traces.len() > state.traces.len() {
        assert forall|i: int| 0 <= i < after.traces.len() implies #[trigger] numbered(
            after.traces,
            i,
        ) by {
            if i < state.traces.len() {
                assert(numbered(state.traces, i));
                assert(after.traces.take(i) =~= state.traces.take(i));
            } else {
                assert(after.traces.take(i) =~= state.traces);
            }
        }
    }
}

proof fn lemma_dataset_registered_orderly(
    state: LedgerState,
    run_id: Seq<char>,
    kind: Seq<char>,
    inputs: Seq<TaskInputState>,
    now: Moment,
)
    requires
        orderly(state),
        next_generation(state.datasets, seq![run_id, kind]) <= u32::MAX,
    ensures
        orderly(dataset_registered(state, run_id, kind, inputs, now)),
{
    let after = dataset_registered(state, run_id, kind, inputs, now);
    registration_adds_at_most_its_inputs(state, run_id, kind, inputs, now);
    assert forall|key: Seq<Seq<char>>| #[trigger] after.tasks.contains_key(key) implies {
        &&& key.len() == 3
        &&& after.datasets.contains_key(key.take(2))
        &&& 1 <= after.tasks[key].generation <= after.datasets[key.take(2)]
        &&& outcome_kept(after.tasks[key].work)
    } by {
        if registers(run_id, kind, inputs, key) {
            assert(key.take(2) =~= seq![run_id, kind]);
            if state.tasks.contains_key(key) {
                assert(outcome_kept(state.tasks[key].work));
            }
        } else {
            assert(state.tasks.contains_key(key));
        }
    }
}

/// Every change keeps the store in order.
pub proof fn every_change_keeps_order(state: LedgerState, change: Change)
    requires
        orderly(state),
        proper(change),
    ensures
        orderly(changed(state, change)),
{
    match change {
        Change::AddTraceEvent { event, now } => {
            lemma_trace_added_orderly(state, event, now);
        },
        Change::RegisterDataset { run_id, kind, inputs, now } => {
            if next_generation(state.datasets, seq![run_id, kind]) <= u32::MAX {
                lemma_dataset_registered_orderly(state, run_id, kind, inputs, now);
            }
        },
        _ => {},
    }
}

/// The store after all the changes, one after the other.
pub open spec fn after_all(state: LedgerState, changes: Seq<Change>) -> LedgerState
    decreases changes.len(),
{
    if changes.len() == 0 {
        state
    } else {
        changed(after_all(state, changes.drop_last()), changes.last())
    }
}

/// Whatever requests a new store has served, it is in order.
pub proof fn every_history_is_orderly(changes: Seq<Change>)
    requires
        forall|i: int| 0 <= i < changes.len() ==> proper(#[trigger] changes[i]),
    ensures
        orderly(after_all(empty_ledger(), changes)),
    decreases changes.len(),
{
    if changes.len() == 0 {
        empty_is_orderly();
    } else {
        let fewer = changes.drop_last();
        assert forall|i: int| 0 <= i < fewer.len() implies proper(#[trigger] fewer[i]) by {
            assert(proper(changes[i]));
        }
        every_history_is_orderly(fewer);
        assert(proper(changes[changes.len() - 1]));
        every_change_keeps_order(after_all(empty_ledger(), fewer), changes.last());
    }
}

/// The run that the change is about, if it is about one.
pub open spec fn run_of(change: Change) -> Option<Seq<char>> {
    match change {
        Change::RegisterRun { run_id, .. } => Some(run_id),
        Change::RegisterDataset { run_id, .. } => Some(run_id),
        Change::RegisterVariants { run_id, .. } => Some(run_id),
        Change::RegisterWorker { .. } => None,
        Change::Review { review } => Some(review.run_id),
        Change::AddTraceEvent { event, .. } => Some(event.run_id),
        Change::PutMemo { run_id, .. } => Some(run_id),
        _ => Some(work_key(change)->0[0]),
    }
}

/// The two maps hold the same under the key, or both nothing.
pub open spec fn agree_at<V>(
    before: Map<Seq<Seq<char>>, V>,
    after: Map<Seq<Seq<char>>, V>,
    key: Seq<Seq<char>>,
) -> bool {
    &&& before.contains_key(key) == after.contains_key(key)
    &&& before.contains_key(key) ==> before[key] == after[key]
}

/// The two maps agree on every key of other runs.
pub open spec fn same_elsewhere<V>(
    before: Map<Seq<Seq<char>>, V>,
    after: Map<Seq<Seq<char>>, V>,
    run_id: Option<Seq<char>>,
) -> bool {
    forall|key: Seq<Seq<char>>|
        #![trigger after.contains_key(key)]
        #![trigger after[key]]
        key.len() > 0 && run_id != Some(key[0]) ==> agree_at(before, after, key)
}

/// Variants of one run are added without touching those of another.
proof fn lemma_variants_added_elsewhere(
    variants: Map<Seq<Seq<char>>, VariantState>,
    run_id: Seq<char>,
    dimension: Seq<char>,
    inputs: Seq<VariantInputState>,
)
    ensures
        same_elsewhere(variants, variants_added(variants, run_id, dimension, inputs), Some(run_id)),
    decreases inputs.len(),
{
    if inputs.len() > 0 {
        lemma_variants_added_elsewhere(variants, run_id, dimension, inputs.drop_last());
    }
}

proof fn lemma_variants_replaced_elsewhere(
    state: LedgerState,
    run_id: Seq<char>,
    dimension: Seq<char>,
    inputs: Seq<VariantInputState>,
)
    ensures
        same_elsewhere(
            state.variants,
            variants_replaced(state, run_id, dimension, inputs).variants,
            Some(run_id),
        ),
{
    let after = variants_replaced(state, run_id, dimension, inputs).variants;
    let rest = without(state.variants, seq![run_id, dimension]);
    lemma_variants_added_elsewhere(rest, run_id, dimension, inputs);
    assert forall|key: Seq<Seq<char>>|
        #![trigger after.contains_key(key)]
        #![trigger after[key]]
        key.len() > 0 && Some(run_id) != Some(key[0]) implies agree_at(
        state.variants,
        after,
        key,
    ) by {
        if under(seq![run_id, dimension], key) {
            assert(key.take(2)[0] == run_id);
        }
        assert(agree_at(rest, after, key));
    }
}

proof fn lemma_tasks_placed_elsewhere(
    tasks: Map<Seq<Seq<char>>, TaskState>,
    run_id: Seq<char>,
    kind: Seq<char>,
    inputs: Seq<TaskInputState>,
    generation: u32,
    now: Moment,
)
    ensures
        same_elsewhere(
            tasks,
            tasks_placed(tasks, run_id, kind, inputs, generation, now),
            Some(run_id),
        ),
{
    let after = tasks_placed(tasks, run_id, kind, inputs, generation, now);
    assert forall|key: Seq<Seq<char>>|
        #![trigger after.contains_key(key)]
        #![trigger after[key]]
        key.len() > 0 && Some(run_id) != Some(key[0]) implies agree_at(tasks, after, key) by {
        if registers(run_id, kind, inputs, key) {
            assert(seq![run_id, kind, key[2]][0] == run_id);
        }
    }
}

/// The two stores agree on what is known of other runs, and nothing was taken out of the lists of
/// failures, events and reviews.
pub open spec fn others_untouched(
    before: LedgerState,
    after: LedgerState,
    run_id: Option<Seq<char>>,
) -> bool {
    &&& same_elsewhere(before.runs, after.runs, run_id)
    &&& same_elsewhere(before.steps, after.steps, run_id)
    &&& same_elsewhere(before.datasets, after.datasets, run_id)
    &&& same_elsewhere(before.tasks, after.tasks, run_id)
    &&& same_elsewhere(before.memos, after.memos, run_id)
    &&& same_elsewhere(before.variants, after.variants, run_id)
    &&& before.failures.is_prefix_of(after.failures)
    &&& before.traces.is_prefix_of(after.traces)
    &&& before.reviews.is_prefix_of(after.reviews)
}

/// A request about one run leaves the runs, steps, datasets, tasks, memos and variants of every
/// other run as they are, and takes nothing out of the lists of failures, events and reviews.
pub proof fn other_runs_are_left_alone(state: LedgerState, change: Change)
    requires
        proper(change),
    ensures
        others_untouched(state, changed(state, change), run_of(change)),
{
    match change {
        Change::RegisterVariants { run_id, dimension, inputs } => {
            if !name_twice(inputs) {
                lemma_variants_replaced_elsewhere(state, run_id, dimension, inputs);
            }
        },
        Change::RegisterDataset { run_id, kind, inputs, now } => {
            let generation = next_generation(state.datasets, seq![run_id, kind]) as u32;
            lemma_tasks_placed_elsewhere(state.tasks, run_id, kind, inputs, generation, now);
        },
        _ => {
            lemma_other_changes_stay_put(state, change);
        },
    }
}

#[verifier::rlimit(60)]
proof fn lemma_other_changes_stay_put(state: LedgerState, change: Change)
    requires
        proper(change),
        !(change is RegisterVariants),
        !(change is RegisterDataset),
    ensures
        others_untouched(state, changed(state, change), run_of(change)),
{
}

/// The change reports a result of the unit of work under the key, or starts it without a claim.
pub open spec fn reports_on(change: Change, key: Seq<Seq<char>>) -> bool {
    &&& work_key(change) == Some(key)
    &&& !(change is BeginStep || change is BeatStep || change is Begin || change is Beat)
}

/// The work is finished: it succeeded or failed for good.
pub open spec fn finished(work: WorkState) -> bool {
    work.status is Succeeded || work.status is Terminal
}

/// The two agree on what came of the work; they differ at most in when it was last written.
pub open spec fn same_result(one: WorkState, two: WorkState) -> bool {
    two == (WorkState { updated_at: two.updated_at, ..one })
}

/// What was finished in one store has the same result in the other.
pub open spec fn result_kept(before: LedgerState, after: LedgerState, key: Seq<Seq<char>>) -> bool {
    &&& before.steps.contains_key(key) && finished(before.steps[key]) ==> after.steps.contains_key(
        key,
    ) && same_result(before.steps[key], after.steps[key])
    &&& before.tasks.contains_key(key) && finished(before.tasks[key].work)
        ==> after.tasks.contains_key(key) && same_result(
        before.tasks[key].work,
        after.tasks[key].work,
    )
}

proof fn lemma_claims_keep_results(
    state: LedgerState,
    at: Seq<Seq<char>>,
    claim: ClaimState,
    now: Moment,
    key: Seq<Seq<char>>,
)
    ensures
        result_kept(state, step_begun(state, at, claim, now).0, key),
        result_kept(state, work_begun(state, at, claim, now).0, key),
{
}

proof fn lemma_heartbeats_keep_results(
    state: LedgerState,
    at: Seq<Seq<char>>,
    worker_id: Seq<char>,
    lease_seconds: nat,
    now: Moment,
    key: Seq<Seq<char>>,
)
    ensures
        result_kept(state, step_beaten(state, at, worker_id, lease_seconds, now).0, key),
        result_kept(state, work_beaten(state, at, worker_id, lease_seconds, now).0, key),
{
}

proof fn lemma_registrations_keep_results(
    state: LedgerState,
    run_id: Seq<char>,
    kind: Seq<char>,
    inputs: Seq<TaskInputState>,
    now: Moment,
    key: Seq<Seq<char>>,
)
    ensures
        result_kept(state, dataset_registered(state, run_id, kind, inputs, now), key),
{
}

/// The result of finished work stays until a report on that very work: no claim, heartbeat,
/// registration or request about other work changes it.
pub proof fn results_stay_until_reported_on(
    state: LedgerState,
    change: Change,
    key: Seq<Seq<char>>,
)
    requires
        !reports_on(change, key),
    ensures
        result_kept(state, changed(state, change), key),
{
    match change {
        Change::BeginStep { key: at, claim, now } => {
            lemma_claims_keep_results(state, at, claim, now, key);
        },
        Change::Begin { key: at, claim, now } => {
            lemma_claims_keep_results(state, at, claim, now, key);
        },
        Change::BeatStep { key: at, worker_id, lease_seconds, now } => {
            lemma_heartbeats_keep_results(state, at, worker_id, lease_seconds, now, key);
        },
        Change::Beat { key: at, worker_id, lease_seconds, now } => {
            lemma_heartbeats_keep_results(state, at, worker_id, lease_seconds, now, key);
        },
        Change::RegisterDataset { run_id, kind, inputs, now } => {
            lemma_registrations_keep_results(state, run_id, kind, inputs, now, key);
        },
        _ => {
            lemma_reports_keep_other_results(state, change, key);
        },
    }
}

#[verifier::rlimit(60)]
proof fn lemma_reports_keep_other_results(
    state: LedgerState,
    change: Change,
    key: Seq<Seq<char>>,
)
    requires
        work_key(change) != Some(key),
        !(change is BeginStep || change is BeatStep || change is Begin || change is Beat),
        !(change is RegisterDataset),
    ensures
        result_kept(state, changed(state, change), key),
{
}

} // verus!
