//! What the lists hold: of a dataset's tasks, of trace events, of variants, of workers and of
//! failures.
use vstd::prelude::*;

use crate::error::Fault;
use crate::json::{json_reading, list_reading};
use crate::ledger::LedgerState;
use crate::order::{is_listing, is_log_listing, lemma_told_each, lists, told, Told};
use crate::registry::{every_worker, variants_of};
use crate::report::{failures_at, failures_of, lists_failures};
use crate::rows::{
    FailureRecord, FailureState, TaskRow, TaskState, TraceRow, TraceState, VariantRow, VariantState,
    WorkerRow, WorkerState,
};
use crate::table::{keys_where, under};
use crate::tasks::{passes, task_told, wanted_tasks};
use crate::text::{lemma_text_before_irreflexive, text_before};
use crate::traces::{lists_traces, trace_told, traces_told, wanted_traces};
use crate::types::{
    TaskRecordState, TraceRecordState, VariantRecordState, WorkerRecordState,
};
use crate::work::{status_name, Status, StoredErrorState};

verus! {

/// The text stands somewhere in the list.
pub open spec fn stands_in(list: Seq<Seq<char>>, text: Seq<char>) -> bool {
    exists|i: int| 0 <= i < list.len() && #[trigger] list[i] == text
}

/// The name of a status in lists and filters.
pub proof fn statuses_are_named(status: Status)
    ensures
        status is Pending ==> status_name(status) == "pending"@,
        status is Running ==> status_name(status) == "running"@,
        status is Succeeded ==> status_name(status) == "succeeded"@,
        status is Failed ==> status_name(status) == "failed"@,
        status is Terminal ==> status_name(status) == "terminal"@,
{
}

/// A task passes exactly if its status stands anywhere in the filter by status, or that is empty,
/// and its category stands anywhere in the filter by category, or that is empty. A task without a
/// category passes no filter by category.
pub proof fn filters_pass_what_they_name(
    task: TaskState,
    statuses: Seq<Seq<char>>,
    categories: Seq<Seq<char>>,
)
    ensures
        passes(task, statuses, categories) <==> {
            &&& statuses.len() == 0 || stands_in(statuses, status_name(task.work.status))
            &&& categories.len() == 0 || (task.category is Some && stands_in(
                categories,
                task.category->0,
            ))
        },
{
}

/// A filter of several names passes exactly what some filter of one of the names passes; and the two
/// filters do not depend on each other.
pub proof fn filters_pass_name_by_name(
    task: TaskState,
    statuses: Seq<Seq<char>>,
    categories: Seq<Seq<char>>,
)
    ensures
        passes(task, statuses, categories) <==> passes(task, statuses, Seq::empty()) && passes(
            task,
            Seq::empty(),
            categories,
        ),
        passes(task, Seq::empty(), Seq::empty()),
        statuses.len() > 0 ==> (passes(task, statuses, Seq::empty()) <==> exists|i: int|
            0 <= i < statuses.len() && passes(task, seq![#[trigger] statuses[i]], Seq::empty())),
        categories.len() > 0 ==> (passes(task, Seq::empty(), categories) <==> exists|i: int|
            0 <= i < categories.len() && passes(
                task,
                Seq::empty(),
                seq![#[trigger] categories[i]],
            )),
{
    let name = status_name(task.work.status);
    assert forall|text: Seq<char>, other: Seq<char>| #[trigger] seq![text].contains(other) <==> text
        == other by {
        if text == other {
            assert(seq![text][0] == other);
        }
    }
    if statuses.contains(name) {
        let i = choose|i: int| 0 <= i < statuses.len() && statuses[i] == name;
        assert(passes(task, seq![statuses[i]], Seq::empty()));
    }
    if let Some(category) = task.category {
        if categories.contains(category) {
            let i = choose|i: int| 0 <= i < categories.len() && categories[i] == category;
            assert(passes(task, Seq::empty(), seq![categories[i]]));
        }
    }
}

/// The task is one of the dataset's, from the latest of its registrations where it has any.
pub open spec fn counts_in(
    state: LedgerState,
    run_id: Seq<char>,
    kind: Seq<char>,
    digest: Seq<char>,
) -> bool {
    let key = seq![run_id, kind, digest];
    &&& state.tasks.contains_key(key)
    &&& state.datasets.contains_key(seq![run_id, kind]) ==> state.tasks[key].generation
        == state.datasets[seq![run_id, kind]]
}

/// The record tells the task: what identifies it, its label and category, how far it has come, and
/// what was stored as its input, its output and its error.
pub open spec fn tells_the_task(
    record: TaskRecordState,
    run_id: Seq<char>,
    kind: Seq<char>,
    digest: Seq<char>,
    task: TaskState,
) -> bool {
    &&& record.run_id == run_id
    &&& record.kind == kind
    &&& record.input_digest == digest
    &&& record.label == task.label
    &&& record.category == task.category
    &&& record.status == status_name(task.work.status)
    &&& record.attempt == task.work.attempt
    &&& json_reading(task.input_json) == Ok::<Seq<char>, Seq<char>>(record.input)
    &&& task.work.output_json is None ==> record.output is None
    &&& task.work.output_json is Some ==> record.output is Some && json_reading(
        task.work.output_json->0,
    ) == Ok::<Seq<char>, Seq<char>>(record.output->0)
    &&& task.work.error is Absent ==> record.error is None
    &&& task.work.error matches StoredErrorState::Present(error) ==> record.error == Some(error)
    &&& !(task.work.error is Damaged)
    &&& record.started_at == task.work.started_at
    &&& record.completed_at == task.work.completed_at
}

/// A task can be told exactly if what is stored as its input, its output and its error can be read;
/// what cannot is a fault of its column, and the first of the three is told.
pub proof fn damaged_tasks_cannot_be_told(key: Seq<Seq<char>>, task: TaskState)
    ensures
        json_reading(task.input_json) matches Err(message) ==> task_told(key, task) == Err::<
            TaskRecordState,
            Fault,
        >(Fault::Sqlite("Conversion error from type Text at index: 0, "@ + message)),
        json_reading(task.input_json) is Ok ==> {
            &&& task.work.output_json is Some && json_reading(task.work.output_json->0) is Err
                ==> task_told(key, task) == Err::<TaskRecordState, Fault>(
                Fault::Sqlite(
                    "Conversion error from type Text at index: 0, "@ + json_reading(
                        task.work.output_json->0,
                    )->Err_0,
                ),
            )
            &&& task.work.output_json is None || json_reading(task.work.output_json->0) is Ok ==> {
                &&& task.work.error matches StoredErrorState::Damaged(message) ==> task_told(
                    key,
                    task,
                ) == Err::<TaskRecordState, Fault>(
                    Fault::Sqlite("Conversion error from type Text at index: 0, "@ + message),
                )
                &&& !(task.work.error is Damaged) ==> task_told(key, task) is Ok
            }
        },
{
}

proof fn lemma_key_of_three(key: Seq<Seq<char>>, run_id: Seq<char>, kind: Seq<char>)
    requires
        key.len() == 3,
    ensures
        under(seq![run_id, kind], key) <==> key == seq![run_id, kind, key[2]],
        key.take(2) == seq![key[0], key[1]],
{
    let whole = seq![run_id, kind, key[2]];
    assert(key.take(2) =~= seq![key[0], key[1]]);
    if under(seq![run_id, kind], key) {
        assert(key[0] == key.take(2)[0] && key[1] == key.take(2)[1]);
        assert(key =~= whole);
    }
    if key == whole {
        assert(key.take(2) =~= seq![run_id, kind]);
    }
}

/// The list of a dataset holds exactly the tasks that count in it and pass the filters, each once,
/// and tells each of them as it is; they stand in the order of their positions in the registration.
pub proof fn lists_hold_what_passes(
    state: LedgerState,
    run_id: Seq<char>,
    kind: Seq<char>,
    statuses: Seq<Seq<char>>,
    categories: Seq<Seq<char>>,
    records: Seq<TaskRecordState>,
)
    requires
        forall|key: Seq<Seq<char>>| #[trigger] state.tasks.contains_key(key) ==> key.len() == 3,
        lists::<TaskRow>(
            state.tasks,
            wanted_tasks(state, seq![run_id, kind], statuses, categories),
            Ok(records),
        ),
    ensures
        forall|digest: Seq<char>|
            #[trigger] counts_in(state, run_id, kind, digest) && passes(
                state.tasks[seq![run_id, kind, digest]],
                statuses,
                categories,
            ) ==> exists|a: int|
                0 <= a < records.len() && (#[trigger] records[a]).input_digest == digest,
        forall|a: int|
            0 <= a < records.len() ==> {
                let digest = (#[trigger] records[a]).input_digest;
                &&& counts_in(state, run_id, kind, digest)
                &&& passes(state.tasks[seq![run_id, kind, digest]], statuses, categories)
                &&& tells_the_task(
                    records[a],
                    run_id,
                    kind,
                    digest,
                    state.tasks[seq![run_id, kind, digest]],
                )
            },
        forall|a: int, b: int|
            #![trigger records[a], records[b]]
            0 <= a < b < records.len() ==> {
                let one = state.tasks[seq![run_id, kind, records[a].input_digest]].position;
                let two = state.tasks[seq![run_id, kind, records[b].input_digest]].position;
                &&& records[a].input_digest != records[b].input_digest
                &&& one < two || (one == two && text_before(
                    records[a].input_digest,
                    records[b].input_digest,
                ))
            },
{
    let prefix = seq![run_id, kind];
    let wanted = wanted_tasks(state, prefix, statuses, categories);
    let keys = choose|keys: Seq<Seq<Seq<char>>>| #[trigger]
        is_listing::<TaskRow>(state.tasks, wanted, keys) && Ok::<Seq<TaskRecordState>, Fault>(
            records,
        ) == told::<TaskRow>(state.tasks, keys);
    lemma_told_each::<TaskRow>(state.tasks, keys);
    assert forall|a: int| 0 <= a < keys.len() implies {
        let digest = (#[trigger] records[a]).input_digest;
        &&& keys[a] == seq![run_id, kind, digest]
        &&& counts_in(state, run_id, kind, digest)
        &&& passes(state.tasks[seq![run_id, kind, digest]], statuses, categories)
        &&& tells_the_task(
            records[a],
            run_id,
            kind,
            digest,
            state.tasks[seq![run_id, kind, digest]],
        )
    } by {
        assert(keys.to_set().contains(keys[a]));
        assert(keys_where(state.tasks, wanted).contains(keys[a]));
        lemma_key_of_three(keys[a], run_id, kind);
        assert(task_told(keys[a], state.tasks[keys[a]]) == Ok::<TaskRecordState, Fault>(
            records[a],
        ));
        assert(seq![run_id, kind, keys[a][2]][0] == run_id);
        assert(seq![run_id, kind, keys[a][2]][1] == kind);
    }
    assert forall|digest: Seq<char>|
        #[trigger] counts_in(state, run_id, kind, digest) && passes(
            state.tasks[seq![run_id, kind, digest]],
            statuses,
            categories,
        ) implies exists|a: int|
        0 <= a < records.len() && (#[trigger] records[a]).input_digest == digest by {
        let key = seq![run_id, kind, digest];
        lemma_key_of_three(key, run_id, kind);
        assert(key[2] == digest && key[0] == run_id && key[1] == kind);
        assert(keys_where(state.tasks, wanted).contains(key));
        assert(keys.to_set().contains(key));
        let a = choose|a: int| 0 <= a < keys.len() && keys[a] == key;
        assert(keys[a] == seq![run_id, kind, records[a].input_digest]);
        assert(keys[a][2] == records[a].input_digest);
    }
    assert forall|a: int, b: int|
        #![trigger records[a], records[b]]
        0 <= a < b < records.len() implies {
        let one = state.tasks[seq![run_id, kind, records[a].input_digest]].position;
        let two = state.tasks[seq![run_id, kind, records[b].input_digest]].position;
        &&& records[a].input_digest != records[b].input_digest
        &&& one < two || (one == two && text_before(
            records[a].input_digest,
            records[b].input_digest,
        ))
    } by {
        assert(keys[a] == seq![run_id, kind, records[a].input_digest]);
        assert(keys[b] == seq![run_id, kind, records[b].input_digest]);
        assert(keys[a] != keys[b]);
        assert(keys[a][0] == run_id && keys[a][1] == kind);
        assert(keys[b][0] == run_id && keys[b][1] == kind);
        assert(keys[a][2] == records[a].input_digest && keys[b][2] == records[b].input_digest);
        lemma_text_before_irreflexive(run_id);
        lemma_text_before_irreflexive(kind);
    }
}

/// A list of several categories holds a task exactly if the list of one of them does.
pub proof fn lists_of_categories_add_up(
    state: LedgerState,
    run_id: Seq<char>,
    kind: Seq<char>,
    statuses: Seq<Seq<char>>,
    categories: Seq<Seq<char>>,
    all: Seq<TaskRecordState>,
    of_each: spec_fn(int) -> Seq<TaskRecordState>,
    digest: Seq<char>,
)
    requires
        categories.len() > 0,
        forall|key: Seq<Seq<char>>| #[trigger] state.tasks.contains_key(key) ==> key.len() == 3,
        lists::<TaskRow>(
            state.tasks,
            wanted_tasks(state, seq![run_id, kind], statuses, categories),
            Ok(all),
        ),
        forall|i: int|
            0 <= i < categories.len() ==> lists::<TaskRow>(
                state.tasks,
                wanted_tasks(state, seq![run_id, kind], statuses, seq![categories[i]]),
                Ok(#[trigger] of_each(i)),
            ),
    ensures
        (exists|a: int| 0 <= a < all.len() && (#[trigger] all[a]).input_digest == digest) <==> (
        exists|i: int, a: int|
            0 <= i < categories.len() && 0 <= a < of_each(i).len() && (
            #[trigger] of_each(i)[a]).input_digest == digest),
{
    let key = seq![run_id, kind, digest];
    lists_hold_what_passes(state, run_id, kind, statuses, categories, all);
    let task = state.tasks[key];
    filters_pass_name_by_name(task, statuses, categories);
    if exists|a: int| 0 <= a < all.len() && (#[trigger] all[a]).input_digest == digest {
        let a = choose|a: int| 0 <= a < all.len() && (#[trigger] all[a]).input_digest == digest;
        assert(passes(task, statuses, categories));
        let i = choose|i: int|
            0 <= i < categories.len() && passes(task, Seq::empty(), seq![#[trigger] categories[i]]);
        filters_pass_name_by_name(task, statuses, seq![categories[i]]);
        let list = of_each(i);
        lists_hold_what_passes(state, run_id, kind, statuses, seq![categories[i]], list);
        let b = choose|b: int| 0 <= b < list.len() && (#[trigger] list[b]).input_digest == digest;
        assert(of_each(i)[b].input_digest == digest);
    }
    if exists|i: int, a: int|
        0 <= i < categories.len() && 0 <= a < of_each(i).len() && (
        #[trigger] of_each(i)[a]).input_digest == digest {
        let (i, a) = choose|i: int, a: int|
            0 <= i < categories.len() && 0 <= a < of_each(i).len() && (
            #[trigger] of_each(i)[a]).input_digest == digest;
        let list = of_each(i);
        lists_hold_what_passes(state, run_id, kind, statuses, seq![categories[i]], list);
        assert(list[a].input_digest == digest);
        filters_pass_name_by_name(task, statuses, seq![categories[i]]);
        assert(passes(task, Seq::empty(), seq![categories[i]]));
    }
}

/// The event is of the run, and of the kind, the task, the attempt and the types that the query
/// names, each where it names one.
pub open spec fn asked_for(
    trace: TraceState,
    run_id: Seq<char>,
    kind: Option<Seq<char>>,
    task_id: Option<Seq<char>>,
    attempt: Option<u32>,
    event_types: Seq<Seq<char>>,
) -> bool {
    &&& trace.run_id == run_id
    &&& kind is None || kind->0 == trace.kind
    &&& task_id is None || task_id->0 == trace.task_id
    &&& attempt is None || attempt->0 == trace.attempt
    &&& event_types.len() == 0 || stands_in(event_types, trace.event_type)
}

/// The record tells the event, with the payload and the artifacts that were stored.
pub open spec fn tells_the_event(record: TraceRecordState, trace: TraceState) -> bool {
    &&& record.id == trace.id
    &&& record.run_id == trace.run_id
    &&& record.kind == trace.kind
    &&& record.task_id == trace.task_id
    &&& record.attempt == trace.attempt
    &&& record.event_index == trace.event_index
    &&& record.event_type == trace.event_type
    &&& json_reading(trace.payload_json) == Ok::<Seq<char>, Seq<char>>(record.payload)
    &&& list_reading(trace.artifact_ids_json) == Ok::<Seq<Seq<char>>, Seq<char>>(
        record.artifact_ids,
    )
    &&& record.created_at == trace.created_at
}

/// Each field that a query names narrows it on its own, whatever else it names: what it asks for is
/// what the queries that name one field each all ask for, and that is the events with that field.
pub proof fn every_named_field_narrows(
    trace: TraceState,
    run_id: Seq<char>,
    kind: Option<Seq<char>>,
    task_id: Option<Seq<char>>,
    attempt: Option<u32>,
    event_types: Seq<Seq<char>>,
)
    ensures
        wanted_traces(run_id, kind, task_id, attempt, event_types)(trace) <==> asked_for(
            trace,
            run_id,
            kind,
            task_id,
            attempt,
            event_types,
        ),
        wanted_traces(run_id, kind, task_id, attempt, event_types)(trace) <==> {
            &&& wanted_traces(run_id, kind, None, None, Seq::empty())(trace)
            &&& wanted_traces(run_id, None, task_id, None, Seq::empty())(trace)
            &&& wanted_traces(run_id, None, None, attempt, Seq::empty())(trace)
            &&& wanted_traces(run_id, None, None, None, event_types)(trace)
        },
{
}

proof fn lemma_events_told(traces: Seq<TraceState>, picks: Seq<int>)
    ensures
        traces_told(traces, picks) matches Ok(records) ==> {
            &&& records.len() == picks.len()
            &&& forall|a: int|
                0 <= a < picks.len() ==> tells_the_event(
                    #[trigger] records[a],
                    traces[picks[a]],
                )
        },
    decreases picks.len(),
{
    if picks.len() > 0 {
        lemma_events_told(traces, picks.drop_last());
    }
}

/// The list that answers a query holds exactly the events that it asks for, each once, tells each as
/// it is, and stands in the order of attempts and, within one, of numbers; events of the same number
/// stand in the order in which they came.
pub proof fn lists_hold_the_events_asked_for(
    state: LedgerState,
    run_id: Seq<char>,
    kind: Option<Seq<char>>,
    task_id: Option<Seq<char>>,
    attempt: Option<u32>,
    event_types: Seq<Seq<char>>,
    records: Seq<TraceRecordState>,
)
    requires
        forall|i: int, j: int|
            0 <= i < j < state.traces.len() ==> (#[trigger] state.traces[i]).id < (
            #[trigger] state.traces[j]).id,
        lists_traces(
            state.traces,
            wanted_traces(run_id, kind, task_id, attempt, event_types),
            Ok(records),
        ),
    ensures
        forall|a: int|
            0 <= a < records.len() ==> {
                &&& (#[trigger] records[a]).run_id == run_id
                &&& kind is Some ==> records[a].kind == kind->0
                &&& task_id is Some ==> records[a].task_id == task_id->0
                &&& attempt is Some ==> records[a].attempt == attempt->0
                &&& event_types.len() > 0 ==> stands_in(event_types, records[a].event_type)
            },
        forall|a: int|
            0 <= a < records.len() ==> exists|i: int|
                0 <= i < state.traces.len() && tells_the_event(
                    #[trigger] records[a],
                    #[trigger] state.traces[i],
                ),
        forall|i: int|
            0 <= i < state.traces.len() && asked_for(
                #[trigger] state.traces[i],
                run_id,
                kind,
                task_id,
                attempt,
                event_types,
            ) ==> exists|a: int|
                0 <= a < records.len() && tells_the_event(
                    #[trigger] records[a],
                    state.traces[i],
                ),
        forall|a: int, b: int|
            #![trigger records[a], records[b]]
            0 <= a < b < records.len() ==> {
                &&& records[a].id != records[b].id
                &&& records[a].attempt <= records[b].attempt
                &&& records[a].attempt == records[b].attempt ==> records[a].event_index
                    <= records[b].event_index
                &&& records[a].attempt == records[b].attempt && records[a].event_index
                    == records[b].event_index ==> records[a].id < records[b].id
            },
{
    let wanted = wanted_traces(run_id, kind, task_id, attempt, event_types);
    let traces = state.traces;
    let picks = choose|picks: Seq<int>| #[trigger]
        is_log_listing::<TraceRow>(traces, wanted, picks) && Ok::<Seq<TraceRecordState>, Fault>(
            records,
        ) == traces_told(traces, picks);
    lemma_events_told(traces, picks);
    assert forall|a: int| 0 <= a < records.len() implies tells_the_event(
        #[trigger] records[a],
        traces[picks[a]],
    ) && wanted(traces[picks[a]]) && 0 <= picks[a] < traces.len() by {}
    assert forall|i: int|
        0 <= i < traces.len() && asked_for(
            #[trigger] traces[i],
            run_id,
            kind,
            task_id,
            attempt,
            event_types,
        ) implies exists|a: int|
        0 <= a < records.len() && tells_the_event(#[trigger] records[a], traces[i]) by {
        assert(wanted(traces[i]));
        let a = choose|a: int| 0 <= a < picks.len() && picks[a] == i;
        assert(tells_the_event(records[a], traces[i]));
    }
    assert forall|a: int, b: int|
        #![trigger records[a], records[b]]
        0 <= a < b < records.len() implies {
        &&& records[a].id != records[b].id
        &&& records[a].attempt <= records[b].attempt
        &&& records[a].attempt == records[b].attempt ==> records[a].event_index
            <= records[b].event_index
        &&& records[a].attempt == records[b].attempt && records[a].event_index
            == records[b].event_index ==> records[a].id < records[b].id
    } by {
        let i = picks[a];
        let j = picks[b];
        assert(tells_the_event(records[a], traces[i]));
        assert(tells_the_event(records[b], traces[j]));
        assert(i != j);
        if i < j {
            assert(traces[i].id < traces[j].id);
        } else {
            assert(traces[j].id < traces[i].id);
        }
    }
}

/// An event can be told exactly if its payload and its artifacts can be read; what cannot is a fault
/// of its column, and the first of the two is told.
pub proof fn damaged_events_cannot_be_told(trace: TraceState)
    ensures
        json_reading(trace.payload_json) matches Err(message) ==> trace_told(trace) == Err::<
            TraceRecordState,
            Fault,
        >(Fault::Sqlite("Conversion error from type Text at index: 0, "@ + message)),
        json_reading(trace.payload_json) is Ok ==> {
            &&& list_reading(trace.artifact_ids_json) matches Err(message) ==> trace_told(trace)
                == Err::<TraceRecordState, Fault>(
                Fault::Sqlite("Conversion error from type Text at index: 0, "@ + message),
            )
            &&& list_reading(trace.artifact_ids_json) is Ok ==> trace_told(trace) is Ok
        },
{
}

/// The answer to a query fails only because of an event that it asks for and that cannot be told, and
/// then with the fault of one of those that comes before every such event of the same or a later
/// attempt and number.
pub proof fn only_damage_makes_a_query_fail(
    state: LedgerState,
    run_id: Seq<char>,
    kind: Option<Seq<char>>,
    task_id: Option<Seq<char>>,
    attempt: Option<u32>,
    event_types: Seq<Seq<char>>,
    list: Result<Seq<TraceRecordState>, Fault>,
)
    requires
        lists_traces(
            state.traces,
            wanted_traces(run_id, kind, task_id, attempt, event_types),
            list,
        ),
    ensures
        list matches Err(fault) ==> exists|i: int|
            0 <= i < state.traces.len() && asked_for(
                #[trigger] state.traces[i],
                run_id,
                kind,
                task_id,
                attempt,
                event_types,
            ) && trace_told(state.traces[i]) == Err::<TraceRecordState, Fault>(fault) && forall|
                j: int,
            |
                0 <= j < state.traces.len() && asked_for(
                    #[trigger] state.traces[j],
                    run_id,
                    kind,
                    task_id,
                    attempt,
                    event_types,
                ) && (state.traces[j].attempt < state.traces[i].attempt || (state.traces[j].attempt
                    == state.traces[i].attempt && state.traces[j].event_index
                    < state.traces[i].event_index)) ==> trace_told(state.traces[j]) is Ok,
        list is Ok ==> forall|i: int|
            0 <= i < state.traces.len() && asked_for(
                #[trigger] state.traces[i],
                run_id,
                kind,
                task_id,
                attempt,
                event_types,
            ) ==> trace_told(state.traces[i]) is Ok,
{
    let wanted = wanted_traces(run_id, kind, task_id, attempt, event_types);
    let traces = state.traces;
    let picks = choose|picks: Seq<int>| #[trigger]
        is_log_listing::<TraceRow>(traces, wanted, picks) && list == traces_told(traces, picks);
    lemma_first_damage(traces, picks);
    if list is Err {
        let a = choose|a: int| #[trigger] is_first_damage(traces, picks, a);
        let i = picks[a];
        assert(wanted(traces[i]));
        assert forall|j: int|
            0 <= j < traces.len() && asked_for(
                #[trigger] traces[j],
                run_id,
                kind,
                task_id,
                attempt,
                event_types,
            ) && (traces[j].attempt < traces[i].attempt || (traces[j].attempt == traces[i].attempt
                && traces[j].event_index < traces[i].event_index)) implies trace_told(
            traces[j],
        ) is Ok by {
            assert(wanted(traces[j]));
            let b = choose|b: int| 0 <= b < picks.len() && picks[b] == j;
            assert(b < a) by {
                if a < b {
                    assert(picks[a] == i && picks[b] == j);
                }
            }
        }
    } else {
        assert forall|i: int|
            0 <= i < traces.len() && asked_for(
                #[trigger] traces[i],
                run_id,
                kind,
                task_id,
                attempt,
                event_types,
            ) implies trace_told(traces[i]) is Ok by {
            assert(wanted(traces[i]));
            let a = choose|a: int| 0 <= a < picks.len() && picks[a] == i;
            assert(trace_told(traces[picks[a]]) is Ok);
        }
    }
}

spec fn is_first_damage(traces: Seq<TraceState>, picks: Seq<int>, a: int) -> bool {
    &&& 0 <= a < picks.len()
    &&& trace_told(traces[picks[a]]) is Err
    &&& traces_told(traces, picks) == Err::<Seq<TraceRecordState>, Fault>(
        trace_told(traces[picks[a]])->Err_0,
    )
    &&& forall|b: int| 0 <= b < a ==> trace_told(traces[#[trigger] picks[b]]) is Ok
}

proof fn lemma_first_damage(traces: Seq<TraceState>, picks: Seq<int>)
    ensures
        traces_told(traces, picks) is Err ==> exists|a: int| #[trigger]
            is_first_damage(traces, picks, a),
        traces_told(traces, picks) is Ok ==> forall|a: int|
            0 <= a < picks.len() ==> trace_told(traces[#[trigger] picks[a]]) is Ok,
    decreases picks.len(),
{
    if picks.len() > 0 {
        let fewer = picks.drop_last();
        lemma_first_damage(traces, fewer);
        assert forall|a: int| 0 <= a < fewer.len() implies #[trigger] picks[a] == fewer[a] by {}
        if traces_told(traces, fewer) is Err {
            let a = choose|a: int| #[trigger] is_first_damage(traces, fewer, a);
            assert(picks[a] == fewer[a]);
            assert(is_first_damage(traces, picks, a));
        } else {
            assert forall|a: int| 0 <= a < fewer.len() implies trace_told(
                traces[#[trigger] picks[a]],
            ) is Ok by {
                assert(trace_told(traces[fewer[a]]) is Ok);
            }
            if traces_told(traces, picks) is Err {
                assert(is_first_damage(traces, picks, picks.len() - 1));
            }
        }
    }
}

/// A variant or a worker can be told exactly if its configuration or its resources can be read; what
/// cannot is a fault of the column.
pub proof fn damaged_entries_cannot_be_told(
    key: Seq<Seq<char>>,
    variant: VariantState,
    worker: WorkerState,
)
    ensures
        json_reading(variant.config_json) is Ok <==> <VariantRow as Told>::tell(key, variant) is Ok,
        json_reading(variant.config_json) matches Err(message) ==> <VariantRow as Told>::tell(
            key,
            variant,
        ) == Err::<VariantRecordState, Fault>(
            Fault::Sqlite("Conversion error from type Text at index: 0, "@ + message),
        ),
        json_reading(worker.resources_json) is Ok <==> <WorkerRow as Told>::tell(key, worker) is Ok,
        json_reading(worker.resources_json) matches Err(message) ==> <WorkerRow as Told>::tell(
            key,
            worker,
        ) == Err::<WorkerRecordState, Fault>(
            Fault::Sqlite("Conversion error from type Text at index: 0, "@ + message),
        ),
{
}

/// The run has a variant of that name along that dimension.
pub open spec fn has_variant(
    state: LedgerState,
    run_id: Seq<char>,
    dimension: Seq<char>,
    name: Seq<char>,
) -> bool {
    state.variants.contains_key(seq![run_id, dimension, name])
}

/// The worker has made itself known.
pub open spec fn has_worker(state: LedgerState, worker_id: Seq<char>) -> bool {
    state.workers.contains_key(seq![worker_id])
}

/// The list of a run's variants holds exactly those, each as it was registered, by dimension and
/// then by name.
pub proof fn lists_hold_the_variants_of_the_run(
    state: LedgerState,
    run_id: Seq<char>,
    records: Seq<VariantRecordState>,
)
    requires
        forall|key: Seq<Seq<char>>| #[trigger] state.variants.contains_key(key) ==> key.len() == 3,
        lists::<VariantRow>(state.variants, variants_of(run_id), Ok(records)),
    ensures
        forall|dimension: Seq<char>, name: Seq<char>|
            #[trigger] has_variant(state, run_id, dimension, name) ==> exists|a: int|
                0 <= a < records.len() && (#[trigger] records[a]).dimension == dimension
                    && records[a].name == name,
        forall|a: int|
            0 <= a < records.len() ==> {
                let key = seq![run_id, (#[trigger] records[a]).dimension, records[a].name];
                &&& records[a].run_id == run_id
                &&& state.variants.contains_key(key)
                &&& records[a].digest == state.variants[key].digest
                &&& json_reading(state.variants[key].config_json) == Ok::<Seq<char>, Seq<char>>(
                    records[a].config,
                )
            },
        forall|a: int, b: int|
            #![trigger records[a], records[b]]
            0 <= a < b < records.len() ==> text_before(records[a].dimension, records[b].dimension)
                || (records[a].dimension == records[b].dimension && text_before(
                records[a].name,
                records[b].name,
            )),
{
    let wanted = variants_of(run_id);
    let keys = choose|keys: Seq<Seq<Seq<char>>>| #[trigger]
        is_listing::<VariantRow>(state.variants, wanted, keys) && Ok::<
            Seq<VariantRecordState>,
            Fault,
        >(records) == told::<VariantRow>(state.variants, keys);
    lemma_told_each::<VariantRow>(state.variants, keys);
    assert forall|a: int| 0 <= a < keys.len() implies {
        let key = seq![run_id, (#[trigger] records[a]).dimension, records[a].name];
        &&& keys[a] == key
        &&& records[a].run_id == run_id
        &&& state.variants.contains_key(key)
        &&& records[a].digest == state.variants[key].digest
        &&& json_reading(state.variants[key].config_json) == Ok::<Seq<char>, Seq<char>>(
            records[a].config,
        )
    } by {
        assert(keys.to_set().contains(keys[a]));
        assert(keys_where(state.variants, wanted).contains(keys[a]));
        assert(keys[a].take(1)[0] == keys[a][0]);
        assert(<VariantRow as Told>::tell(keys[a], state.variants[keys[a]]) == Ok::<
            VariantRecordState,
            Fault,
        >(records[a]));
        assert(keys[a] =~= seq![run_id, records[a].dimension, records[a].name]);
    }
    assert forall|dimension: Seq<char>, name: Seq<char>|
        #[trigger] has_variant(state, run_id, dimension, name) implies exists|a: int|
        0 <= a < records.len() && (#[trigger] records[a]).dimension == dimension && records[a].name
            == name by {
        let key = seq![run_id, dimension, name];
        assert(key.take(1) =~= seq![run_id]);
        assert(keys_where(state.variants, wanted).contains(key));
        assert(keys.to_set().contains(key));
        let a = choose|a: int| 0 <= a < keys.len() && keys[a] == key;
        assert(keys[a] == seq![run_id, records[a].dimension, records[a].name]);
        assert(key[1] == records[a].dimension && key[2] == records[a].name);
    }
    assert forall|a: int, b: int|
        #![trigger records[a], records[b]]
        0 <= a < b < records.len() implies text_before(records[a].dimension, records[b].dimension)
        || (records[a].dimension == records[b].dimension && text_before(
        records[a].name,
        records[b].name,
    )) by {
        assert(keys[a] == seq![run_id, records[a].dimension, records[a].name]);
        assert(keys[b] == seq![run_id, records[b].dimension, records[b].name]);
        assert(keys[a][0] == run_id && keys[b][0] == run_id);
        assert(keys[a][1] == records[a].dimension && keys[b][1] == records[b].dimension);
        assert(keys[a][2] == records[a].name && keys[b][2] == records[b].name);
        lemma_text_before_irreflexive(run_id);
    }
}

/// The list of workers holds all of them, each as it made itself known, by id.
pub proof fn lists_hold_every_worker(state: LedgerState, records: Seq<WorkerRecordState>)
    requires
        forall|key: Seq<Seq<char>>| #[trigger] state.workers.contains_key(key) ==> key.len() == 1,
        lists::<WorkerRow>(state.workers, every_worker(), Ok(records)),
    ensures
        forall|worker_id: Seq<char>|
            #[trigger] has_worker(state, worker_id) ==> exists|a: int|
                0 <= a < records.len() && (#[trigger] records[a]).worker_id == worker_id,
        forall|a: int|
            0 <= a < records.len() ==> {
                let key = seq![(#[trigger] records[a]).worker_id];
                &&& state.workers.contains_key(key)
                &&& records[a].hostname == state.workers[key].hostname
                &&& records[a].process_id == state.workers[key].process_id
                &&& json_reading(state.workers[key].resources_json) == Ok::<Seq<char>, Seq<char>>(
                    records[a].resources,
                )
                &&& records[a].heartbeat_at == state.workers[key].heartbeat_at
            },
        forall|a: int, b: int|
            #![trigger records[a], records[b]]
            0 <= a < b < records.len() ==> text_before(records[a].worker_id, records[b].worker_id),
{
    let wanted = every_worker();
    let keys = choose|keys: Seq<Seq<Seq<char>>>| #[trigger]
        is_listing::<WorkerRow>(state.workers, wanted, keys) && Ok::<Seq<WorkerRecordState>, Fault>(
            records,
        ) == told::<WorkerRow>(state.workers, keys);
    lemma_told_each::<WorkerRow>(state.workers, keys);
    assert forall|a: int| 0 <= a < keys.len() implies {
        let key = seq![(#[trigger] records[a]).worker_id];
        &&& keys[a] == key
        &&& state.workers.contains_key(key)
        &&& records[a].hostname == state.workers[key].hostname
        &&& records[a].process_id == state.workers[key].process_id
        &&& json_reading(state.workers[key].resources_json) == Ok::<Seq<char>, Seq<char>>(
            records[a].resources,
        )
        &&& records[a].heartbeat_at == state.workers[key].heartbeat_at
    } by {
        assert(keys.to_set().contains(keys[a]));
        assert(keys_where(state.workers, wanted).contains(keys[a]));
        assert(<WorkerRow as Told>::tell(keys[a], state.workers[keys[a]]) == Ok::<
            WorkerRecordState,
            Fault,
        >(records[a]));
        assert(keys[a] =~= seq![records[a].worker_id]);
    }
    assert forall|worker_id: Seq<char>|
        #[trigger] has_worker(state, worker_id) implies exists|a: int|
        0 <= a < records.len() && (#[trigger] records[a]).worker_id == worker_id by {
        let key = seq![worker_id];
        assert(keys_where(state.workers, wanted).contains(key));
        assert(keys.to_set().contains(key));
        let a = choose|a: int| 0 <= a < keys.len() && keys[a] == key;
        assert(keys[a] == seq![records[a].worker_id]);
        assert(key[0] == records[a].worker_id);
    }
    assert forall|a: int, b: int|
        #![trigger records[a], records[b]]
        0 <= a < b < records.len() implies text_before(
        records[a].worker_id,
        records[b].worker_id,
    ) by {
        assert(keys[a] == seq![records[a].worker_id] && keys[b] == seq![records[b].worker_id]);
        assert(keys[a][0] == records[a].worker_id && keys[b][0] == records[b].worker_id);
    }
}

/// The list of a run's failures holds exactly those, each once, and stands in the order of their
/// times; those of the same time stand in the order in which they were reported.
pub proof fn lists_hold_the_failures_of_the_run(
    failures: Seq<FailureState>,
    run_id: Seq<char>,
    list: Seq<FailureState>,
)
    requires
        lists_failures(failures, run_id, list),
    ensures
        exists|places: Seq<int>| #[trigger] places_failures(failures, run_id, list, places),
{
    let picks = choose|picks: Seq<int>| #[trigger]
        is_log_listing::<FailureRecord>(failures, failures_of(run_id), picks) && list
            == failures_at(failures, picks);
    assert forall|a: int, b: int|
        #![trigger picks[a], picks[b]]
        0 <= a < b < picks.len() implies picks[a] != picks[b] && !text_before(
        failures[picks[b]].timestamp,
        failures[picks[a]].timestamp,
    ) && (failures[picks[a]].timestamp == failures[picks[b]].timestamp ==> picks[a] < picks[b]) by {
        let one = failures[picks[a]].timestamp;
        let two = failures[picks[b]].timestamp;
        lemma_text_before_irreflexive(one);
        if text_before(one, two) && text_before(two, one) {
            crate::text::lemma_text_before_transitive(one, two, one);
        }
    }
    assert(places_failures(failures, run_id, list, picks));
}

/// The failures in the list are those at the places, which are the places of the run's failures, by
/// time and then by arrival.
pub open spec fn places_failures(
    failures: Seq<FailureState>,
    run_id: Seq<char>,
    list: Seq<FailureState>,
    places: Seq<int>,
) -> bool {
    &&& places.len() == list.len()
    &&& forall|a: int|
        0 <= a < list.len() ==> 0 <= #[trigger] places[a] < failures.len() && list[a]
            == failures[places[a]] && list[a].run_id == run_id
    &&& forall|i: int|
        0 <= i < failures.len() && (#[trigger] failures[i]).run_id == run_id ==> exists|a: int|
            0 <= a < places.len() && #[trigger] places[a] == i
    &&& forall|a: int, b: int|
        #![trigger places[a], places[b]]
        0 <= a < b < places.len() ==> places[a] != places[b] && !text_before(
            list[b].timestamp,
            list[a].timestamp,
        ) && (list[a].timestamp == list[b].timestamp ==> places[a] < places[b])
}

} // verus!
