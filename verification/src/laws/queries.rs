//! What the lists come to: what each answers, by what it was asked for and what the store holds.
use vstd::prelude::*;

use crate::error::{list_view, views, Error, Fault};
use crate::json::json_reading;
use crate::laws::claims::{all_others_stay, only_tasks_differ};
use crate::laws::lists::{
    asked_for, counts_in, filters_pass_what_they_name, has_variant, has_worker,
    lists_hold_every_worker, lists_hold_the_events_asked_for, lists_hold_the_failures_of_the_run,
    lists_hold_the_variants_of_the_run, lists_hold_what_passes, only_damage_makes_a_query_fail,
    places_failures, stands_in, tells_the_event, tells_the_task,
};
use crate::laws::tasks::same_but_for_the_report;
use crate::ledger::{Ledger, LedgerState};
use crate::order::{is_first_fault, is_listing, lists, only_damage_makes_a_list_fail, Listed};
use crate::registry::{every_worker, variants_of};
use crate::rows::{FailureRecord, TaskRow, TaskState, TraceState, VariantRow, WorkerRow};
use crate::table::{keys_where, lemma_contents_from};
use crate::tasks::{first_started, passes, starts_first, task_told, wanted_tasks};
use crate::text::{lemma_text_before_irreflexive, opt_text, text_before, texts};
use crate::time::{datetime_text, Moment};
use crate::traces::trace_told;
use crate::types::{
    ListRequest, ListTraceEventsRequest, MemoGetRequest, MemoGetResponse, TaskRecord,
    TaskRecordState, TraceEventRecord, TraceRecordState, VariantRecord, WorkerRecord,
};
use crate::work::status_name;

verus! {

/// One of the strings says the text.
pub open spec fn is_named(list: Seq<String>, text: Seq<char>) -> bool {
    exists|i: int| 0 <= i < list.len() && (#[trigger] list[i])@ == text
}

proof fn lemma_named(list: Seq<String>, text: Seq<char>)
    ensures
        stands_in(texts(list), text) == is_named(list, text),
        texts(list).len() == list.len(),
{
    assert forall|i: int| 0 <= i < list.len() implies #[trigger] texts(list)[i] == list[i]@ by {}
    if is_named(list, text) {
        let i = choose|i: int| 0 <= i < list.len() && (#[trigger] list[i])@ == text;
        assert(texts(list)[i] == text);
    }
    if stands_in(texts(list), text) {
        let i = choose|i: int| 0 <= i < texts(list).len() && #[trigger] texts(list)[i] == text;
        assert(list[i]@ == text);
    }
}

/// The task counts in the dataset, and both filters name it, each where there is one: its status
/// stands anywhere in the one, its category anywhere in the other.
pub open spec fn task_asked_for(state: LedgerState, req: ListRequest, digest: Seq<char>) -> bool {
    let task = state.tasks[seq![req.run_id@, req.kind@, digest]];
    &&& counts_in(state, req.run_id@, req.kind@, digest)
    &&& req.statuses@.len() == 0 || is_named(req.statuses@, status_name(task.work.status))
    &&& req.categories@.len() == 0 || (task.category is Some && is_named(
        req.categories@,
        task.category->0,
    ))
}

/// The task at `one` stands before that at `two` in the dataset.
pub open spec fn stands_before(
    state: LedgerState,
    req: ListRequest,
    one: Seq<char>,
    two: Seq<char>,
) -> bool {
    let first = state.tasks[seq![req.run_id@, req.kind@, one]].position;
    let second = state.tasks[seq![req.run_id@, req.kind@, two]].position;
    first < second || (first == second && text_before(one, two))
}

proof fn lemma_asked_for(state: LedgerState, req: ListRequest, digest: Seq<char>)
    ensures
        task_asked_for(state, req, digest) <==> counts_in(state, req.run_id@, req.kind@, digest)
            && passes(
            state.tasks[seq![req.run_id@, req.kind@, digest]],
            texts(req.statuses@),
            texts(req.categories@),
        ),
{
    let task = state.tasks[seq![req.run_id@, req.kind@, digest]];
    filters_pass_what_they_name(task, texts(req.statuses@), texts(req.categories@));
    lemma_named(req.statuses@, status_name(task.work.status));
    lemma_named(req.categories@, task.category->0);
}

proof fn lemma_key_lengths(ledger: &Ledger)
    requires
        ledger.wf(),
    ensures
        forall|key: Seq<Seq<char>>| #[trigger] ledger@.tasks.contains_key(key) ==> key.len() == 3,
        forall|key: Seq<Seq<char>>| #[trigger]
            ledger@.variants.contains_key(key) ==> key.len() == 3,
        forall|key: Seq<Seq<char>>| #[trigger] ledger@.workers.contains_key(key) ==> key.len() == 1,
{
    assert forall|key: Seq<Seq<char>>| #[trigger] ledger@.tasks.contains_key(key) implies key.len()
        == 3 by {
        let i = lemma_contents_from::<TaskRow>(ledger.tasks.listed(), key);
    }
    assert forall|key: Seq<Seq<char>>| #[trigger]
        ledger@.variants.contains_key(key) implies key.len() == 3 by {
        let i = lemma_contents_from::<VariantRow>(ledger.variants.listed(), key);
    }
    assert forall|key: Seq<Seq<char>>| #[trigger]
        ledger@.workers.contains_key(key) implies key.len() == 1 by {
        let i = lemma_contents_from::<WorkerRow>(ledger.workers.listed(), key);
    }
}

/// What a request for tasks is answered: exactly those that it asks for, each told once and as it
/// is, in their order; or the fault of one of them that cannot be told.
pub open spec fn list_answers(
    state: LedgerState,
    req: ListRequest,
    records: Result<Vec<TaskRecord>, Error>,
) -> bool {
    match records {
        Ok(list) => {
            &&& forall|digest: Seq<char>| #[trigger]
                task_asked_for(state, req, digest) ==> exists|a: int|
                    0 <= a < list@.len() && (#[trigger] list@[a]).input_digest@ == digest
            &&& forall|a: int|
                0 <= a < list@.len() ==> {
                    let digest = (#[trigger] list@[a]).input_digest@;
                    &&& task_asked_for(state, req, digest)
                    &&& tells_the_task(
                        list@[a]@,
                        req.run_id@,
                        req.kind@,
                        digest,
                        state.tasks[seq![req.run_id@, req.kind@, digest]],
                    )
                }
            &&& forall|a: int, b: int|
                #![trigger list@[a], list@[b]]
                0 <= a < b < list@.len() ==> list@[a].input_digest@ != list@[b].input_digest@
                    && stands_before(
                    state,
                    req,
                    list@[a].input_digest@,
                    list@[b].input_digest@,
                )
        },
        Err(error) => exists|digest: Seq<char>|
            {
                let key = seq![req.run_id@, req.kind@, digest];
                &&& #[trigger] task_asked_for(state, req, digest)
                &&& task_told(key, state.tasks[key]) == Err::<TaskRecordState, Fault>(error@)
            },
    }
}

proof fn lemma_list_answers(
    ledger: &Ledger,
    req: ListRequest,
    records: Result<Vec<TaskRecord>, Error>,
)
    requires
        ledger.wf(),
        lists::<TaskRow>(
            ledger@.tasks,
            wanted_tasks(
                ledger@,
                seq![req.run_id@, req.kind@],
                texts(req.statuses@),
                texts(req.categories@),
            ),
            list_view(records),
        ),
    ensures
        list_answers(ledger@, req, records),
{
    let state = ledger@;
    let statuses = texts(req.statuses@);
    let categories = texts(req.categories@);
    lemma_key_lengths(ledger);
    assert forall|digest: Seq<char>| #[trigger]
        task_asked_for(state, req, digest) <==> counts_in(state, req.run_id@, req.kind@, digest)
            && passes(state.tasks[seq![req.run_id@, req.kind@, digest]], statuses, categories) by {
        lemma_asked_for(state, req, digest);
    }
    match records {
        Ok(list) => {
            let told = views(list@);
            assert forall|a: int| 0 <= a < list@.len() implies #[trigger] told[a] == list@[a]@ by {}
            lists_hold_what_passes(state, req.run_id@, req.kind@, statuses, categories, told);
            assert forall|digest: Seq<char>| #[trigger]
                task_asked_for(state, req, digest) implies exists|a: int|
                0 <= a < list@.len() && (#[trigger] list@[a]).input_digest@ == digest by {
                assert(counts_in(state, req.run_id@, req.kind@, digest));
                let a = choose|a: int|
                    0 <= a < told.len() && (#[trigger] told[a]).input_digest == digest;
                assert(list@[a].input_digest@ == digest);
            }
            assert forall|a: int| 0 <= a < list@.len() implies {
                let digest = (#[trigger] list@[a]).input_digest@;
                &&& task_asked_for(state, req, digest)
                &&& tells_the_task(
                    list@[a]@,
                    req.run_id@,
                    req.kind@,
                    digest,
                    state.tasks[seq![req.run_id@, req.kind@, digest]],
                )
            } by {
                assert(told[a].input_digest == list@[a].input_digest@);
                lemma_asked_for(state, req, told[a].input_digest);
            }
            assert forall|a: int, b: int|
                #![trigger list@[a], list@[b]]
                0 <= a < b < list@.len() implies list@[a].input_digest@ != list@[b].input_digest@
                && stands_before(
                state,
                req,
                list@[a].input_digest@,
                list@[b].input_digest@,
            ) by {
                assert(told[a].input_digest == list@[a].input_digest@);
                assert(told[b].input_digest == list@[b].input_digest@);
            }
        },
        Err(error) => {
            let wanted = wanted_tasks(state, seq![req.run_id@, req.kind@], statuses, categories);
            only_damage_makes_a_list_fail::<TaskRow>(state.tasks, wanted, list_view(records));
            let key = choose|key: Seq<Seq<char>>| #[trigger]
                is_first_fault::<TaskRow>(state.tasks, wanted, key, error@);
            assert(key.take(2)[0] == key[0] && key.take(2)[1] == key[1]);
            assert(key =~= seq![req.run_id@, req.kind@, key[2]]);
            assert(key.take(2) =~= seq![req.run_id@, req.kind@]);
            assert(counts_in(state, req.run_id@, req.kind@, key[2]));
            assert(task_asked_for(state, req, key[2]));
        },
    }
}

/// A list of a dataset's tasks answers what it was asked for.
pub proof fn lists_answer_what_is_asked(
    ledger: &Ledger,
    req: ListRequest,
    records: Result<Vec<TaskRecord>, Error>,
)
    requires
        ledger.wf(),
        call_ensures(Ledger::list, (ledger, req), records),
    ensures
        list_answers(ledger@, req, records),
{
    lemma_list_answers(ledger, req, records);
}

/// So does a list by its other name.
pub proof fn task_lists_answer_what_is_asked(
    ledger: &Ledger,
    req: ListRequest,
    records: Result<Vec<TaskRecord>, Error>,
)
    requires
        ledger.wf(),
        call_ensures(Ledger::list_tasks, (ledger, req), records),
    ensures
        list_answers(ledger@, req, records),
{
    lemma_list_answers(ledger, req, records);
}

/// To name one more category never takes a task out of a list that was narrowed by category, and to
/// name none takes none out either.
pub proof fn more_categories_list_more(
    ledger: &Ledger,
    fewer: ListRequest,
    more: ListRequest,
    few: Vec<TaskRecord>,
    many: Vec<TaskRecord>,
)
    requires
        ledger.wf(),
        call_ensures(Ledger::list, (ledger, fewer), Ok(few)),
        call_ensures(Ledger::list, (ledger, more), Ok(many)),
        more.run_id@ == fewer.run_id@,
        more.kind@ == fewer.kind@,
        more.statuses@ == fewer.statuses@,
        more.categories@.len() == 0 || (fewer.categories@.len() > 0 && forall|i: int|
            0 <= i < fewer.categories@.len() ==> is_named(
                more.categories@,
                (#[trigger] fewer.categories@[i])@,
            )),
    ensures
        forall|a: int|
            0 <= a < few@.len() ==> exists|b: int|
                0 <= b < many@.len() && (#[trigger] many@[b]).input_digest@ == (
                #[trigger] few@[a]).input_digest@,
{
    lemma_list_answers(ledger, fewer, Ok(few));
    lemma_list_answers(ledger, more, Ok(many));
    assert forall|a: int| 0 <= a < few@.len() implies exists|b: int|
        0 <= b < many@.len() && (#[trigger] many@[b]).input_digest@ == (
        #[trigger] few@[a]).input_digest@ by {
        let digest = few@[a].input_digest@;
        assert(task_asked_for(ledger@, fewer, digest));
        assert(task_asked_for(ledger@, more, digest));
    }
}

/// The task is asked for, and no other that is stands before it.
pub open spec fn is_first_asked_for(
    state: LedgerState,
    req: ListRequest,
    digest: Seq<char>,
) -> bool {
    &&& task_asked_for(state, req, digest)
    &&& forall|other: Seq<char>| #[trigger]
        task_asked_for(state, req, other) && other != digest ==> stands_before(
            state,
            req,
            digest,
            other,
        )
}

/// What a request to start a task is answered, and what it leaves: the first task that it asks for
/// is started and told, and none other changes.
pub open spec fn start_answered(
    before: LedgerState,
    req: ListRequest,
    now: Moment,
    after: LedgerState,
    started: Result<Option<TaskRecord>, Error>,
) -> bool {
    match started {
        Ok(None) => after == before && forall|digest: Seq<char>|
            !#[trigger] task_asked_for(before, req, digest),
        Ok(Some(record)) => {
            let key = seq![req.run_id@, req.kind@, record.input_digest@];
            let task = before.tasks[key];
            let work = after.tasks[key].work;
            &&& is_first_asked_for(before, req, record.input_digest@)
            &&& only_tasks_differ(before, after)
            &&& all_others_stay(before.tasks, after.tasks, key)
            &&& after.tasks.contains_key(key)
            &&& after.tasks[key] == (TaskState { work, ..task })
            &&& same_but_for_the_report(task.work, work)
            &&& work.status is Running
            &&& task.work.attempt < u32::MAX ==> work.attempt == task.work.attempt + 1
            &&& work.output_json == task.work.output_json
            &&& work.error == task.work.error
            &&& work.completed_at == task.work.completed_at
            &&& work.updated_at == datetime_text(now.secs)
            &&& task.work.started_at is Some ==> work.started_at == task.work.started_at
            &&& task.work.started_at is None ==> work.started_at == Some(datetime_text(now.secs))
            &&& tells_the_task(
                record@,
                req.run_id@,
                req.kind@,
                record.input_digest@,
                after.tasks[key],
            )
        },
        Err(error) => after == before && exists|digest: Seq<char>|
            {
                let key = seq![req.run_id@, req.kind@, digest];
                &&& #[trigger] is_first_asked_for(before, req, digest)
                &&& task_told(key, before.tasks[key]) == Err::<TaskRecordState, Fault>(error@)
            },
    }
}

proof fn lemma_listing_of_asked_for(
    ledger: &Ledger,
    req: ListRequest,
    keys: Seq<Seq<Seq<char>>>,
)
    requires
        ledger.wf(),
        is_listing::<TaskRow>(
            ledger@.tasks,
            wanted_tasks(
                ledger@,
                seq![req.run_id@, req.kind@],
                texts(req.statuses@),
                texts(req.categories@),
            ),
            keys,
        ),
    ensures
        keys.len() == 0 ==> forall|digest: Seq<char>|
            !#[trigger] task_asked_for(ledger@, req, digest),
        keys.len() > 0 ==> {
            &&& keys[0] == seq![req.run_id@, req.kind@, keys[0][2]]
            &&& keys[0].len() == 3
            &&& is_first_asked_for(ledger@, req, keys[0][2])
        },
{
    let state = ledger@;
    let prefix = seq![req.run_id@, req.kind@];
    let wanted = wanted_tasks(state, prefix, texts(req.statuses@), texts(req.categories@));
    lemma_key_lengths(ledger);
    assert forall|digest: Seq<char>| #[trigger]
        task_asked_for(state, req, digest) implies keys.contains(
        seq![req.run_id@, req.kind@, digest],
    ) by {
        lemma_asked_for(state, req, digest);
        let key = seq![req.run_id@, req.kind@, digest];
        assert(key.take(2) =~= prefix);
        assert(keys_where(state.tasks, wanted).contains(key));
        assert(keys.to_set().contains(key));
    }
    if keys.len() > 0 {
        let first = keys[0];
        assert(keys.to_set().contains(first));
        assert(keys_where(state.tasks, wanted).contains(first));
        assert(first.take(2)[0] == first[0] && first.take(2)[1] == first[1]);
        assert(first =~= seq![req.run_id@, req.kind@, first[2]]);
        assert(first.take(2) =~= prefix);
        assert(counts_in(state, req.run_id@, req.kind@, first[2]));
        lemma_asked_for(state, req, first[2]);
        assert forall|other: Seq<char>| #[trigger]
            task_asked_for(state, req, other) && other != first[2] implies stands_before(
            state,
            req,
            first[2],
            other,
        ) by {
            let key = seq![req.run_id@, req.kind@, other];
            assert(keys.contains(key));
            let a = choose|a: int| 0 <= a < keys.len() && keys[a] == key;
            assert(key[2] == other);
            assert(a > 0);
            assert(<TaskRow as Listed>::precedes(
                keys[0],
                state.tasks[keys[0]],
                keys[a],
                state.tasks[keys[a]],
            ));
            assert(keys[a][0] == req.run_id@ && keys[a][1] == req.kind@);
            lemma_text_before_irreflexive(req.run_id@);
            lemma_text_before_irreflexive(req.kind@);
        }
    }
}

proof fn lemma_start_answered(
    ledger: &Ledger,
    req: ListRequest,
    now: Moment,
    after: LedgerState,
    started: Result<Option<TaskRecord>, Error>,
)
    requires
        ledger.wf(),
        starts_first(
            ledger@,
            seq![req.run_id@, req.kind@],
            texts(req.statuses@),
            texts(req.categories@),
            now,
            after,
            crate::tasks::opt_view(started),
        ),
    ensures
        start_answered(ledger@, req, now, after, started),
{
    let state = ledger@;
    let prefix = seq![req.run_id@, req.kind@];
    let wanted = wanted_tasks(state, prefix, texts(req.statuses@), texts(req.categories@));
    let keys = choose|keys: Seq<Seq<Seq<char>>>| #[trigger]
        is_listing::<TaskRow>(state.tasks, wanted, keys) && (
            after,
            crate::tasks::opt_view(started),
        ) == first_started(state, keys, now);
    lemma_listing_of_asked_for(ledger, req, keys);
    if keys.len() > 0 {
        let key = keys[0];
        if let Ok(Some(record)) = started {
            assert(record@.input_digest == key[2]);
            assert(seq![req.run_id@, req.kind@, key[2]][0] == req.run_id@);
            assert(seq![req.run_id@, req.kind@, key[2]][1] == req.kind@);
        }
    }
}

/// The first task that a request asks for is started, told, and on its next attempt; nothing else
/// changes, and where it asks for none, or the first cannot be told, nothing at all does.
pub proof fn the_first_asked_for_is_started(
    ledger: &mut Ledger,
    req: ListRequest,
    now: Moment,
    started: Result<Option<TaskRecord>, Error>,
)
    requires
        old(ledger).wf(),
        call_ensures(Ledger::start_case_at, (ledger, req, now), started),
    ensures
        start_answered(old(ledger)@, req, now, final(ledger)@, started),
{
    lemma_start_answered(&*old(ledger), req, now, final(ledger)@, started);
}

/// Requests to start a task that are answered by the clock are answered as for some time that it can
/// show.
pub proof fn starts_go_by_the_clock(
    ledger: &mut Ledger,
    req: ListRequest,
    started: Result<Option<TaskRecord>, Error>,
)
    requires
        old(ledger).wf(),
        call_ensures(Ledger::start_case, (ledger, req), started),
    ensures
        exists|now: Moment| #[trigger]
            now.valid() && start_answered(old(ledger)@, req, now, final(ledger)@, started),
{
    let now = choose|now: Moment| #[trigger]
        now.valid() && starts_first(
            old(ledger)@,
            seq![req.run_id@, req.kind@],
            texts(req.statuses@),
            texts(req.categories@),
            now,
            final(ledger)@,
            crate::tasks::opt_view(started),
        );
    lemma_start_answered(&*old(ledger), req, now, final(ledger)@, started);
    assert(now.valid());
}

/// A request to start a task is put off only because the first task that it asks for has no attempt
/// left to count.
pub proof fn only_a_used_up_count_forbids_a_start(ledger: &Ledger, req: &ListRequest, can: bool)
    requires
        ledger.wf(),
        call_ensures(Ledger::can_start_case, (ledger, req), can),
    ensures
        !can ==> exists|digest: Seq<char>| #[trigger]
            is_first_asked_for(ledger@, *req, digest) && ledger@.tasks[seq![
                req.run_id@,
                req.kind@,
                digest,
            ]].work.attempt == u32::MAX,
{
    if !can {
        let wanted = wanted_tasks(
            ledger@,
            seq![req.run_id@, req.kind@],
            texts(req.statuses@),
            texts(req.categories@),
        );
        let keys = choose|keys: Seq<Seq<Seq<char>>>| #[trigger]
            is_listing::<TaskRow>(ledger@.tasks, wanted, keys) && keys.len() > 0
                && ledger@.tasks[keys[0]].work.attempt >= u32::MAX;
        lemma_listing_of_asked_for(ledger, *req, keys);
        assert(is_first_asked_for(ledger@, *req, keys[0][2]));
    }
}

/// The event is of the run that the request names, and of every other thing that it names.
pub open spec fn event_asked_for(trace: TraceState, req: ListTraceEventsRequest) -> bool {
    &&& trace.run_id == req.run_id@
    &&& req.kind is None || req.kind->0@ == trace.kind
    &&& req.task_id is None || req.task_id->0@ == trace.task_id
    &&& req.attempt is None || req.attempt->0 == trace.attempt
    &&& req.event_type@.len() == 0 || is_named(req.event_type@, trace.event_type)
}

proof fn lemma_event_asked_for(trace: TraceState, req: ListTraceEventsRequest)
    ensures
        event_asked_for(trace, req) == asked_for(
            trace,
            req.run_id@,
            opt_text(req.kind),
            opt_text(req.task_id),
            req.attempt,
            texts(req.event_type@),
        ),
{
    lemma_named(req.event_type@, trace.event_type);
}

/// A list of trace events answers with exactly those that it was asked for: of the run, and of the
/// kind, the task, the attempt and the types that it names, whatever else it names. Each is told
/// as it is, by attempt and number; or the fault is told of one of them that cannot be.
pub proof fn queries_answer_what_is_asked(
    ledger: &Ledger,
    req: ListTraceEventsRequest,
    records: Result<Vec<TraceEventRecord>, Error>,
)
    requires
        call_ensures(Ledger::list_trace_events, (ledger, req), records),
        forall|i: int, j: int|
            0 <= i < j < ledger@.traces.len() ==> (#[trigger] ledger@.traces[i]).id < (
            #[trigger] ledger@.traces[j]).id,
    ensures
        records matches Ok(list) ==> {
            &&& forall|a: int|
                0 <= a < list@.len() ==> {
                    &&& (#[trigger] list@[a]).run_id@ == req.run_id@
                    &&& req.kind is Some ==> list@[a].kind@ == req.kind->0@
                    &&& req.task_id is Some ==> list@[a].task_id@ == req.task_id->0@
                    &&& req.attempt is Some ==> list@[a].attempt == req.attempt->0
                    &&& req.event_type@.len() > 0 ==> is_named(
                        req.event_type@,
                        list@[a].event_type@,
                    )
                }
            &&& forall|a: int|
                0 <= a < list@.len() ==> exists|i: int|
                    0 <= i < ledger@.traces.len() && tells_the_event(
                        (#[trigger] list@[a])@,
                        #[trigger] ledger@.traces[i],
                    )
            &&& forall|i: int|
                0 <= i < ledger@.traces.len() && event_asked_for(
                    #[trigger] ledger@.traces[i],
                    req,
                ) ==> exists|a: int|
                    0 <= a < list@.len() && tells_the_event(
                        (#[trigger] list@[a])@,
                        ledger@.traces[i],
                    )
            &&& forall|a: int, b: int|
                #![trigger list@[a], list@[b]]
                0 <= a < b < list@.len() ==> {
                    &&& list@[a].id != list@[b].id
                    &&& list@[a].attempt <= list@[b].attempt
                    &&& list@[a].attempt == list@[b].attempt ==> list@[a].event_index
                        <= list@[b].event_index
                    &&& list@[a].attempt == list@[b].attempt && list@[a].event_index
                        == list@[b].event_index ==> list@[a].id < list@[b].id
                }
        },
        records matches Err(error) ==> exists|i: int|
            0 <= i < ledger@.traces.len() && event_asked_for(#[trigger] ledger@.traces[i], req)
                && trace_told(ledger@.traces[i]) == Err::<TraceRecordState, Fault>(error@),
{
    let state = ledger@;
    let kind = opt_text(req.kind);
    let task_id = opt_text(req.task_id);
    let types = texts(req.event_type@);
    assert forall|i: int| 0 <= i < state.traces.len() implies event_asked_for(
        #[trigger] state.traces[i],
        req,
    ) == asked_for(state.traces[i], req.run_id@, kind, task_id, req.attempt, types) by {
        lemma_event_asked_for(state.traces[i], req);
    }
    match records {
        Ok(list) => {
            let told = views(list@);
            assert forall|a: int| 0 <= a < list@.len() implies #[trigger] told[a] == list@[a]@ by {}
            lists_hold_the_events_asked_for(
                state,
                req.run_id@,
                kind,
                task_id,
                req.attempt,
                types,
                told,
            );
            assert forall|a: int| 0 <= a < list@.len() implies {
                &&& (#[trigger] list@[a]).run_id@ == req.run_id@
                &&& req.kind is Some ==> list@[a].kind@ == req.kind->0@
                &&& req.task_id is Some ==> list@[a].task_id@ == req.task_id->0@
                &&& req.attempt is Some ==> list@[a].attempt == req.attempt->0
                &&& req.event_type@.len() > 0 ==> is_named(req.event_type@, list@[a].event_type@)
            } by {
                assert(told[a].run_id == req.run_id@);
                lemma_named(req.event_type@, list@[a].event_type@);
            }
            assert forall|a: int| 0 <= a < list@.len() implies exists|i: int|
                0 <= i < state.traces.len() && tells_the_event(
                    (#[trigger] list@[a])@,
                    #[trigger] state.traces[i],
                ) by {
                assert(told[a] == list@[a]@);
            }
            assert forall|i: int|
                0 <= i < state.traces.len() && event_asked_for(
                    #[trigger] state.traces[i],
                    req,
                ) implies exists|a: int|
                0 <= a < list@.len() && tells_the_event(
                    (#[trigger] list@[a])@,
                    state.traces[i],
                ) by {
                let a = choose|a: int|
                    0 <= a < told.len() && tells_the_event(#[trigger] told[a], state.traces[i]);
                assert(told[a] == list@[a]@);
            }
            assert forall|a: int, b: int|
                #![trigger list@[a], list@[b]]
                0 <= a < b < list@.len() implies {
                &&& list@[a].id != list@[b].id
                &&& list@[a].attempt <= list@[b].attempt
                &&& list@[a].attempt == list@[b].attempt ==> list@[a].event_index
                    <= list@[b].event_index
                &&& list@[a].attempt == list@[b].attempt && list@[a].event_index
                    == list@[b].event_index ==> list@[a].id < list@[b].id
            } by {
                assert(told[a] == list@[a]@ && told[b] == list@[b]@);
            }
        },
        Err(error) => {
            only_damage_makes_a_query_fail(
                state,
                req.run_id@,
                kind,
                task_id,
                req.attempt,
                types,
                list_view(records),
            );
        },
    }
}

/// The records are the variants of the run, each as it was registered, by dimension and then by name;
/// or what is told is the fault of one of them that cannot be told.
pub open spec fn variants_told(
    state: LedgerState,
    run_id: Seq<char>,
    records: Result<Vec<VariantRecord>, Error>,
) -> bool {
    match records {
        Ok(list) => {
            &&& forall|dimension: Seq<char>, name: Seq<char>| #[trigger]
                has_variant(state, run_id, dimension, name) ==> exists|a: int|
                    0 <= a < list@.len() && (#[trigger] list@[a]).dimension@ == dimension
                        && list@[a].name@ == name
            &&& forall|a: int|
                0 <= a < list@.len() ==> {
                    let key = seq![run_id, (#[trigger] list@[a]).dimension@, list@[a].name@];
                    &&& list@[a].run_id@ == run_id
                    &&& state.variants.contains_key(key)
                    &&& list@[a].digest@ == state.variants[key].digest
                    &&& json_reading(state.variants[key].config_json) == Ok::<
                        Seq<char>,
                        Seq<char>,
                    >(list@[a].config@)
                }
            &&& forall|a: int, b: int|
                #![trigger list@[a], list@[b]]
                0 <= a < b < list@.len() ==> text_before(
                    list@[a].dimension@,
                    list@[b].dimension@,
                ) || (list@[a].dimension@ == list@[b].dimension@ && text_before(
                    list@[a].name@,
                    list@[b].name@,
                ))
        },
        Err(error) => exists|key: Seq<Seq<char>>| #[trigger]
            state.variants.contains_key(key) && key.len() == 3 && key[0] == run_id && (
            json_reading(state.variants[key].config_json) matches Err(message) && error@
                == Fault::Sqlite("Conversion error from type Text at index: 0, "@ + message)),
    }
}

pub(crate) proof fn lemma_variants_told(
    ledger: &Ledger,
    run_id: Seq<char>,
    records: Result<Vec<VariantRecord>, Error>,
)
    requires
        ledger.wf(),
        lists::<VariantRow>(ledger@.variants, variants_of(run_id), list_view(records)),
    ensures
        variants_told(ledger@, run_id, records),
{
    lemma_key_lengths(ledger);
    match records {
        Ok(list) => {
            let told = views(list@);
            assert forall|a: int| 0 <= a < list@.len() implies #[trigger] told[a] == list@[a]@ by {}
            lists_hold_the_variants_of_the_run(ledger@, run_id, told);
            assert forall|dimension: Seq<char>, name: Seq<char>| #[trigger]
                has_variant(ledger@, run_id, dimension, name) implies exists|a: int|
                0 <= a < list@.len() && (#[trigger] list@[a]).dimension@ == dimension
                    && list@[a].name@ == name by {
                let a = choose|a: int|
                    0 <= a < told.len() && (#[trigger] told[a]).dimension == dimension
                        && told[a].name == name;
                assert(told[a] == list@[a]@);
            }
            assert forall|a: int| 0 <= a < list@.len() implies {
                let key = seq![run_id, (#[trigger] list@[a]).dimension@, list@[a].name@];
                &&& list@[a].run_id@ == run_id
                &&& ledger@.variants.contains_key(key)
                &&& list@[a].digest@ == ledger@.variants[key].digest
                &&& json_reading(ledger@.variants[key].config_json) == Ok::<Seq<char>, Seq<char>>(
                    list@[a].config@,
                )
            } by {
                assert(told[a] == list@[a]@);
            }
            assert forall|a: int, b: int|
                #![trigger list@[a], list@[b]]
                0 <= a < b < list@.len() implies text_before(
                list@[a].dimension@,
                list@[b].dimension@,
            ) || (list@[a].dimension@ == list@[b].dimension@ && text_before(
                list@[a].name@,
                list@[b].name@,
            )) by {
                assert(told[a] == list@[a]@ && told[b] == list@[b]@);
            }
        },
        Err(error) => {
            only_damage_makes_a_list_fail::<VariantRow>(
                ledger@.variants,
                variants_of(run_id),
                list_view(records),
            );
            let key = choose|key: Seq<Seq<char>>| #[trigger]
                is_first_fault::<VariantRow>(
                    ledger@.variants,
                    variants_of(run_id),
                    key,
                    error@,
                );
            assert(key.take(1)[0] == key[0]);
            assert(ledger@.variants.contains_key(key));
        },
    }
}

/// A list of a run's variants answers with exactly those.
pub proof fn variant_lists_answer_what_is_asked(
    ledger: &Ledger,
    run_id: &str,
    records: Result<Vec<VariantRecord>, Error>,
)
    requires
        ledger.wf(),
        call_ensures(Ledger::list_variants, (ledger, run_id), records),
    ensures
        variants_told(ledger@, run_id@, records),
{
    lemma_variants_told(ledger, run_id@, records);
}

/// A list of workers answers with all of them, each as it made itself known, by id; or with the fault
/// of one of them that cannot be told.
pub proof fn worker_lists_answer_what_is_asked(
    ledger: &Ledger,
    records: Result<Vec<WorkerRecord>, Error>,
)
    requires
        ledger.wf(),
        call_ensures(Ledger::list_workers, (ledger,), records),
    ensures
        records matches Ok(list) ==> {
            &&& forall|worker_id: Seq<char>| #[trigger]
                has_worker(ledger@, worker_id) ==> exists|a: int|
                    0 <= a < list@.len() && (#[trigger] list@[a]).worker_id@ == worker_id
            &&& forall|a: int|
                0 <= a < list@.len() ==> {
                    let key = seq![(#[trigger] list@[a]).worker_id@];
                    &&& ledger@.workers.contains_key(key)
                    &&& opt_text(list@[a].hostname) == ledger@.workers[key].hostname
                    &&& list@[a].process_id == ledger@.workers[key].process_id
                    &&& list@[a].heartbeat_at@ == ledger@.workers[key].heartbeat_at
                    &&& json_reading(ledger@.workers[key].resources_json) == Ok::<
                        Seq<char>,
                        Seq<char>,
                    >(list@[a].resources@)
                }
            &&& forall|a: int, b: int|
                #![trigger list@[a], list@[b]]
                0 <= a < b < list@.len() ==> text_before(list@[a].worker_id@, list@[b].worker_id@)
        },
        records matches Err(error) ==> exists|key: Seq<Seq<char>>| #[trigger]
            ledger@.workers.contains_key(key) && (
            json_reading(ledger@.workers[key].resources_json) matches Err(message) && error@
                == Fault::Sqlite("Conversion error from type Text at index: 0, "@ + message)),
{
    lemma_key_lengths(ledger);
    match records {
        Ok(list) => {
            let told = views(list@);
            assert forall|a: int| 0 <= a < list@.len() implies #[trigger] told[a] == list@[a]@ by {}
            lists_hold_every_worker(ledger@, told);
            assert forall|worker_id: Seq<char>| #[trigger]
                has_worker(ledger@, worker_id) implies exists|a: int|
                0 <= a < list@.len() && (#[trigger] list@[a]).worker_id@ == worker_id by {
                let a = choose|a: int|
                    0 <= a < told.len() && (#[trigger] told[a]).worker_id == worker_id;
                assert(told[a] == list@[a]@);
            }
            assert forall|a: int| 0 <= a < list@.len() implies {
                let key = seq![(#[trigger] list@[a]).worker_id@];
                &&& ledger@.workers.contains_key(key)
                &&& opt_text(list@[a].hostname) == ledger@.workers[key].hostname
                &&& list@[a].process_id == ledger@.workers[key].process_id
                &&& list@[a].heartbeat_at@ == ledger@.workers[key].heartbeat_at
                &&& json_reading(ledger@.workers[key].resources_json) == Ok::<
                    Seq<char>,
                    Seq<char>,
                >(list@[a].resources@)
            } by {
                assert(told[a] == list@[a]@);
            }
            assert forall|a: int, b: int|
                #![trigger list@[a], list@[b]]
                0 <= a < b < list@.len() implies text_before(
                list@[a].worker_id@,
                list@[b].worker_id@,
            ) by {
                assert(told[a] == list@[a]@ && told[b] == list@[b]@);
            }
        },
        Err(error) => {
            only_damage_makes_a_list_fail::<WorkerRow>(
                ledger@.workers,
                every_worker(),
                list_view(records),
            );
            let key = choose|key: Seq<Seq<char>>| #[trigger]
                is_first_fault::<WorkerRow>(ledger@.workers, every_worker(), key, error@);
            assert(ledger@.workers.contains_key(key));
        },
    }
}

/// A list of a run's failures answers with exactly those, by time and then by arrival.
pub proof fn failure_lists_answer_what_is_asked(
    ledger: &Ledger,
    run_id: &str,
    records: Vec<FailureRecord>,
)
    requires
        call_ensures(Ledger::failure_records, (ledger, run_id), records),
    ensures
        exists|places: Seq<int>| #[trigger]
            places_failures(ledger@.failures, run_id@, views(records@), places),
{
    lists_hold_the_failures_of_the_run(ledger@.failures, run_id@, views(records@));
}

/// A memo is answered with the value that its stored text reads as, exactly if it was written.
pub proof fn memos_answer_what_was_written(
    ledger: &Ledger,
    req: MemoGetRequest,
    reply: Result<MemoGetResponse, Error>,
)
    requires
        call_ensures(Ledger::memo_get, (ledger, req), reply),
    ensures
        ({
            let key = seq![req.run_id@, req.key_digest@];
            &&& !ledger@.memos.contains_key(key) ==> reply is Ok && !reply->Ok_0.found
                && reply->Ok_0.value is None
            &&& ledger@.memos.contains_key(key) ==> match json_reading(
                ledger@.memos[key].value_json,
            ) {
                Ok(value) => {
                    &&& reply is Ok
                    &&& reply->Ok_0.found
                    &&& reply->Ok_0.value is Some
                    &&& reply->Ok_0.value->0@ == value
                },
                Err(message) => reply is Err && reply->Err_0@ == Fault::Sqlite(
                    "Conversion error from type Text at index: 0, "@ + message,
                ),
            }
        }),
{
}

} // verus!
