//! What summaries and exports come to: what each says of a run, by what the store holds.
use vstd::prelude::*;

use crate::csv::{csv_joined, csv_line, csv_row_reads_back, csv_text, read_row};
use crate::digest::sha256_digest;
use crate::error::{result_view, views, Error, Fault};
use crate::export::{
    content_type, count_lines, exports, failure_line, failure_table, joined, media_type,
    metric_table, Export,
};
use crate::failure::{class_label, class_name, FailureClass};
use crate::json::json_reading;
use crate::laws::lists::{
    counts_in, lists_hold_the_failures_of_the_run, places_failures, tells_the_task,
};
use crate::laws::reports::{
    by_name, failure_places, numbers_name_what_is_counted, numbers_say_how_many, says_how_many,
    step_keys, task_keys,
};
use crate::laws::values::spells;
use crate::ledger::{Ledger, LedgerState};
use crate::order::{
    is_first_fault, is_listing, lemma_told_each, lists, only_damage_makes_a_list_fail, told, Listed,
};
use crate::report::{countable, lists_failures, summed_up};
use crate::rows::{FailureRecord, FailureState, TaskRow};
use crate::table::{keys_where, lemma_contents_from};
use crate::tasks::{task_told, wanted_tasks};
use crate::text::{decimal, lemma_text_before_irreflexive, opt_text, text_before};
use crate::time::{datetime_text, Moment};
use crate::types::{
    counted, ExportKind, ExportRequest, RunSummary, RunSummaryState, SummaryRequest, TaskRecord,
    TaskRecordState,
};
use crate::work::{status_name, Status};

verus! {

/// The keys of the run's artifacts.
pub open spec fn artifact_keys(state: LedgerState, run_id: Seq<char>) -> Set<Seq<Seq<char>>> {
    state.artifacts.dom().filter(|key: Seq<Seq<char>>| state.artifacts[key].run_id == run_id)
}

/// The summary says of the run what was registered and how many there are of everything.
pub open spec fn sums_up(
    state: LedgerState,
    run_id: Seq<char>,
    now: Moment,
    summary: RunSummary,
) -> bool {
    let key = seq![run_id];
    &&& summary.run_id@ == run_id
    &&& state.runs.contains_key(key) ==> {
        &&& opt_text(summary.name) == state.runs[key].name
        &&& json_reading(state.runs[key].config_json) == Ok::<Seq<char>, Seq<char>>(
            summary.config@,
        )
        &&& summary.config_digest@ == state.runs[key].config_digest
        &&& summary.started_at is Some
        &&& summary.started_at->0@ == state.runs[key].created_at
    }
    &&& !state.runs.contains_key(key) ==> {
        &&& summary.name is None
        &&& summary.config@ == "null"@
        &&& spells(
            summary.config_digest@,
            sha256_digest(vstd::utf8::encode_utf8("null"@)),
        )
        &&& summary.started_at is Some
        &&& summary.started_at->0@ == datetime_text(now.secs)
    }
    &&& summary.completed_at is None
    &&& summary.artifact_count == artifact_keys(state, run_id).len() as u32
    &&& by_name(counted(summary.step_counts@))
    &&& by_name(counted(summary.task_counts@))
    &&& by_name(counted(summary.failure_counts@))
    &&& forall|status: Status| #[trigger]
        says_how_many(
            counted(summary.step_counts@),
            status_name(status),
            step_keys(state, run_id, status).len(),
        )
    &&& forall|status: Status| #[trigger]
        says_how_many(
            counted(summary.task_counts@),
            status_name(status),
            task_keys(state, run_id, status).len(),
        )
    &&& forall|class: FailureClass| #[trigger]
        says_how_many(
            counted(summary.failure_counts@),
            class_name(class),
            failure_places(state.failures, run_id, class).len(),
        )
    &&& forall|k: int|
        0 <= k < summary.step_counts@.len() ==> exists|status: Status| #[trigger]
            status_name(status) == (#[trigger] summary.step_counts@[k]).0@
    &&& forall|k: int|
        0 <= k < summary.task_counts@.len() ==> exists|status: Status| #[trigger]
            status_name(status) == (#[trigger] summary.task_counts@[k]).0@
    &&& forall|k: int|
        0 <= k < summary.failure_counts@.len() ==> exists|class: FailureClass| #[trigger]
            class_name(class) == (#[trigger] summary.failure_counts@[k]).0@
}

/// What a request for a summary is answered: one of the run, unless what was registered as its
/// configuration cannot be read.
pub open spec fn summary_answered(
    state: LedgerState,
    run_id: Seq<char>,
    now: Moment,
    summary: Result<RunSummary, Error>,
) -> bool {
    let key = seq![run_id];
    match summary {
        Ok(summary) => sums_up(state, run_id, now, summary),
        Err(error) => {
            &&& state.runs.contains_key(key)
            &&& json_reading(state.runs[key].config_json) matches Err(message)
            &&& error@ == Fault::Sqlite("Conversion error from type Text at index: 0, "@ + message)
        },
    }
}

proof fn lemma_summary_answered(
    state: LedgerState,
    run_id: Seq<char>,
    now: Moment,
    summary: Result<RunSummary, Error>,
)
    requires
        countable(state, run_id),
        result_view(summary) == summed_up(state, run_id, now),
    ensures
        summary_answered(state, run_id, now, summary),
{
    reveal_strlit("null");
    assert("null"@ =~= crate::json::null_text());
    crate::laws::values::digests_spell_sha_256(vstd::utf8::encode_utf8("null"@));
    assert(keys_where(state.artifacts, crate::report::artifacts_of(run_id)) =~= artifact_keys(
        state,
        run_id,
    ));
    if let Ok(said) = summary {
        numbers_say_how_many(state, run_id, Status::Pending, FailureClass::Transient);
        assert forall|status: Status| #[trigger]
            says_how_many(
                counted(said.step_counts@),
                status_name(status),
                step_keys(state, run_id, status).len(),
            ) by {
            numbers_say_how_many(state, run_id, status, FailureClass::Transient);
        }
        assert forall|status: Status| #[trigger]
            says_how_many(
                counted(said.task_counts@),
                status_name(status),
                task_keys(state, run_id, status).len(),
            ) by {
            numbers_say_how_many(state, run_id, status, FailureClass::Transient);
        }
        assert forall|class: FailureClass| #[trigger]
            says_how_many(
                counted(said.failure_counts@),
                class_name(class),
                failure_places(state.failures, run_id, class).len(),
            ) by {
            numbers_say_how_many(state, run_id, Status::Pending, class);
        }
        assert forall|k: int| 0 <= k < said.step_counts@.len() implies exists|status: Status|
            #[trigger]
            status_name(status) == (#[trigger] said.step_counts@[k]).0@ by {
            numbers_name_what_is_counted(state, run_id, k);
            assert(said@.step_counts[k].0 == said.step_counts@[k].0@);
        }
        assert forall|k: int| 0 <= k < said.task_counts@.len() implies exists|status: Status|
            #[trigger]
            status_name(status) == (#[trigger] said.task_counts@[k]).0@ by {
            numbers_name_what_is_counted(state, run_id, k);
            assert(said@.task_counts[k].0 == said.task_counts@[k].0@);
        }
        assert forall|k: int| 0 <= k < said.failure_counts@.len() implies exists|
            class: FailureClass,
        | #[trigger]
            class_name(class) == (#[trigger] said.failure_counts@[k]).0@ by {
            numbers_name_what_is_counted(state, run_id, k);
            assert(said@.failure_counts[k].0 == said.failure_counts@[k].0@);
        }
    }
}

/// A summary says of a run what was registered of it, how many steps and tasks that count have each
/// status, how many failures are of each class, and how many artifacts there are.
pub proof fn summaries_say_what_there_is(
    ledger: &Ledger,
    req: SummaryRequest,
    now: Moment,
    summary: Result<RunSummary, Error>,
)
    requires
        countable(ledger@, req.run_id@),
        call_ensures(Ledger::summary_at, (ledger, req, now), summary),
    ensures
        summary_answered(ledger@, req.run_id@, now, summary),
{
    lemma_summary_answered(ledger@, req.run_id@, now, summary);
}

/// Summaries that are answered by the clock are answered as for some time that it can show.
pub proof fn summaries_go_by_the_clock(
    ledger: &Ledger,
    req: SummaryRequest,
    summary: Result<RunSummary, Error>,
)
    requires
        countable(ledger@, req.run_id@),
        call_ensures(Ledger::summary, (ledger, req), summary),
    ensures
        exists|now: Moment| #[trigger]
            now.valid() && summary_answered(ledger@, req.run_id@, now, summary),
{
    let now = choose|now: Moment| #[trigger]
        now.valid() && result_view(summary) == summed_up(ledger@, req.run_id@, now);
    lemma_summary_answered(ledger@, req.run_id@, now, summary);
    assert(now.valid());
}

/// The records are the tasks of the run that count, each told once and as it is, by dataset and
/// then in the order of the dataset; or what is told is the fault of one of them that cannot be.
pub open spec fn run_is_listed(
    state: LedgerState,
    run_id: Seq<char>,
    records: Result<Vec<TaskRecord>, Fault>,
) -> bool {
    match records {
        Ok(list) => {
            &&& forall|kind: Seq<char>, digest: Seq<char>| #[trigger]
                counts_in(state, run_id, kind, digest) ==> exists|a: int|
                    0 <= a < list@.len() && (#[trigger] list@[a]).kind@ == kind
                        && list@[a].input_digest@ == digest
            &&& forall|a: int|
                0 <= a < list@.len() ==> {
                    let kind = (#[trigger] list@[a]).kind@;
                    let digest = list@[a].input_digest@;
                    &&& counts_in(state, run_id, kind, digest)
                    &&& tells_the_task(
                        list@[a]@,
                        run_id,
                        kind,
                        digest,
                        state.tasks[seq![run_id, kind, digest]],
                    )
                }
            &&& forall|a: int, b: int|
                #![trigger list@[a], list@[b]]
                0 <= a < b < list@.len() ==> {
                    let one = state.tasks[seq![run_id, list@[a].kind@, list@[a].input_digest@]];
                    let two = state.tasks[seq![run_id, list@[b].kind@, list@[b].input_digest@]];
                    ||| text_before(list@[a].kind@, list@[b].kind@)
                    ||| {
                        &&& list@[a].kind@ == list@[b].kind@
                        &&& one.position < two.position || (one.position == two.position
                            && text_before(list@[a].input_digest@, list@[b].input_digest@))
                    }
                }
        },
        Err(fault) => exists|kind: Seq<char>, digest: Seq<char>|
            {
                let key = seq![run_id, kind, digest];
                &&& #[trigger] counts_in(state, run_id, kind, digest)
                &&& task_told(key, state.tasks[key]) == Err::<TaskRecordState, Fault>(fault)
            },
    }
}

proof fn lemma_run_is_listed(
    ledger: &Ledger,
    run_id: Seq<char>,
    records: Result<Vec<TaskRecord>, Fault>,
)
    requires
        ledger.wf(),
        lists::<TaskRow>(
            ledger@.tasks,
            wanted_tasks(ledger@, seq![run_id], Seq::empty(), Seq::empty()),
            match records {
                Ok(list) => Ok(views(list@)),
                Err(fault) => Err(fault),
            },
        ),
    ensures
        run_is_listed(ledger@, run_id, records),
{
    let state = ledger@;
    let wanted = wanted_tasks(state, seq![run_id], Seq::empty(), Seq::empty());
    assert forall|key: Seq<Seq<char>>| #[trigger]
        state.tasks.contains_key(key) && wanted(key, state.tasks[key]) implies key == seq![
        run_id,
        key[1],
        key[2],
    ] && counts_in(state, run_id, key[1], key[2]) && key.len() == 3 by {
        let i = lemma_contents_from::<TaskRow>(ledger.tasks.listed(), key);
        assert(key.take(1)[0] == key[0]);
        assert(seq![run_id][0] == run_id);
        assert(key =~= seq![run_id, key[1], key[2]]);
        assert(key.take(2) =~= seq![run_id, key[1]]);
    }
    assert forall|kind: Seq<char>, digest: Seq<char>| #[trigger]
        counts_in(state, run_id, kind, digest) implies state.tasks.contains_key(
        seq![run_id, kind, digest],
    ) && wanted(seq![run_id, kind, digest], state.tasks[seq![run_id, kind, digest]]) by {
        let key = seq![run_id, kind, digest];
        assert(key.take(1) =~= seq![run_id]);
        assert(key.take(2) =~= seq![run_id, kind]);
    }
    match records {
        Ok(list) => {
            let said = views(list@);
            assert forall|a: int| 0 <= a < list@.len() implies #[trigger] said[a] == list@[a]@ by {}
            let keys = choose|keys: Seq<Seq<Seq<char>>>| #[trigger]
                is_listing::<TaskRow>(state.tasks, wanted, keys) && Ok::<
                    Seq<TaskRecordState>,
                    Fault,
                >(said) == told::<TaskRow>(state.tasks, keys);
            lemma_told_each::<TaskRow>(state.tasks, keys);
            assert forall|a: int| 0 <= a < keys.len() implies {
                let kind = (#[trigger] list@[a]).kind@;
                let digest = list@[a].input_digest@;
                &&& keys[a] == seq![run_id, kind, digest]
                &&& keys[a][0] == run_id && keys[a][1] == kind && keys[a][2] == digest
                &&& counts_in(state, run_id, kind, digest)
                &&& tells_the_task(
                    list@[a]@,
                    run_id,
                    kind,
                    digest,
                    state.tasks[seq![run_id, kind, digest]],
                )
            } by {
                assert(keys.to_set().contains(keys[a]));
                assert(keys_where(state.tasks, wanted).contains(keys[a]));
                assert(state.tasks.contains_key(keys[a]));
                assert(said[a] == list@[a]@);
                assert(task_told(keys[a], state.tasks[keys[a]]) == Ok::<TaskRecordState, Fault>(
                    said[a],
                ));
                assert(seq![run_id, keys[a][1], keys[a][2]][0] == run_id);
            }
            assert forall|kind: Seq<char>, digest: Seq<char>| #[trigger]
                counts_in(state, run_id, kind, digest) implies exists|a: int|
                0 <= a < list@.len() && (#[trigger] list@[a]).kind@ == kind
                    && list@[a].input_digest@ == digest by {
                let key = seq![run_id, kind, digest];
                assert(keys_where(state.tasks, wanted).contains(key));
                assert(keys.to_set().contains(key));
                let a = choose|a: int| 0 <= a < keys.len() && keys[a] == key;
                assert(key[1] == kind && key[2] == digest);
                assert(list@[a].kind@ == kind);
            }
            assert forall|a: int, b: int|
                #![trigger list@[a], list@[b]]
                0 <= a < b < list@.len() implies {
                let one = state.tasks[seq![run_id, list@[a].kind@, list@[a].input_digest@]];
                let two = state.tasks[seq![run_id, list@[b].kind@, list@[b].input_digest@]];
                ||| text_before(list@[a].kind@, list@[b].kind@)
                ||| {
                    &&& list@[a].kind@ == list@[b].kind@
                    &&& one.position < two.position || (one.position == two.position
                        && text_before(list@[a].input_digest@, list@[b].input_digest@))
                }
            } by {
                assert(<TaskRow as Listed>::precedes(
                    keys[a],
                    state.tasks[keys[a]],
                    keys[b],
                    state.tasks[keys[b]],
                ));
                assert(keys[a][1] == list@[a].kind@ && keys[b][1] == list@[b].kind@);
                lemma_text_before_irreflexive(run_id);
            }
        },
        Err(fault) => {
            only_damage_makes_a_list_fail::<TaskRow>(state.tasks, wanted, Err(fault));
            let key = choose|key: Seq<Seq<char>>| #[trigger]
                is_first_fault::<TaskRow>(state.tasks, wanted, key, fault);
            assert(state.tasks.contains_key(key));
            assert(counts_in(state, run_id, key[1], key[2]));
        },
    }
}

/// What an export is answered, by its kind: the summary, the tasks, the failures, or a table of one
/// of them as text.
pub open spec fn export_answered(
    state: LedgerState,
    run_id: Seq<char>,
    kind: ExportKind,
    now: Moment,
    export: Result<Export, Error>,
) -> bool {
    &&& kind is ManifestJson ==> match export {
        Ok(Export::Manifest(summary)) => sums_up(state, run_id, now, summary),
        Ok(_) => false,
        Err(error) => summary_answered(state, run_id, now, Err(error)),
    }
    &&& kind is AggregateMetricsJson ==> match export {
        Ok(Export::Metrics(summary)) => sums_up(state, run_id, now, summary),
        Ok(_) => false,
        Err(error) => summary_answered(state, run_id, now, Err(error)),
    }
    &&& kind is AggregateMetricsCsv ==> match export {
        Ok(Export::Text(text)) => text.content_type@ == "text/csv"@ && exists|said: RunSummaryState|
            text.body@ == #[trigger] metric_table(said) && summed_up(state, run_id, now) == Ok::<
                RunSummaryState,
                Fault,
            >(said),
        Ok(_) => false,
        Err(error) => summary_answered(state, run_id, now, Err(error)),
    }
    &&& kind is TaskResultsJsonl ==> match export {
        Ok(Export::TaskResults(list)) => run_is_listed(state, run_id, Ok(list)),
        Ok(_) => false,
        Err(error) => run_is_listed(state, run_id, Err(error@)),
    }
    &&& kind is FailureReportJson ==> match export {
        Ok(Export::FailureReport(list)) => exists|places: Seq<int>| #[trigger]
            places_failures(state.failures, run_id, views(list@), places),
        _ => false,
    }
    &&& kind is FailureReportCsv ==> match export {
        Ok(Export::Text(text)) => text.content_type@ == "text/csv"@ && exists|
            list: Seq<FailureState>,
            places: Seq<int>,
        | #[trigger]
            places_failures(state.failures, run_id, list, places) && text.body@ == failure_table(
                list,
            ),
        _ => false,
    }
}

proof fn lemma_export_answered(
    ledger: &Ledger,
    run_id: Seq<char>,
    kind: ExportKind,
    now: Moment,
    export: Result<Export, Error>,
)
    requires
        ledger.wf(),
        countable(ledger@, run_id),
        exports(ledger@, run_id, kind, now, result_view(export)),
    ensures
        export_answered(ledger@, run_id, kind, now, export),
{
    let state = ledger@;
    match kind {
        ExportKind::ManifestJson => {
            match export {
                Ok(Export::Manifest(summary)) => lemma_summary_answered(
                    state,
                    run_id,
                    now,
                    Ok(summary),
                ),
                Ok(_) => {},
                Err(error) => lemma_summary_answered(state, run_id, now, Err(error)),
            }
        },
        ExportKind::AggregateMetricsJson => {
            match export {
                Ok(Export::Metrics(summary)) => lemma_summary_answered(
                    state,
                    run_id,
                    now,
                    Ok(summary),
                ),
                Ok(_) => {},
                Err(error) => lemma_summary_answered(state, run_id, now, Err(error)),
            }
        },
        ExportKind::AggregateMetricsCsv => {
            match export {
                Ok(_) => {},
                Err(error) => lemma_summary_answered(state, run_id, now, Err(error)),
            }
        },
        ExportKind::TaskResultsJsonl => {
            match export {
                Ok(Export::TaskResults(list)) => lemma_run_is_listed(ledger, run_id, Ok(list)),
                Ok(_) => {},
                Err(error) => lemma_run_is_listed(ledger, run_id, Err(error@)),
            }
        },
        ExportKind::FailureReportJson => {
            match export {
                Ok(Export::FailureReport(list)) => lists_hold_the_failures_of_the_run(
                    state.failures,
                    run_id,
                    views(list@),
                ),
                _ => {},
            }
        },
        ExportKind::FailureReportCsv => {
            let list = choose|list: Seq<FailureState>| #[trigger]
                lists_failures(state.failures, run_id, list) && result_view(export) == Ok::<
                    crate::export::ExportParts,
                    Fault,
                >(
                    crate::export::ExportParts::Text(
                        crate::types::ExportState {
                            content_type: media_type(kind),
                            body: failure_table(list),
                        },
                    ),
                );
            lists_hold_the_failures_of_the_run(state.failures, run_id, list);
            let places = choose|places: Seq<int>| #[trigger]
                places_failures(state.failures, run_id, list, places);
            assert(places_failures(state.failures, run_id, list, places));
        },
    }
}

/// An export says of a run what its kind asks for.
pub proof fn exports_say_what_there_is(
    ledger: &Ledger,
    req: ExportRequest,
    now: Moment,
    export: Result<Export, Error>,
)
    requires
        ledger.wf(),
        countable(ledger@, req.run_id@),
        call_ensures(Ledger::export_at, (ledger, req, now), export),
    ensures
        export_answered(ledger@, req.run_id@, req.kind, now, export),
{
    lemma_export_answered(ledger, req.run_id@, req.kind, now, export);
}

/// Exports that are answered by the clock are answered as for some time that it can show.
pub proof fn exports_go_by_the_clock(
    ledger: &Ledger,
    req: ExportRequest,
    export: Result<Export, Error>,
)
    requires
        ledger.wf(),
        countable(ledger@, req.run_id@),
        call_ensures(Ledger::export, (ledger, req), export),
    ensures
        exists|now: Moment| #[trigger]
            now.valid() && export_answered(ledger@, req.run_id@, req.kind, now, export),
{
    let now = choose|now: Moment| #[trigger]
        now.valid() && exports(ledger@, req.run_id@, req.kind, now, result_view(export));
    lemma_export_answered(ledger, req.run_id@, req.kind, now, export);
    assert(now.valid());
}

/// Text that is JSON, JSON lines or CSV is named so.
pub proof fn content_types_are_named(kind: ExportKind, name: &'static str)
    requires
        call_ensures(content_type, (kind,), name),
    ensures
        kind is ManifestJson || kind is FailureReportJson || kind is AggregateMetricsJson ==> name@
            == "application/json"@,
        kind is TaskResultsJsonl ==> name@ == "application/x-ndjson"@,
        kind is FailureReportCsv || kind is AggregateMetricsCsv ==> name@ == "text/csv"@,
{
}

/// A report of failures reads as CSV: a first row that names its columns, and then a row for each
/// failure, in their order, with what each column names.
pub proof fn failure_tables_read_back(failures: Seq<FailureState>, more: Seq<char>)
    ensures
        read_row(failure_table(Seq::empty()) + more) == Some(
            (
                seq![
                    "run_id"@,
                    "step_name"@,
                    "input_digest"@,
                    "attempt"@,
                    "failure_class"@,
                    "error_type"@,
                    "message"@,
                    "timestamp"@,
                ],
                more,
            ),
        ),
        failures.len() > 0 ==> {
            let last = failures.last();
            let before = failure_table(failures.drop_last());
            let whole = failure_table(failures);
            &&& before.len() <= whole.len()
            &&& whole.take(before.len() as int) == before
            &&& read_row(whole.skip(before.len() as int) + more) == Some(
                (
                    seq![
                        last.run_id,
                        last.step_name,
                        last.input_digest,
                        decimal(last.attempt as nat),
                        class_label(last.failure_class),
                        last.error_type,
                        last.message,
                        last.timestamp,
                    ],
                    more,
                ),
            )
        },
{
    let names = seq![
        "run_id"@,
        "step_name"@,
        "input_digest"@,
        "attempt"@,
        "failure_class"@,
        "error_type"@,
        "message"@,
        "timestamp"@,
    ];
    let header =
        "run_id,step_name,input_digest,attempt,failure_class,error_type,message,timestamp\n"@;
    lemma_header();
    csv_row_reads_back(names, more);
    assert(failure_table(Seq::empty()) =~= header) by {
        let none = Seq::new(0, |i: int| failure_line(Seq::<FailureState>::empty()[i]));
        assert(joined(none).len() == 0);
    }
    if failures.len() > 0 {
        let fewer = failures.drop_last();
        let last = failures.last();
        let lines = Seq::new(failures.len(), |i: int| failure_line(failures[i]));
        let less = Seq::new(fewer.len(), |i: int| failure_line(fewer[i]));
        assert(lines.drop_last() =~= less);
        assert(lines.last() == failure_line(last));
        let before = failure_table(fewer);
        let whole = failure_table(failures);
        assert(whole =~= before + failure_line(last));
        assert(whole.take(before.len() as int) =~= before);
        assert(whole.skip(before.len() as int) =~= failure_line(last));
        csv_row_reads_back(
            seq![
                last.run_id,
                last.step_name,
                last.input_digest,
                decimal(last.attempt as nat),
                class_label(last.failure_class),
                last.error_type,
                last.message,
                last.timestamp,
            ],
            more,
        );
    }
}

proof fn lemma_header()
    ensures
        csv_line(
            seq![
                "run_id"@,
                "step_name"@,
                "input_digest"@,
                "attempt"@,
                "failure_class"@,
                "error_type"@,
                "message"@,
                "timestamp"@,
            ],
        ) == "run_id,step_name,input_digest,attempt,failure_class,error_type,message,timestamp\n"@,
{
    reveal_strlit("run_id");
    reveal_strlit("step_name");
    reveal_strlit("input_digest");
    reveal_strlit("attempt");
    reveal_strlit("failure_class");
    reveal_strlit("error_type");
    reveal_strlit("message");
    reveal_strlit("timestamp");
    reveal_strlit(
        "run_id,step_name,input_digest,attempt,failure_class,error_type,message,timestamp\n",
    );
    assert(csv_text("run_id"@) == "run_id"@);
    assert(csv_text("step_name"@) == "step_name"@);
    assert(csv_text("input_digest"@) == "input_digest"@);
    assert(csv_text("attempt"@) == "attempt"@);
    assert(csv_text("failure_class"@) == "failure_class"@);
    assert(csv_text("error_type"@) == "error_type"@);
    assert(csv_text("message"@) == "message"@);
    assert(csv_text("timestamp"@) == "timestamp"@);
    let n1 = seq!["run_id"@];
    let n2 = n1.push("step_name"@);
    lemma_joined(n1, "step_name"@);
    let n3 = n2.push("input_digest"@);
    lemma_joined(n2, "input_digest"@);
    let n4 = n3.push("attempt"@);
    lemma_joined(n3, "attempt"@);
    let n5 = n4.push("failure_class"@);
    lemma_joined(n4, "failure_class"@);
    let n6 = n5.push("error_type"@);
    lemma_joined(n5, "error_type"@);
    let n7 = n6.push("message"@);
    lemma_joined(n6, "message"@);
    let n8 = n7.push("timestamp"@);
    lemma_joined(n7, "timestamp"@);
    assert(csv_joined(n1) == "run_id"@);
    assert(n8 =~= seq![
        "run_id"@,
        "step_name"@,
        "input_digest"@,
        "attempt"@,
        "failure_class"@,
        "error_type"@,
        "message"@,
        "timestamp"@,
    ]);
    assert(csv_line(n8)
        =~= "run_id,step_name,input_digest,attempt,failure_class,error_type,message,timestamp\n"@);
}

proof fn lemma_joined(fields: Seq<Seq<char>>, field: Seq<char>)
    requires
        fields.len() > 0,
    ensures
        csv_joined(fields.push(field)) == csv_joined(fields).push(',') + csv_text(field),
{
    assert(fields.push(field).drop_last() =~= fields);
}

/// A report of failures is written as its table.
pub proof fn failure_reports_are_tables(failures: &Vec<FailureRecord>, body: String)
    requires
        call_ensures(crate::export::failure_csv, (failures,), body),
    ensures
        body@ == failure_table(views(failures@)),
        views(failures@).len() == failures@.len(),
        forall|i: int| 0 <= i < failures@.len() ==> #[trigger] views(failures@)[i] == failures@[i]@,
{
}

/// A table of counts has a line for each count of steps and then for each of tasks, in their order:
/// what is counted, the status and the number, with commas between them.
pub proof fn metric_tables_have_a_line_for_each_count(summary: RunSummaryState)
    ensures
        metric_table(
            RunSummaryState { step_counts: Seq::empty(), task_counts: Seq::empty(), ..summary },
        ) == "metric,status,count\n"@,
        summary.task_counts.len() > 0 ==> {
            let last = summary.task_counts.last();
            metric_table(summary) == metric_table(
                RunSummaryState { task_counts: summary.task_counts.drop_last(), ..summary },
            ) + "tasks,"@ + last.0 + ","@ + decimal(last.1 as nat) + "\n"@
        },
        summary.task_counts.len() == 0 && summary.step_counts.len() > 0 ==> {
            let last = summary.step_counts.last();
            metric_table(summary) == metric_table(
                RunSummaryState { step_counts: summary.step_counts.drop_last(), ..summary },
            ) + "steps,"@ + last.0 + ","@ + decimal(last.1 as nat) + "\n"@
        },
{
    reveal_strlit("tasks");
    reveal_strlit("tasks,");
    reveal_strlit("steps");
    reveal_strlit("steps,");
    reveal_strlit(",");
    reveal_strlit("\n");
    lemma_no_counts("steps"@);
    lemma_no_counts("tasks"@);
    let header = "metric,status,count\n"@;
    assert(metric_table(
        RunSummaryState { step_counts: Seq::empty(), task_counts: Seq::empty(), ..summary },
    ) =~= header);
    if summary.task_counts.len() > 0 {
        lemma_one_more_count("tasks"@, summary.task_counts);
        let last = summary.task_counts.last();
        assert(metric_table(summary) =~= metric_table(
            RunSummaryState { task_counts: summary.task_counts.drop_last(), ..summary },
        ) + "tasks,"@ + last.0 + ","@ + decimal(last.1 as nat) + "\n"@);
    } else if summary.step_counts.len() > 0 {
        lemma_one_more_count("steps"@, summary.step_counts);
        let last = summary.step_counts.last();
        assert(summary.task_counts =~= Seq::empty());
        assert(metric_table(summary) =~= metric_table(
            RunSummaryState { step_counts: summary.step_counts.drop_last(), ..summary },
        ) + "steps,"@ + last.0 + ","@ + decimal(last.1 as nat) + "\n"@);
    }
}

proof fn lemma_no_counts(metric: Seq<char>)
    ensures
        count_lines(metric, Seq::empty()) == Seq::<char>::empty(),
{
    let none = Seq::new(
        0,
        |i: int| crate::export::count_line(metric, Seq::<(Seq<char>, u32)>::empty()[i]),
    );
    assert(joined(none).len() == 0);
}

proof fn lemma_one_more_count(metric: Seq<char>, counts: Seq<(Seq<char>, u32)>)
    requires
        counts.len() > 0,
    ensures
        count_lines(metric, counts) == count_lines(metric, counts.drop_last())
            + crate::export::count_line(metric, counts.last()),
{
    let fewer = counts.drop_last();
    let lines = Seq::new(counts.len(), |i: int| crate::export::count_line(metric, counts[i]));
    let less = Seq::new(fewer.len(), |i: int| crate::export::count_line(metric, fewer[i]));
    assert(lines.drop_last() =~= less);
}

/// The counts of a summary are written as their table.
pub proof fn metrics_are_tables(summary: &RunSummary, body: String)
    requires
        call_ensures(crate::export::metric_csv, (summary,), body),
    ensures
        body@ == metric_table(summary@),
        summary@.step_counts.len() == summary.step_counts@.len(),
        summary@.task_counts.len() == summary.task_counts@.len(),
        forall|i: int|
            0 <= i < summary.step_counts@.len() ==> #[trigger] summary@.step_counts[i] == (
                summary.step_counts@[i].0@,
                summary.step_counts@[i].1,
            ),
        forall|i: int|
            0 <= i < summary.task_counts@.len() ==> #[trigger] summary@.task_counts[i] == (
                summary.task_counts@[i].0@,
                summary.task_counts@[i].1,
            ),
{
}

/// Lines of JSON are written one after the other, each with a line feed: one line more adds that line
/// and a line feed at the end.
pub proof fn lines_are_written_in_turn(
    fewer: &Vec<String>,
    lines: &Vec<String>,
    line: String,
    before: String,
    after: String,
)
    requires
        call_ensures(crate::export::json_lines, (fewer,), before),
        call_ensures(crate::export::json_lines, (lines,), after),
        lines@ == fewer@.push(line),
    ensures
        fewer@.len() == 0 ==> before@.len() == 0,
        after@ == before@ + line@.push('\n'),
{
    let less = Seq::new(fewer@.len(), |i: int| fewer@[i]@.push('\n'));
    let more = Seq::new(lines@.len(), |i: int| lines@[i]@.push('\n'));
    assert(more.drop_last() =~= less);
}

} // verus!
