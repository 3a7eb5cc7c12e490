//! Reports: what the numbers of a run say together.
use vstd::prelude::*;

use crate::datasets::{status_count, with_status};
use crate::digest::digest_text;
use crate::error::Fault;
use crate::export::{exports, ExportParts};
use crate::failure::{class_name, ErrorState, FailureClass};
use crate::history::{after_all, changed, orderly, Change};
use crate::json::reads_back;
use crate::ledger::{run_registered, LedgerState};
use crate::order::{is_listing, lemma_told_each, listing_is_unique, lists, told};
use crate::report::{
    class_count, classes_by_name, countable, failure_numbers, occurring, statuses_by_name,
    step_numbers, steps_in, steps_with, summed_up, task_numbers, tasks_in,
};
use crate::rows::{FailureState, TaskRow, TaskState};
use crate::steps::step_failed;
use crate::table::{keys_where, under};
use crate::tasks::{task_changed, task_done, task_told, wanted_tasks};
use crate::text::text_before;
use crate::time::{datetime_text, Moment};
use crate::types::{ExportKind, TaskRecordState};
use crate::work::{status_name, Status};

verus! {

/// The counts stand in the order of their names.
pub open spec fn by_name<N>(counts: Seq<(Seq<char>, N)>) -> bool {
    forall|i: int, j: int|
        #![trigger counts[i], counts[j]]
        0 <= i < j < counts.len() ==> text_before(counts[i].0, counts[j].0)
}

/// The statuses and the failure classes are counted in the order of their names.
pub proof fn names_are_in_order(i: int, j: int)
    requires
        0 <= i < j < 5,
    ensures
        text_before(status_name(statuses_by_name()[i]), status_name(statuses_by_name()[j])),
        text_before(class_name(classes_by_name()[i]), class_name(classes_by_name()[j])),
{
    reveal_strlit("pending");
    reveal_strlit("running");
    reveal_strlit("succeeded");
    reveal_strlit("failed");
    reveal_strlit("terminal");
    reveal_strlit("transient");
    reveal_strlit("resource_unavailable");
    reveal_strlit("eval_exception");
    reveal_strlit("durable_harness_error");
    reveal_strlit("artifact_error");
    let a = statuses_by_name()[i];
    let b = statuses_by_name()[j];
    assert(status_name(a)[0] as int != status_name(b)[0] as int);
}

/// A list of counts keeps its order when what does not occur is left out, and it has an entry for
/// exactly what occurs.
pub proof fn counts_list_what_occurs(counts: Seq<(Seq<char>, nat)>)
    requires
        by_name(counts),
        forall|i: int| 0 <= i < counts.len() ==> (#[trigger] counts[i]).1 <= u32::MAX,
    ensures
        by_name(occurring(counts)),
        forall|k: int|
            0 <= k < occurring(counts).len() ==> exists|i: int|
                #![trigger counts[i]]
                0 <= i < counts.len() && counts[i].1 > 0 && (#[trigger] occurring(counts)[k]) == (
                    counts[i].0,
                    counts[i].1 as u32,
                ),
        forall|i: int|
            0 <= i < counts.len() && (#[trigger] counts[i]).1 > 0 ==> occurring(counts).contains(
                (counts[i].0, counts[i].1 as u32),
            ),
    decreases counts.len(),
{
    if counts.len() > 0 {
        let fewer = counts.drop_last();
        let last = counts.last();
        assert(by_name(fewer)) by {
            assert forall|i: int, j: int|
                #![trigger fewer[i], fewer[j]]
                0 <= i < j < fewer.len() implies text_before(fewer[i].0, fewer[j].0) by {
                assert(text_before(counts[i].0, counts[j].0));
            }
        }
        assert forall|i: int| 0 <= i < fewer.len() implies (#[trigger] fewer[i]).1 <= u32::MAX by {
            assert(counts[i].1 <= u32::MAX);
        }
        counts_list_what_occurs(fewer);
        let before = occurring(fewer);
        let after = occurring(counts);
        assert forall|k: int| 0 <= k < after.len() implies exists|i: int|
            #![trigger counts[i]]
            0 <= i < counts.len() && counts[i].1 > 0 && (#[trigger] after[k]) == (
                counts[i].0,
                counts[i].1 as u32,
            ) by {
            if k < before.len() {
                assert(after[k] == before[k]);
                let i = choose|i: int|
                    #![trigger fewer[i]]
                    0 <= i < fewer.len() && fewer[i].1 > 0 && before[k] == (
                        fewer[i].0,
                        fewer[i].1 as u32,
                    );
                assert(counts[i] == fewer[i]);
            } else {
                assert(counts[counts.len() - 1] == last);
            }
        }
        assert forall|a: int, b: int|
            #![trigger after[a], after[b]]
            0 <= a < b < after.len() implies text_before(after[a].0, after[b].0) by {
            if b < before.len() {
                assert(text_before(before[a].0, before[b].0));
            } else {
                let i = choose|i: int|
                    #![trigger fewer[i]]
                    0 <= i < fewer.len() && fewer[i].1 > 0 && before[a] == (
                        fewer[i].0,
                        fewer[i].1 as u32,
                    );
                assert(text_before(counts[i].0, counts[counts.len() - 1].0));
            }
        }
        assert forall|i: int|
            0 <= i < counts.len() && (#[trigger] counts[i]).1 > 0 implies after.contains(
            (counts[i].0, counts[i].1 as u32),
        ) by {
            if i < fewer.len() {
                assert(fewer[i] == counts[i]);
                let entry = (fewer[i].0, fewer[i].1 as u32);
                let k = choose|k: int| 0 <= k < before.len() && before[k] == entry;
                assert(after[k] == entry);
            } else {
                assert(after[after.len() - 1] == (last.0, last.1 as u32));
            }
        }
    }
}

/// The summary of a run tells the name and the configuration that it was registered with, as long
/// as what was written as its configuration reads back, and when it was first registered.
pub proof fn summary_tells_the_registered_run(
    state: LedgerState,
    run_id: Seq<char>,
    name: Option<Seq<char>>,
    config: Seq<char>,
    now: Moment,
    later: Moment,
)
    requires
        reads_back(config),
    ensures
        ({
            let after = run_registered(state, run_id, name, config, now);
            &&& summed_up(after, run_id, later) matches Ok(summary)
            &&& summary.name == name
            &&& summary.config == config
            &&& summary.config_digest == digest_text(vstd::utf8::encode_utf8(config))
            &&& summary.started_at == Some(after.runs[seq![run_id]].created_at)
        }),
{
}

/// A completed task is told as succeeded, with its output, as long as what was written as its input
/// and its output reads back.
pub proof fn completed_task_is_told_with_its_output(
    state: LedgerState,
    key: Seq<Seq<char>>,
    output: Seq<char>,
    now: Moment,
)
    requires
        state.tasks.contains_key(key),
        reads_back(state.tasks[key].input_json),
        reads_back(output),
    ensures
        ({
            let work = task_done(state.tasks[key].work, output, now);
            let after = task_changed(state, key, work).0;
            &&& task_told(key, after.tasks[key]) matches Ok(record)
            &&& record.status == "succeeded"@
            &&& record.output == Some(output)
            &&& record.error is None
            &&& record.completed_at == Some(datetime_text(now.secs))
        }),
{
}

/// Every failure that is reported counts once, under its class.
pub proof fn reported_failures_count_once(
    state: LedgerState,
    key: Seq<Seq<char>>,
    error: ErrorState,
    now: Moment,
    seed: nat,
    class: FailureClass,
)
    requires
        state.steps.contains_key(key),
    ensures
        class_count(step_failed(state, key, error, now, seed).0.failures, key[0], class)
            == class_count(state.failures, key[0], class) + if class == error.failure_class {
            1int
        } else {
            0int
        },
{
    let after = step_failed(state, key, error, now, seed).0.failures;
    assert(after.drop_last() =~= state.failures);
}

/// The numbers of a run rest on its steps, its tasks, its artifacts and its failures alone.
proof fn lemma_numbers_stay(before: LedgerState, after: LedgerState, run_id: Seq<char>)
    requires
        after == (LedgerState { runs: after.runs, ..before }),
    ensures
        step_numbers(after, run_id) == step_numbers(before, run_id),
        task_numbers(after, run_id) == task_numbers(before, run_id),
        failure_numbers(after, run_id) == failure_numbers(before, run_id),
{
    let prefix = seq![run_id];
    assert forall|status: Status| #[trigger] status_count(after, prefix, status) == status_count(
        before,
        prefix,
        status,
    ) by {
        assert(keys_where(after.tasks, with_status(after, prefix, status)) =~= keys_where(
            before.tasks,
            with_status(before, prefix, status),
        ));
    }
    let names = |state: LedgerState|
        Seq::new(
            5,
            |i: int|
                (
                    status_name(statuses_by_name()[i]),
                    status_count(state, prefix, statuses_by_name()[i]),
                ),
        );
    assert(names(after) =~= names(before));
}

/// The change registers the run.
pub open spec fn registers_run(change: Change, run_id: Seq<char>) -> bool {
    change matches Change::RegisterRun { run_id: run, .. } && run == run_id
}

/// What is known of a run itself changes where the run is registered, and nowhere else.
#[verifier::rlimit(60)]
proof fn lemma_run_stays(state: LedgerState, change: Change, run_id: Seq<char>)
    requires
        !registers_run(change, run_id),
    ensures
        ({
            let key = seq![run_id];
            let after = changed(state, change);
            &&& after.runs.contains_key(key) == state.runs.contains_key(key)
            &&& state.runs.contains_key(key) ==> after.runs[key] == state.runs[key]
        }),
{
    if let Change::RegisterRun { run_id: run, .. } = change {
        assert(seq![run][0] == run);
        assert(seq![run_id][0] == run_id);
    }
}

proof fn lemma_run_stays_over(state: LedgerState, changes: Seq<Change>, run_id: Seq<char>)
    requires
        forall|i: int| 0 <= i < changes.len() ==> !registers_run(#[trigger] changes[i], run_id),
    ensures
        ({
            let key = seq![run_id];
            let after = after_all(state, changes);
            &&& after.runs.contains_key(key) == state.runs.contains_key(key)
            &&& state.runs.contains_key(key) ==> after.runs[key] == state.runs[key]
        }),
    decreases changes.len(),
{
    if changes.len() > 0 {
        let fewer = changes.drop_last();
        assert forall|i: int| 0 <= i < fewer.len() implies !registers_run(
            #[trigger] fewer[i],
            run_id,
        ) by {
            assert(!registers_run(changes[i], run_id));
        }
        lemma_run_stays_over(state, fewer, run_id);
        assert(!registers_run(changes[changes.len() - 1], run_id));
        lemma_run_stays(after_all(state, fewer), changes.last(), run_id);
    }
}

/// Registering a run again keeps its progress: whatever requests came between, the summary then
/// tells the new name and configuration, as long as what was written as the configurations reads
/// back, the first start, and the counts as they were before.
pub proof fn registering_again_keeps_progress(
    state: LedgerState,
    run_id: Seq<char>,
    name: Option<Seq<char>>,
    config: Seq<char>,
    now: Moment,
    between: Seq<Change>,
    new_name: Option<Seq<char>>,
    new_config: Seq<char>,
    later: Moment,
    at: Moment,
)
    requires
        reads_back(config),
        reads_back(new_config),
        forall|i: int| 0 <= i < between.len() ==> !registers_run(#[trigger] between[i], run_id),
    ensures
        ({
            let once = run_registered(state, run_id, name, config, now);
            let progressed = after_all(once, between);
            let twice = run_registered(progressed, run_id, new_name, new_config, later);
            &&& summed_up(once, run_id, at) matches Ok(first)
            &&& summed_up(progressed, run_id, at) matches Ok(before)
            &&& summed_up(twice, run_id, at) matches Ok(summary)
            &&& summary.name == new_name
            &&& summary.config == new_config
            &&& summary.config_digest == digest_text(vstd::utf8::encode_utf8(new_config))
            &&& summary.started_at == first.started_at
            &&& summary.completed_at is None
            &&& summary.step_counts == before.step_counts
            &&& summary.task_counts == before.task_counts
            &&& summary.artifact_count == before.artifact_count
            &&& summary.failure_counts == before.failure_counts
        }),
{
    let once = run_registered(state, run_id, name, config, now);
    let progressed = after_all(once, between);
    let twice = run_registered(progressed, run_id, new_name, new_config, later);
    lemma_run_stays_over(once, between, run_id);
    lemma_numbers_stay(progressed, twice, run_id);
}

/// What is left of a list holds what passes, and stands in the order of the list.
proof fn lemma_filtered<A>(
    list: Seq<A>,
    passes: spec_fn(A) -> bool,
    before: spec_fn(A, A) -> bool,
)
    requires
        forall|a: int, b: int|
            #![trigger list[a], list[b]]
            0 <= a < b < list.len() ==> before(list[a], list[b]),
    ensures
        forall|x: A| #[trigger]
            list.filter(passes).contains(x) <==> list.contains(x) && passes(x),
        forall|a: int, b: int|
            #![trigger list.filter(passes)[a], list.filter(passes)[b]]
            0 <= a < b < list.filter(passes).len() ==> before(
                list.filter(passes)[a],
                list.filter(passes)[b],
            ),
    decreases list.len(),
{
    reveal(Seq::filter);
    if list.len() > 0 {
        let fewer = list.drop_last();
        let last = list.last();
        assert forall|a: int, b: int|
            #![trigger fewer[a], fewer[b]]
            0 <= a < b < fewer.len() implies before(fewer[a], fewer[b]) by {
            assert(before(list[a], list[b]));
        }
        lemma_filtered(fewer, passes, before);
        let kept = fewer.filter(passes);
        let more = list.filter(passes);
        assert forall|x: A| #[trigger] more.contains(x) <==> list.contains(x) && passes(x) by {
            if list.contains(x) && passes(x) {
                let i = choose|i: int| 0 <= i < list.len() && list[i] == x;
                if i < fewer.len() {
                    assert(fewer[i] == x);
                    assert(kept.contains(x));
                    let a = choose|a: int| 0 <= a < kept.len() && kept[a] == x;
                    assert(more[a] == x);
                } else {
                    assert(more[more.len() - 1] == x);
                }
            }
            if more.contains(x) {
                let a = choose|a: int| 0 <= a < more.len() && more[a] == x;
                if a < kept.len() {
                    assert(kept[a] == x);
                    assert(kept.contains(x));
                    let i = choose|i: int| 0 <= i < fewer.len() && fewer[i] == x;
                    assert(list[i] == x);
                } else {
                    assert(list[list.len() - 1] == x);
                }
            }
        }
        assert forall|a: int, b: int|
            #![trigger more[a], more[b]]
            0 <= a < b < more.len() implies before(more[a], more[b]) by {
            if b < kept.len() {
                assert(before(kept[a], kept[b]));
            } else {
                assert(kept.contains(kept[a]));
                let i = choose|i: int| 0 <= i < fewer.len() && fewer[i] == kept[a];
                assert(before(list[i], list[list.len() - 1]));
            }
        }
    }
}

/// The keys of one dataset among others are told as the records of the dataset among the others.
proof fn lemma_told_filtered(
    tasks: Map<Seq<Seq<char>>, TaskState>,
    keys: Seq<Seq<Seq<char>>>,
    kind: Seq<char>,
)
    ensures
        told::<TaskRow>(tasks, keys) matches Ok(records) ==> told::<TaskRow>(
            tasks,
            keys.filter(|key: Seq<Seq<char>>| key[1] == kind),
        ) == Ok::<Seq<TaskRecordState>, Fault>(
            records.filter(|record: TaskRecordState| record.kind == kind),
        ),
    decreases keys.len(),
{
    reveal(Seq::filter);
    let of_kind = |key: Seq<Seq<char>>| key[1] == kind;
    if keys.len() > 0 {
        lemma_told_filtered(tasks, keys.drop_last(), kind);
        if let Ok(records) = told::<TaskRow>(tasks, keys) {
            let fewer = told::<TaskRow>(tasks, keys.drop_last())->Ok_0;
            assert(records.drop_last() =~= fewer);
            if of_kind(keys.last()) {
                let kept = keys.drop_last().filter(of_kind);
                assert(kept.push(keys.last()).drop_last() =~= kept);
            }
        }
    }
}

/// The export of a run's task results holds, for each dataset, exactly what the dataset's list
/// without filters gives, in that order; and the datasets follow each other by name.
pub proof fn task_results_are_the_lists(
    state: LedgerState,
    run_id: Seq<char>,
    kind: Seq<char>,
    now: Moment,
    records: Seq<TaskRecordState>,
    list: Result<Seq<TaskRecordState>, Fault>,
)
    requires
        orderly(state),
        exports(
            state,
            run_id,
            ExportKind::TaskResultsJsonl,
            now,
            Ok(ExportParts::TaskResults(records)),
        ),
        lists::<TaskRow>(
            state.tasks,
            wanted_tasks(state, seq![run_id, kind], Seq::empty(), Seq::empty()),
            list,
        ),
    ensures
        list == Ok::<Seq<TaskRecordState>, Fault>(
            records.filter(|record: TaskRecordState| record.kind == kind),
        ),
        forall|a: int| 0 <= a < records.len() ==> (#[trigger] records[a]).run_id == run_id,
        forall|a: int, b: int|
            #![trigger records[a], records[b]]
            0 <= a < b < records.len() ==> records[a].kind == records[b].kind || text_before(
                records[a].kind,
                records[b].kind,
            ),
{
    let every = wanted_tasks(state, seq![run_id], Seq::empty(), Seq::empty());
    let wanted = wanted_tasks(state, seq![run_id, kind], Seq::empty(), Seq::empty());
    let of_kind = |key: Seq<Seq<char>>| key[1] == kind;
    let before = |one: Seq<Seq<char>>, two: Seq<Seq<char>>|
        one != two && <TaskRow as crate::order::Listed>::precedes(
            one,
            state.tasks[one],
            two,
            state.tasks[two],
        );
    let keys = choose|keys: Seq<Seq<Seq<char>>>| #[trigger]
        is_listing::<TaskRow>(state.tasks, every, keys) && Ok::<Seq<TaskRecordState>, Fault>(
            records,
        ) == told::<TaskRow>(state.tasks, keys);
    let kept = keys.filter(of_kind);
    assert forall|a: int, b: int|
        #![trigger keys[a], keys[b]]
        0 <= a < b < keys.len() implies before(keys[a], keys[b]) by {}
    lemma_filtered(keys, of_kind, before);
    assert forall|key: Seq<Seq<char>>|
        kept.to_set().contains(key) <==> keys_where(state.tasks, wanted).contains(key) by {
        assert(kept.contains(key) <==> keys.contains(key) && of_kind(key));
        assert(keys.to_set().contains(key) <==> keys_where(state.tasks, every).contains(key));
        if state.tasks.contains_key(key) {
            assert(key.len() == 3);
            assert(key.take(1)[0] == key[0]);
            assert(key.take(2)[0] == key[0] && key.take(2)[1] == key[1]);
            if under(seq![run_id], key) && key[1] == kind {
                assert(key.take(2) =~= seq![run_id, kind]);
            }
            if under(seq![run_id, kind], key) {
                assert(key.take(1) =~= seq![run_id]);
                assert(key[1] == seq![run_id, kind][1]);
            }
        }
    }
    assert(kept.to_set() =~= keys_where(state.tasks, wanted));
    assert(is_listing::<TaskRow>(state.tasks, wanted, kept));
    let listed = choose|listed: Seq<Seq<Seq<char>>>| #[trigger]
        is_listing::<TaskRow>(state.tasks, wanted, listed) && list == told::<TaskRow>(
            state.tasks,
            listed,
        );
    listing_is_unique::<TaskRow>(state.tasks, wanted, listed, kept);
    lemma_told_filtered(state.tasks, keys, kind);
    lemma_told_each::<TaskRow>(state.tasks, keys);
    assert forall|a: int| 0 <= a < keys.len() implies (#[trigger] records[a]).run_id == run_id
        && records[a].kind == keys[a][1] && keys[a][0] == run_id by {
        assert(task_told(keys[a], state.tasks[keys[a]]) == Ok::<TaskRecordState, Fault>(
            records[a],
        ));
        assert(keys.to_set().contains(keys[a]));
        assert(keys[a].take(1)[0] == keys[a][0]);
    }
    assert forall|a: int, b: int|
        #![trigger records[a], records[b]]
        0 <= a < b < records.len() implies records[a].kind == records[b].kind || text_before(
        records[a].kind,
        records[b].kind,
    ) by {
        assert(before(keys[a], keys[b]));
        crate::text::lemma_text_before_irreflexive(run_id);
    }
}

/// The keys of the run's steps with that status.
pub open spec fn step_keys(
    state: LedgerState,
    run_id: Seq<char>,
    status: Status,
) -> Set<Seq<Seq<char>>> {
    state.steps.dom().filter(
        |key: Seq<Seq<char>>|
            key.len() >= 1 && key[0] == run_id && state.steps[key].status == status,
    )
}

/// The keys of the run's tasks with that status, of each dataset those that count.
pub open spec fn task_keys(
    state: LedgerState,
    run_id: Seq<char>,
    status: Status,
) -> Set<Seq<Seq<char>>> {
    state.tasks.dom().filter(
        |key: Seq<Seq<char>>|
            {
                &&& key.len() >= 1
                &&& key[0] == run_id
                &&& state.datasets.contains_key(key.take(2)) ==> state.tasks[key].generation
                    == state.datasets[key.take(2)]
                &&& state.tasks[key].work.status == status
            },
    )
}

/// The places of the run's failures of that class.
pub open spec fn failure_places(
    failures: Seq<FailureState>,
    run_id: Seq<char>,
    class: FailureClass,
) -> Set<int> {
    Set::new(
        |i: int|
            0 <= i < failures.len() && failures[i].run_id == run_id && failures[i].failure_class
                == class,
    )
}

proof fn lemma_step_keys(state: LedgerState, run_id: Seq<char>, status: Status)
    ensures
        keys_where(state.steps, steps_with(run_id, status)) == step_keys(state, run_id, status),
{
    let one = keys_where(state.steps, steps_with(run_id, status));
    let two = step_keys(state, run_id, status);
    assert forall|key: Seq<Seq<char>>| one.contains(key) <==> two.contains(key) by {
        if key.len() >= 1 {
            assert(key.take(1)[0] == key[0]);
            assert(key.take(1) =~= seq![key[0]]);
            assert(seq![run_id][0] == run_id);
        }
    }
    assert(one =~= two);
}

proof fn lemma_task_keys(state: LedgerState, run_id: Seq<char>, status: Status)
    ensures
        status_count(state, seq![run_id], status) == task_keys(state, run_id, status).len(),
{
    let one = keys_where(state.tasks, with_status(state, seq![run_id], status));
    let two = task_keys(state, run_id, status);
    assert forall|key: Seq<Seq<char>>| one.contains(key) <==> two.contains(key) by {
        if key.len() >= 1 {
            assert(key.take(1)[0] == key[0]);
            assert(key.take(1) =~= seq![key[0]]);
            assert(seq![run_id][0] == run_id);
        }
    }
    assert(one =~= two);
}

proof fn lemma_failure_places(failures: Seq<FailureState>, run_id: Seq<char>, class: FailureClass)
    ensures
        failure_places(failures, run_id, class).finite(),
        failure_places(failures, run_id, class).len() == class_count(failures, run_id, class),
    decreases failures.len(),
{
    let places = failure_places(failures, run_id, class);
    if failures.len() == 0 {
        assert(places =~= Set::empty());
    } else {
        let fewer = failure_places(failures.drop_last(), run_id, class);
        lemma_failure_places(failures.drop_last(), run_id, class);
        let last = failures.len() - 1;
        if failures.last().run_id == run_id && failures.last().failure_class == class {
            assert(places =~= fewer.insert(last));
        } else {
            assert(places =~= fewer);
        }
    }
}

/// The list says of the name how many there are, and leaves it out where there is none.
pub open spec fn says_how_many(counts: Seq<(Seq<char>, u32)>, name: Seq<char>, n: nat) -> bool {
    &&& n > 0 ==> counts.contains((name, n as u32))
    &&& forall|k: int|
        0 <= k < counts.len() && (#[trigger] counts[k]).0 == name ==> n > 0 && counts[k].1 == n
}

proof fn lemma_says_how_many(counts: Seq<(Seq<char>, nat)>, i: int)
    requires
        by_name(counts),
        forall|j: int| 0 <= j < counts.len() ==> (#[trigger] counts[j]).1 <= u32::MAX,
        0 <= i < counts.len(),
    ensures
        says_how_many(occurring(counts), counts[i].0, counts[i].1),
{
    counts_list_what_occurs(counts);
    let list = occurring(counts);
    let name = counts[i].0;
    assert forall|k: int| 0 <= k < list.len() && (#[trigger] list[k]).0 == name implies counts[i].1
        > 0 && list[k].1 == counts[i].1 by {
        let j = choose|j: int|
            #![trigger counts[j]]
            0 <= j < counts.len() && counts[j].1 > 0 && list[k] == (
                counts[j].0,
                counts[j].1 as u32,
            );
        crate::text::lemma_text_before_irreflexive(name);
        if i < j {
            assert(text_before(counts[i].0, counts[j].0));
        } else if j < i {
            assert(text_before(counts[j].0, counts[i].0));
        }
    }
}

/// The numbers of a run are how many steps and how many tasks that count have each status, and how
/// many failures are of each class, under their names and in their order; what there is none of is
/// left out.
pub proof fn numbers_say_how_many(
    state: LedgerState,
    run_id: Seq<char>,
    status: Status,
    class: FailureClass,
)
    requires
        countable(state, run_id),
    ensures
        says_how_many(
            step_numbers(state, run_id),
            status_name(status),
            step_keys(state, run_id, status).len(),
        ),
        says_how_many(
            task_numbers(state, run_id),
            status_name(status),
            task_keys(state, run_id, status).len(),
        ),
        says_how_many(
            failure_numbers(state, run_id),
            class_name(class),
            failure_places(state.failures, run_id, class).len(),
        ),
        by_name(step_numbers(state, run_id)),
        by_name(task_numbers(state, run_id)),
        by_name(failure_numbers(state, run_id)),
{
    let statuses = statuses_by_name();
    let classes = classes_by_name();
    let steps = Seq::new(
        5,
        |i: int|
            (
                status_name(statuses[i]),
                keys_where(state.steps, steps_with(run_id, statuses[i])).len(),
            ),
    );
    let tasks = Seq::new(
        5,
        |i: int| (status_name(statuses[i]), status_count(state, seq![run_id], statuses[i])),
    );
    let failures = Seq::new(
        5,
        |i: int| (class_name(classes[i]), class_count(state.failures, run_id, classes[i])),
    );
    assert(step_numbers(state, run_id) == occurring(steps)) by {
        assert(steps =~= Seq::new(
            5,
            |i: int|
                (
                    status_name(statuses_by_name()[i]),
                    keys_where(state.steps, steps_with(run_id, statuses_by_name()[i])).len(),
                ),
        ));
    }
    assert(task_numbers(state, run_id) == occurring(tasks)) by {
        assert(tasks =~= Seq::new(
            5,
            |i: int|
                (
                    status_name(statuses_by_name()[i]),
                    status_count(state, seq![run_id], statuses_by_name()[i]),
                ),
        ));
    }
    assert(failure_numbers(state, run_id) == occurring(failures)) by {
        assert(failures =~= Seq::new(
            5,
            |i: int|
                (
                    class_name(classes_by_name()[i]),
                    class_count(state.failures, run_id, classes_by_name()[i]),
                ),
        ));
    }
    assert forall|i: int, j: int| 0 <= i < j < 5 implies text_before(
        (#[trigger] steps[i]).0,
        (#[trigger] steps[j]).0,
    ) && text_before(tasks[i].0, tasks[j].0) && text_before(failures[i].0, failures[j].0) by {
        names_are_in_order(i, j);
    }
    assert(by_name(tasks)) by {
        assert forall|i: int, j: int|
            #![trigger tasks[i], tasks[j]]
            0 <= i < j < 5 implies text_before(tasks[i].0, tasks[j].0) by {
            assert(text_before(steps[i].0, steps[j].0));
        }
    }
    assert(by_name(failures)) by {
        assert forall|i: int, j: int|
            #![trigger failures[i], failures[j]]
            0 <= i < j < 5 implies text_before(failures[i].0, failures[j].0) by {
            assert(text_before(steps[i].0, steps[j].0));
        }
    }
    assert forall|i: int| 0 <= i < 5 implies (#[trigger] steps[i]).1 <= u32::MAX by {
        assert(steps_in(state, run_id, statuses[i]) <= u32::MAX);
    }
    assert forall|i: int| 0 <= i < 5 implies (#[trigger] tasks[i]).1 <= u32::MAX by {
        assert(tasks_in(state, run_id, statuses[i]) <= u32::MAX);
    }
    assert forall|i: int| 0 <= i < 5 implies (#[trigger] failures[i]).1 <= u32::MAX by {
        assert(class_count(state.failures, run_id, classes[i]) <= u32::MAX);
    }
    let i: int = match status {
        Status::Failed => 0,
        Status::Pending => 1,
        Status::Running => 2,
        Status::Succeeded => 3,
        Status::Terminal => 4,
    };
    assert(statuses[i] == status);
    let j: int = match class {
        FailureClass::ArtifactError => 0,
        FailureClass::DurableHarnessError => 1,
        FailureClass::EvalException => 2,
        FailureClass::ResourceUnavailable => 3,
        FailureClass::Transient => 4,
    };
    assert(classes[j] == class);
    lemma_says_how_many(steps, i);
    lemma_says_how_many(tasks, i);
    lemma_says_how_many(failures, j);
    counts_list_what_occurs(steps);
    counts_list_what_occurs(tasks);
    counts_list_what_occurs(failures);
    lemma_step_keys(state, run_id, status);
    lemma_task_keys(state, run_id, status);
    lemma_failure_places(state.failures, run_id, class);
}

/// A list of counts names nothing but statuses, or nothing but classes.
pub proof fn numbers_name_what_is_counted(state: LedgerState, run_id: Seq<char>, k: int)
    requires
        countable(state, run_id),
    ensures
        0 <= k < step_numbers(state, run_id).len() ==> exists|status: Status| #[trigger]
            status_name(status) == step_numbers(state, run_id)[k].0,
        0 <= k < task_numbers(state, run_id).len() ==> exists|status: Status| #[trigger]
            status_name(status) == task_numbers(state, run_id)[k].0,
        0 <= k < failure_numbers(state, run_id).len() ==> exists|class: FailureClass| #[trigger]
            class_name(class) == failure_numbers(state, run_id)[k].0,
{
    let steps = Seq::new(
        5,
        |i: int|
            (
                status_name(statuses_by_name()[i]),
                keys_where(state.steps, steps_with(run_id, statuses_by_name()[i])).len(),
            ),
    );
    let tasks = Seq::new(
        5,
        |i: int|
            (
                status_name(statuses_by_name()[i]),
                status_count(state, seq![run_id], statuses_by_name()[i]),
            ),
    );
    let failures = Seq::new(
        5,
        |i: int|
            (
                class_name(classes_by_name()[i]),
                class_count(state.failures, run_id, classes_by_name()[i]),
            ),
    );
    lemma_occurring_names(steps, k);
    lemma_occurring_names(tasks, k);
    lemma_occurring_names(failures, k);
}

proof fn lemma_occurring_names(counts: Seq<(Seq<char>, nat)>, k: int)
    ensures
        0 <= k < occurring(counts).len() ==> exists|i: int|
            0 <= i < counts.len() && (#[trigger] counts[i]).0 == occurring(counts)[k].0,
    decreases counts.len(),
{
    if counts.len() > 0 && 0 <= k < occurring(counts).len() {
        let fewer = counts.drop_last();
        if k < occurring(fewer).len() {
            lemma_occurring_names(fewer, k);
            let i = choose|i: int|
                0 <= i < fewer.len() && (#[trigger] fewer[i]).0 == occurring(fewer)[k].0;
            assert(counts[i].0 == occurring(counts)[k].0);
        } else {
            assert(counts[counts.len() - 1].0 == occurring(counts)[k].0);
        }
    }
}

} // verus!
