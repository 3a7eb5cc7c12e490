//! Runs, memos, variants and traces over several requests.
use vstd::prelude::*;

use crate::error::Fault;
use crate::history::{after_all, changed, events_of, numbered, orderly, Change};
use crate::json::{list_reads_back, reads_back};
use crate::ledger::{empty_ledger, memo_read, memo_written, run_registered, LedgerState};
use crate::order::is_log_listing;
use crate::registry::{name_twice, variants_added, variants_replaced};
use crate::rows::{trace_precedes, TraceRow, TraceState, VariantState};
use crate::table::{under, without};
use crate::time::Moment;
use crate::traces::{
    lists_traces, of_attempt, trace_added, trace_told, traces_told, wanted_traces,
};
use crate::types::{MemoReply, TraceEventState, TraceRecordState, VariantInputState};

verus! {

/// A memo is read as it was written, as long as what was written reads back.
pub proof fn memo_reads_what_was_written(
    state: LedgerState,
    run_id: Seq<char>,
    key_digest: Seq<char>,
    key: Seq<char>,
    value: Seq<char>,
    now: Moment,
)
    requires
        reads_back(value),
    ensures
        memo_read(memo_written(state, run_id, key_digest, key, value, now), run_id, key_digest)
            == Ok::<MemoReply, Fault>(MemoReply { found: true, value: Some(value) }),
{
}

/// Writing a memo changes what is read of no other memo, of the same run or another.
pub proof fn memos_do_not_mix(
    state: LedgerState,
    run_id: Seq<char>,
    key_digest: Seq<char>,
    key: Seq<char>,
    value: Seq<char>,
    now: Moment,
    other_run: Seq<char>,
    other_digest: Seq<char>,
)
    requires
        other_run != run_id || other_digest != key_digest,
    ensures
        memo_read(
            memo_written(state, run_id, key_digest, key, value, now),
            other_run,
            other_digest,
        ) == memo_read(state, other_run, other_digest),
{
    let one = seq![run_id, key_digest];
    let two = seq![other_run, other_digest];
    assert(one[0] == run_id && one[1] == key_digest);
    assert(two[0] == other_run && two[1] == other_digest);
    assert(one != two);
}

/// A memo that was never written is not found.
pub proof fn unwritten_memo_is_not_found(
    state: LedgerState,
    run_id: Seq<char>,
    key_digest: Seq<char>,
)
    requires
        !state.memos.contains_key(seq![run_id, key_digest]),
    ensures
        memo_read(state, run_id, key_digest) == Ok::<MemoReply, Fault>(
            MemoReply { found: false, value: None },
        ),
{
}

/// The value that the change writes as that memo, if it writes it.
pub open spec fn put_as(change: Change, run_id: Seq<char>, key_digest: Seq<char>) -> Option<
    Seq<char>,
> {
    match change {
        Change::PutMemo { run_id: run, key_digest: digest, value, .. } if run == run_id && digest
            == key_digest => Some(value),
        _ => None,
    }
}

/// The value that the changes write last as that memo, if they write it at all.
pub open spec fn latest_put(
    changes: Seq<Change>,
    run_id: Seq<char>,
    key_digest: Seq<char>,
) -> Option<Seq<char>>
    decreases changes.len(),
{
    if changes.len() == 0 {
        None
    } else {
        match put_as(changes.last(), run_id, key_digest) {
            Some(value) => Some(value),
            None => latest_put(changes.drop_last(), run_id, key_digest),
        }
    }
}

/// What is stored of a memo, if anything.
spec fn memo_stored(state: LedgerState, run_id: Seq<char>, key_digest: Seq<char>) -> Option<
    Seq<char>,
> {
    if state.memos.contains_key(seq![run_id, key_digest]) {
        Some(state.memos[seq![run_id, key_digest]].value_json)
    } else {
        None
    }
}

/// A memo changes where it is written, and nowhere else.
#[verifier::rlimit(60)]
proof fn lemma_memo_after(
    state: LedgerState,
    change: Change,
    run_id: Seq<char>,
    key_digest: Seq<char>,
)
    ensures
        memo_stored(changed(state, change), run_id, key_digest) == match put_as(
            change,
            run_id,
            key_digest,
        ) {
            Some(value) => Some(value),
            None => memo_stored(state, run_id, key_digest),
        },
{
    if let Change::PutMemo { run_id: run, key_digest: digest, .. } = change {
        let one = seq![run, digest];
        let two = seq![run_id, key_digest];
        assert(one[0] == run && one[1] == digest);
        assert(two[0] == run_id && two[1] == key_digest);
    }
}

proof fn lemma_memo_after_all(changes: Seq<Change>, run_id: Seq<char>, key_digest: Seq<char>)
    ensures
        memo_stored(after_all(empty_ledger(), changes), run_id, key_digest) == latest_put(
            changes,
            run_id,
            key_digest,
        ),
    decreases changes.len(),
{
    if changes.len() > 0 {
        let fewer = changes.drop_last();
        lemma_memo_after_all(fewer, run_id, key_digest);
        lemma_memo_after(after_all(empty_ledger(), fewer), changes.last(), run_id, key_digest);
    }
}

/// Over any history a memo is read as it was last written, as long as what was written reads back,
/// and is not found if it was never written.
pub proof fn latest_memo_is_read(changes: Seq<Change>, run_id: Seq<char>, key_digest: Seq<char>)
    ensures
        ({
            let reply = memo_read(after_all(empty_ledger(), changes), run_id, key_digest);
            match latest_put(changes, run_id, key_digest) {
                Some(value) => reads_back(value) ==> reply == Ok::<MemoReply, Fault>(
                    MemoReply { found: true, value: Some(value) },
                ),
                None => reply == Ok::<MemoReply, Fault>(MemoReply { found: false, value: None }),
            }
        }),
{
    lemma_memo_after_all(changes, run_id, key_digest);
}

/// Registering a run again keeps when it was first registered and takes its new name and
/// configuration.
pub proof fn run_keeps_its_start(
    state: LedgerState,
    run_id: Seq<char>,
    name: Option<Seq<char>>,
    config: Seq<char>,
    again: Option<Seq<char>>,
    changed: Seq<char>,
    now: Moment,
    later: Moment,
)
    ensures
        ({
            let once = run_registered(state, run_id, name, config, now);
            let twice = run_registered(once, run_id, again, changed, later);
            let key = seq![run_id];
            &&& twice.runs[key].created_at == once.runs[key].created_at
            &&& twice.runs[key].name == again
            &&& twice.runs[key].config_json == changed
        }),
{
}

/// Variants that were added are found under their names, and nothing else changes.
proof fn lemma_variants_added(
    variants: Map<Seq<Seq<char>>, VariantState>,
    run_id: Seq<char>,
    dimension: Seq<char>,
    inputs: Seq<VariantInputState>,
    key: Seq<Seq<char>>,
)
    requires
        !name_twice(inputs),
    ensures
        ({
            let after = variants_added(variants, run_id, dimension, inputs);
            &&& forall|i: int|
                0 <= i < inputs.len() && key == seq![
                    run_id,
                    dimension,
                    (#[trigger] inputs[i]).name,
                ] ==> after.contains_key(key) && after[key] == (VariantState {
                    config_json: inputs[i].config,
                    digest: inputs[i].digest,
                })
            &&& (forall|i: int|
                0 <= i < inputs.len() ==> key != seq![
                    run_id,
                    dimension,
                    (#[trigger] inputs[i]).name,
                ]) ==> after.contains_key(key) == variants.contains_key(key) && (variants.contains_key(
                key,
            ) ==> after[key] == variants[key])
        }),
    decreases inputs.len(),
{
    if inputs.len() > 0 {
        let fewer = inputs.drop_last();
        let last = inputs.last();
        assert(!name_twice(fewer)) by {
            if name_twice(fewer) {
                let (i, j) = choose|i: int, j: int|
                    0 <= i < j < fewer.len() && (#[trigger] fewer[i]).name == (
                    #[trigger] fewer[j]).name;
                assert(inputs[i].name == inputs[j].name);
            }
        }
        lemma_variants_added(variants, run_id, dimension, fewer, key);
        let added = seq![run_id, dimension, last.name];
        assert forall|i: int|
            0 <= i < inputs.len() && key == seq![run_id, dimension, (#[trigger] inputs[i]).name]
                && key == added implies i == inputs.len() - 1 by {
            assert(key[2] == inputs[i].name);
            assert(key[2] == inputs[inputs.len() - 1].name);
            if i < inputs.len() - 1 {
                assert(inputs[i].name == inputs[inputs.len() - 1].name);
            }
        }
        let after = variants_added(variants, run_id, dimension, inputs);
        assert forall|i: int|
            0 <= i < inputs.len() && key == seq![
                run_id,
                dimension,
                (#[trigger] inputs[i]).name,
            ] implies after.contains_key(key) && after[key] == (VariantState {
            config_json: inputs[i].config,
            digest: inputs[i].digest,
        }) by {
            if i < inputs.len() - 1 {
                assert(fewer[i] == inputs[i]);
                assert(key != added);
            }
        }
        if forall|i: int|
            0 <= i < inputs.len() ==> key != seq![run_id, dimension, (#[trigger] inputs[i]).name] {
            assert(inputs[inputs.len() - 1] == last);
            assert forall|i: int| 0 <= i < fewer.len() implies key != seq![
                run_id,
                dimension,
                (#[trigger] fewer[i]).name,
            ] by {
                assert(inputs[i] == fewer[i]);
            }
        }
    }
}

/// A registration of variants replaces those of its run and dimension, and no others: each variant
/// of the registration is there as it was given, no other of the dimension is, and those of other
/// dimensions and runs stay.
pub proof fn variants_of_a_dimension_are_replaced(
    state: LedgerState,
    run_id: Seq<char>,
    dimension: Seq<char>,
    inputs: Seq<VariantInputState>,
    key: Seq<Seq<char>>,
)
    requires
        !name_twice(inputs),
    ensures
        ({
            let after = variants_replaced(state, run_id, dimension, inputs).variants;
            &&& forall|i: int|
                0 <= i < inputs.len() && key == seq![
                    run_id,
                    dimension,
                    (#[trigger] inputs[i]).name,
                ] ==> after.contains_key(key) && after[key] == (VariantState {
                    config_json: inputs[i].config,
                    digest: inputs[i].digest,
                })
            &&& under(seq![run_id, dimension], key) && after.contains_key(key) ==> exists|i: int|
                0 <= i < inputs.len() && key == seq![run_id, dimension, (#[trigger] inputs[i]).name]
            &&& !under(seq![run_id, dimension], key) ==> after.contains_key(key)
                == state.variants.contains_key(key) && (after.contains_key(key) ==> after[key]
                == state.variants[key])
        }),
{
    let prefix = seq![run_id, dimension];
    lemma_variants_added(without(state.variants, prefix), run_id, dimension, inputs, key);
    if !under(prefix, key) {
        assert forall|i: int| 0 <= i < inputs.len() implies key != seq![
            run_id,
            dimension,
            (#[trigger] inputs[i]).name,
        ] by {
            let made = seq![run_id, dimension, inputs[i].name];
            assert(made.take(2) =~= prefix);
        }
    }
}

/// Of two events of an attempt, the one that came later has the higher number.
pub proof fn later_events_have_higher_numbers(state: LedgerState, i: int, j: int)
    requires
        orderly(state),
        0 <= i < j < state.traces.len(),
        of_attempt(
            state.traces[j],
            state.traces[i].run_id,
            state.traces[i].kind,
            state.traces[i].task_id,
            state.traces[i].attempt,
        ),
    ensures
        state.traces[i].event_index < state.traces[j].event_index,
        state.traces[i].id < state.traces[j].id,
{
    let trace = state.traces[i];
    assert(numbered(state.traces, i));
    assert(numbered(state.traces, j));
    lemma_events_grow(
        state.traces,
        i,
        j,
        trace.run_id,
        trace.kind,
        trace.task_id,
        trace.attempt,
    );
}

/// Among the first `j` events there are at least as many of an attempt as among the first `i`, and
/// more if the one at `i` is one of them.
proof fn lemma_events_grow(
    traces: Seq<TraceState>,
    i: int,
    j: int,
    run_id: Seq<char>,
    kind: Seq<char>,
    task_id: Seq<char>,
    attempt: u32,
)
    requires
        0 <= i < j <= traces.len(),
        of_attempt(traces[i], run_id, kind, task_id, attempt),
    ensures
        events_of(traces.take(i), run_id, kind, task_id, attempt) < events_of(
            traces.take(j),
            run_id,
            kind,
            task_id,
            attempt,
        ),
    decreases j - i,
{
    assert(traces.take(j).drop_last() =~= traces.take(j - 1));
    assert(traces.take(j).last() == traces[j - 1]);
    if j > i + 1 {
        lemma_events_grow(traces, i, j - 1, run_id, kind, task_id, attempt);
    }
}

/// An event that is added gets the number after the last of its attempt: the first event of an
/// attempt is number one, and no number is left out.
pub proof fn events_are_numbered_without_gaps(
    state: LedgerState,
    event: TraceEventState,
    now: Moment,
)
    requires
        orderly(state),
    ensures
        trace_added(state, event, now).1 matches Ok(record) ==> record.event_index == events_of(
            state.traces,
            event.run_id,
            event.kind,
            event.task_id,
            event.attempt,
        ) + 1,
{
    let after = trace_added(state, event, now).0;
    crate::history::every_change_keeps_order(
        state,
        crate::history::Change::AddTraceEvent { event, now },
    );
    if trace_added(state, event, now).1 is Ok {
        assert(numbered(after.traces, state.traces.len() as int));
        assert(after.traces.take(state.traces.len() as int) =~= state.traces);
    }
}

/// An event that was added is listed as it was told when it was added, as long as what was written
/// as its payload and its artifacts reads back.
pub proof fn added_event_is_listed(
    state: LedgerState,
    event: TraceEventState,
    now: Moment,
    wanted: spec_fn(TraceState) -> bool,
    picks: Seq<int>,
)
    requires
        trace_added(state, event, now).1 is Ok,
        reads_back(event.payload),
        list_reads_back(event.artifact_ids),
        wanted(trace_added(state, event, now).0.traces.last()),
        is_log_listing::<TraceRow>(trace_added(state, event, now).0.traces, wanted, picks),
    ensures
        ({
            let after = trace_added(state, event, now).0;
            &&& picks.contains(after.traces.len() - 1)
            &&& trace_told(after.traces.last()) == trace_added(state, event, now).1
        }),
{
    let after = trace_added(state, event, now).0;
    assert(wanted(after.traces[after.traces.len() - 1]));
}

/// A query that names nothing but the run asks for every event of the run, and for no other.
pub proof fn bare_query_asks_for_every_event(run_id: Seq<char>, trace: TraceState)
    ensures
        wanted_traces(run_id, None, None, None, Seq::empty())(trace) <==> trace.run_id == run_id,
{
}

/// Events that are told one by one are told in their places.
proof fn lemma_traces_told(traces: Seq<TraceState>, picks: Seq<int>)
    ensures
        traces_told(traces, picks) matches Ok(records) ==> {
            &&& records.len() == picks.len()
            &&& forall|a: int|
                0 <= a < picks.len() ==> trace_told(traces[#[trigger] picks[a]]) == Ok::<
                    TraceRecordState,
                    Fault,
                >(records[a])
        },
        (forall|a: int| 0 <= a < picks.len() ==> trace_told(traces[#[trigger] picks[a]]) is Ok)
            ==> traces_told(traces, picks) is Ok,
    decreases picks.len(),
{
    if picks.len() > 0 {
        let fewer = picks.drop_last();
        lemma_traces_told(traces, fewer);
        if forall|a: int| 0 <= a < picks.len() ==> trace_told(traces[#[trigger] picks[a]]) is Ok {
            assert forall|a: int| 0 <= a < fewer.len() implies trace_told(
                traces[#[trigger] fewer[a]],
            ) is Ok by {
                assert(trace_told(traces[picks[a]]) is Ok);
            }
            assert(trace_told(traces[picks[picks.len() - 1]]) is Ok);
        }
        if let Ok(records) = traces_told(traces, picks) {
            assert forall|a: int| 0 <= a < picks.len() implies trace_told(
                traces[#[trigger] picks[a]],
            ) == Ok::<TraceRecordState, Fault>(records[a]) by {
                if a < fewer.len() {
                    assert(picks[a] == fewer[a]);
                }
            }
        }
    }
}

/// The first record is of an earlier attempt than the second, or of an earlier event of the same.
pub open spec fn told_earlier(one: TraceRecordState, two: TraceRecordState) -> bool {
    one.attempt < two.attempt || (one.attempt == two.attempt && one.event_index < two.event_index)
}

/// The trace of a task is listed in strictly ascending order of attempt and number, and each event
/// that is asked for stands in it once. It can be listed if each of those events can be told.
pub proof fn trace_of_a_task_ascends(
    state: LedgerState,
    run_id: Seq<char>,
    kind: Seq<char>,
    task_id: Seq<char>,
    attempt: Option<u32>,
    event_types: Seq<Seq<char>>,
    list: Result<Seq<TraceRecordState>, Fault>,
)
    requires
        orderly(state),
        lists_traces(
            state.traces,
            wanted_traces(run_id, Some(kind), Some(task_id), attempt, event_types),
            list,
        ),
    ensures
        ({
            let wanted = wanted_traces(run_id, Some(kind), Some(task_id), attempt, event_types);
            &&& (forall|i: int|
                0 <= i < state.traces.len() && wanted(#[trigger] state.traces[i]) ==> trace_told(
                    state.traces[i],
                ) is Ok) ==> list is Ok
            &&& list matches Ok(records) ==> {
                &&& forall|a: int, b: int|
                    #![trigger records[a], records[b]]
                    0 <= a < b < records.len() ==> told_earlier(records[a], records[b])
                &&& forall|i: int|
                    0 <= i < state.traces.len() && wanted(#[trigger] state.traces[i]) ==> exists|
                        a: int,
                    |
                        0 <= a < records.len() && Ok::<TraceRecordState, Fault>(
                            #[trigger] records[a],
                        ) == trace_told(state.traces[i])
                &&& forall|a: int|
                    0 <= a < records.len() ==> exists|i: int|
                        0 <= i < state.traces.len() && wanted(#[trigger] state.traces[i])
                            && trace_told(state.traces[i]) == Ok::<TraceRecordState, Fault>(
                            #[trigger] records[a],
                        )
            }
        }),
{
    let wanted = wanted_traces(run_id, Some(kind), Some(task_id), attempt, event_types);
    let traces = state.traces;
    let picks = choose|picks: Seq<int>| #[trigger]
        is_log_listing::<TraceRow>(traces, wanted, picks) && list == traces_told(traces, picks);
    lemma_traces_told(traces, picks);
    if let Ok(records) = list {
        assert forall|a: int, b: int|
            #![trigger records[a], records[b]]
            0 <= a < b < records.len() implies told_earlier(records[a], records[b]) by {
            let one = traces[picks[a]];
            let two = traces[picks[b]];
            assert(trace_told(one) == Ok::<TraceRecordState, Fault>(records[a]));
            assert(trace_told(two) == Ok::<TraceRecordState, Fault>(records[b]));
            if !trace_precedes(one, two) {
                assert(wanted(one) && wanted(two));
                if one.attempt == two.attempt {
                    later_events_have_higher_numbers(state, picks[a], picks[b]);
                }
            }
        }
        assert forall|i: int| 0 <= i < traces.len() && wanted(#[trigger] traces[i]) implies exists|
            a: int,
        |
            0 <= a < records.len() && Ok::<TraceRecordState, Fault>(#[trigger] records[a])
                == trace_told(traces[i]) by {
            let a = choose|a: int| 0 <= a < picks.len() && picks[a] == i;
            assert(trace_told(traces[picks[a]]) == Ok::<TraceRecordState, Fault>(records[a]));
        }
        assert forall|a: int| 0 <= a < records.len() implies exists|i: int|
            0 <= i < traces.len() && wanted(#[trigger] traces[i]) && trace_told(traces[i]) == Ok::<
                TraceRecordState,
                Fault,
            >(#[trigger] records[a]) by {
            assert(trace_told(traces[picks[a]]) == Ok::<TraceRecordState, Fault>(records[a]));
            assert(wanted(traces[picks[a]]));
        }
    }
}

} // verus!
