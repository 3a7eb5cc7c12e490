//! What is written of runs, memos, variants, workers, decisions and trace events, whatever they say.
use vstd::prelude::*;

use crate::digest::sha256_digest;
use crate::error::Fault;
use crate::json::{json_reading, list_text};
use crate::laws::claims::all_others_stay;
use crate::ledger::{memo_read, memo_written, run_registered, LedgerState};
use crate::registry::{name_twice, review_kept, variants_replaced, worker_registered};
use crate::rows::TraceState;
use crate::time::{datetime_text, Moment};
use crate::traces::{highest_index, trace_added};
use crate::types::{MemoReply, ReviewRequest, TraceEventState, TraceRecordState, VariantInputState};

verus! {

/// A registered run has the name and the configuration of its latest registration, that
/// configuration's digest, and the times of its first and its latest; nothing else changes.
pub proof fn runs_are_as_registered(
    state: LedgerState,
    run_id: Seq<char>,
    name: Option<Seq<char>>,
    config: Seq<char>,
    now: Moment,
)
    ensures
        ({
            let after = run_registered(state, run_id, name, config, now);
            let key = seq![run_id];
            let run = after.runs[key];
            let bytes = sha256_digest(vstd::utf8::encode_utf8(config));
            &&& after == (LedgerState { runs: after.runs, ..state })
            &&& all_others_stay(state.runs, after.runs, key)
            &&& after.runs.contains_key(key)
            &&& run.name == name
            &&& run.config_json == config
            &&& crate::laws::values::spells(run.config_digest, bytes)
            &&& run.updated_at == datetime_text(now.secs)
            &&& state.runs.contains_key(key) ==> run.created_at == state.runs[key].created_at
            &&& !state.runs.contains_key(key) ==> run.created_at == datetime_text(now.secs)
        }),
{
    crate::laws::values::hex_spells_the_bytes(
        sha256_digest(vstd::utf8::encode_utf8(config)),
    );
}

/// A memo has the key and the value of its latest writing, and the time of its first; nothing else
/// changes.
pub proof fn memos_are_as_written(
    state: LedgerState,
    run_id: Seq<char>,
    key_digest: Seq<char>,
    key: Seq<char>,
    value: Seq<char>,
    now: Moment,
)
    ensures
        ({
            let after = memo_written(state, run_id, key_digest, key, value, now);
            let at = seq![run_id, key_digest];
            let memo = after.memos[at];
            &&& after == (LedgerState { memos: after.memos, ..state })
            &&& all_others_stay(state.memos, after.memos, at)
            &&& after.memos.contains_key(at)
            &&& memo.key_json == key
            &&& memo.value_json == value
            &&& state.memos.contains_key(at) ==> memo.created_at == state.memos[at].created_at
            &&& !state.memos.contains_key(at) ==> memo.created_at == datetime_text(now.secs)
        }),
{
}

/// A memo is found exactly if it was written; what is told of it is the value that its stored text
/// reads as, or the fault of the column where that cannot be read.
pub proof fn written_memos_are_found(
    state: LedgerState,
    run_id: Seq<char>,
    key_digest: Seq<char>,
)
    ensures
        ({
            let at = seq![run_id, key_digest];
            let reply = memo_read(state, run_id, key_digest);
            &&& !state.memos.contains_key(at) ==> reply == Ok::<MemoReply, Fault>(
                MemoReply { found: false, value: None },
            )
            &&& state.memos.contains_key(at) ==> match json_reading(state.memos[at].value_json) {
                Ok(value) => reply == Ok::<MemoReply, Fault>(
                    MemoReply { found: true, value: Some(value) },
                ),
                Err(message) => reply == Err::<MemoReply, Fault>(
                    Fault::Sqlite("Conversion error from type Text at index: 0, "@ + message),
                ),
            }
        }),
{
}

/// A registration of variants is refused exactly if two of them have the same name.
pub proof fn only_repeated_names_are_refused(inputs: Seq<VariantInputState>)
    ensures
        !name_twice(inputs) <==> Seq::new(inputs.len(), |i: int| inputs[i].name).no_duplicates(),
{
    let names = Seq::new(inputs.len(), |i: int| inputs[i].name);
    if !name_twice(inputs) {
        assert forall|i: int, j: int| 0 <= i < names.len() && 0 <= j < names.len() && i != j implies
            names[i] != names[j] by {
            if i < j {
                assert(inputs[i].name != inputs[j].name);
            } else {
                assert(inputs[j].name != inputs[i].name);
            }
        }
    }
    if name_twice(inputs) {
        let (i, j) = choose|i: int, j: int|
            0 <= i < j < inputs.len() && (#[trigger] inputs[i]).name == (#[trigger] inputs[j]).name;
        assert(names[i] == names[j]);
    }
}

/// A registration of variants changes nothing but variants.
pub proof fn variants_concern_nothing_else(
    state: LedgerState,
    run_id: Seq<char>,
    dimension: Seq<char>,
    inputs: Seq<VariantInputState>,
)
    ensures
        ({
            let after = variants_replaced(state, run_id, dimension, inputs);
            after == (LedgerState { variants: after.variants, ..state })
        }),
{
}

/// A worker is known as it says, and as heard of then; no other worker and nothing else changes.
pub proof fn workers_are_as_they_say(
    state: LedgerState,
    worker_id: Seq<char>,
    hostname: Option<Seq<char>>,
    process_id: Option<u32>,
    resources: Seq<char>,
    now: Moment,
)
    ensures
        ({
            let after = worker_registered(
                state,
                worker_id,
                hostname,
                process_id,
                resources,
                now,
            );
            let key = seq![worker_id];
            &&& after == (LedgerState { workers: after.workers, ..state })
            &&& all_others_stay(state.workers, after.workers, key)
            &&& after.workers.contains_key(key)
            &&& after.workers[key].hostname == hostname
            &&& after.workers[key].process_id == process_id
            &&& after.workers[key].resources_json == resources
            &&& after.workers[key].heartbeat_at == datetime_text(now.secs)
        }),
{
}

/// A decision is kept as it was taken, on which task, by whom and with which note, and when.
pub proof fn decisions_are_as_taken(req: ReviewRequest, now: Moment)
    ensures
        ({
            let kept = review_kept(req, now);
            &&& kept.run_id == req.run_id@
            &&& kept.kind == req.kind@
            &&& kept.task_id == req.task_id@
            &&& kept.reviewer == req.reviewer@
            &&& kept.decision == req.decision
            &&& kept.note is Some <==> req.note is Some
            &&& req.note matches Some(note) ==> kept.note == Some(note@)
            &&& kept.timestamp == datetime_text(now.secs)
        }),
{
}

/// No event of an attempt has a higher number than the highest, and where there is an event at all
/// one of them has it.
pub proof fn the_highest_number_is_the_highest(
    traces: Seq<TraceState>,
    run_id: Seq<char>,
    kind: Seq<char>,
    task_id: Seq<char>,
    attempt: u32,
)
    ensures
        ({
            let highest = highest_index(traces, run_id, kind, task_id, attempt);
            &&& forall|i: int|
                0 <= i < traces.len() && (#[trigger] traces[i]).run_id == run_id && traces[i].kind
                    == kind && traces[i].task_id == task_id && traces[i].attempt == attempt
                    ==> traces[i].event_index <= highest
            &&& highest > 0 ==> exists|i: int|
                0 <= i < traces.len() && (#[trigger] traces[i]).run_id == run_id && traces[i].kind
                    == kind && traces[i].task_id == task_id && traces[i].attempt == attempt
                    && traces[i].event_index == highest
        }),
    decreases traces.len(),
{
    if traces.len() > 0 {
        let fewer = traces.drop_last();
        the_highest_number_is_the_highest(fewer, run_id, kind, task_id, attempt);
        let highest = highest_index(traces, run_id, kind, task_id, attempt);
        let before = highest_index(fewer, run_id, kind, task_id, attempt);
        assert forall|i: int|
            0 <= i < traces.len() && (#[trigger] traces[i]).run_id == run_id && traces[i].kind
                == kind && traces[i].task_id == task_id && traces[i].attempt
                == attempt implies traces[i].event_index <= highest by {
            if i < fewer.len() {
                assert(fewer[i] == traces[i]);
            }
        }
        if highest > 0 {
            if highest == before {
                let i = choose|i: int|
                    0 <= i < fewer.len() && (#[trigger] fewer[i]).run_id == run_id && fewer[i].kind
                        == kind && fewer[i].task_id == task_id && fewer[i].attempt == attempt
                        && fewer[i].event_index == before;
                assert(traces[i] == fewer[i]);
            } else {
                assert(traces[traces.len() - 1] == traces.last());
            }
        }
    }
}

/// An event that is added is kept at the end as it was given, with the time, the next id, and the
/// number after the highest of its attempt; it is told as it was given. Where one of the numbers has
/// run out it is refused, and nothing changes.
pub proof fn events_are_as_given(state: LedgerState, event: TraceEventState, now: Moment)
    ensures
        ({
            let highest = highest_index(
                state.traces,
                event.run_id,
                event.kind,
                event.task_id,
                event.attempt,
            );
            let (after, told) = trace_added(state, event, now);
            let kept = after.traces.last();
            &&& highest >= u32::MAX ==> (after, told) == (
                state,
                Err::<TraceRecordState, Fault>(
                    Fault::Sqlite("Integer 4294967296 out of range at index 0"@),
                ),
            )
            &&& highest < u32::MAX && state.last_trace_id == i64::MAX ==> (after, told) == (
                state,
                Err::<TraceRecordState, Fault>(Fault::Sqlite("database or disk is full"@)),
            )
            &&& highest < u32::MAX && state.last_trace_id < i64::MAX ==> {
                &&& after == (LedgerState {
                    traces: after.traces,
                    last_trace_id: after.last_trace_id,
                    ..state
                })
                &&& after.traces.len() == state.traces.len() + 1
                &&& after.traces.drop_last() == state.traces
                &&& after.last_trace_id == state.last_trace_id + 1
                &&& kept.id == state.last_trace_id + 1
                &&& kept.event_index == highest + 1
                &&& kept.run_id == event.run_id
                &&& kept.kind == event.kind
                &&& kept.task_id == event.task_id
                &&& kept.attempt == event.attempt
                &&& kept.event_type == event.event_type
                &&& kept.payload_json == event.payload
                &&& kept.artifact_ids_json == list_text(event.artifact_ids)
                &&& kept.created_at == datetime_text(now.secs)
                &&& told matches Ok(record) && {
                    &&& record.id == kept.id
                    &&& record.event_index == kept.event_index
                    &&& record.run_id == event.run_id
                    &&& record.kind == event.kind
                    &&& record.task_id == event.task_id
                    &&& record.attempt == event.attempt
                    &&& record.event_type == event.event_type
                    &&& record.payload == event.payload
                    &&& record.artifact_ids == event.artifact_ids
                    &&& record.created_at == kept.created_at
                }
            }
        }),
{
    let after = trace_added(state, event, now).0;
    if after.traces.len() > 0 {
        assert(state.traces.push(after.traces.last()).drop_last() =~= state.traces);
    }
}

} // verus!
