//! Traces: the numbered events of a task's attempts.
use vstd::prelude::*;

use crate::error::{list_view, result_view, views, Error, Fault};
use crate::json::{
    list_json, list_reads_back, list_text, parse_list, parse_required, stored_list, stored_value,
};
use crate::ledger::{Ledger, LedgerState};
use crate::order::{as_places, is_log_listing, pick_logged, picks_rows};
use crate::rows::{TraceRow, TraceState};
use crate::text::{contains_text, opt_text, text_of, texts};
use crate::time::{datetime_text, timestamp, Moment};
use crate::types::{
    ListTraceEventsRequest, TraceEventRecord, TraceEventRequest, TraceEventState, TraceRecordState,
};

verus! {

/// The event is one of that attempt of that task.
pub open spec fn of_attempt(
    trace: TraceState,
    run_id: Seq<char>,
    kind: Seq<char>,
    task_id: Seq<char>,
    attempt: u32,
) -> bool {
    trace.run_id == run_id && trace.kind == kind && trace.task_id == task_id && trace.attempt
        == attempt
}

/// The highest number of an event of that attempt; zero if there is none.
pub open spec fn highest_index(
    traces: Seq<TraceState>,
    run_id: Seq<char>,
    kind: Seq<char>,
    task_id: Seq<char>,
    attempt: u32,
) -> nat
    decreases traces.len(),
{
    if traces.len() == 0 {
        0
    } else {
        let highest = highest_index(traces.drop_last(), run_id, kind, task_id, attempt);
        let last = traces.last();
        if of_attempt(last, run_id, kind, task_id, attempt) && last.event_index > highest {
            last.event_index as nat
        } else {
            highest
        }
    }
}

/// What the database says of a number of an event that no column holds.
pub open spec fn index_refusal() -> Fault {
    Fault::Sqlite("Integer 4294967296 out of range at index 0"@)
}

/// What the database says when there is no id left.
pub open spec fn id_refusal() -> Fault {
    Fault::Sqlite("database or disk is full"@)
}

/// The event as it is kept.
pub open spec fn trace_kept(
    event: TraceEventState,
    id: i64,
    event_index: u32,
    now: Moment,
) -> TraceState {
    TraceState {
        id,
        run_id: event.run_id,
        kind: event.kind,
        task_id: event.task_id,
        attempt: event.attempt,
        event_index,
        event_type: event.event_type,
        payload_json: event.payload,
        artifact_ids_json: list_text(event.artifact_ids),
        created_at: datetime_text(now.secs),
    }
}

/// The event as it is told with that payload and those artifacts.
pub open spec fn trace_with(
    trace: TraceState,
    payload: Seq<char>,
    artifact_ids: Seq<Seq<char>>,
) -> TraceRecordState {
    TraceRecordState {
        id: trace.id,
        run_id: trace.run_id,
        kind: trace.kind,
        task_id: trace.task_id,
        attempt: trace.attempt,
        event_index: trace.event_index,
        event_type: trace.event_type,
        payload,
        artifact_ids,
        created_at: trace.created_at,
    }
}

/// The event as it is told, if what is stored of it can be read.
pub open spec fn trace_told(trace: TraceState) -> Result<TraceRecordState, Fault> {
    match (stored_value(trace.payload_json), stored_list(trace.artifact_ids_json)) {
        (Err(fault), _) => Err(fault),
        (_, Err(fault)) => Err(fault),
        (Ok(payload), Ok(artifact_ids)) => Ok(trace_with(trace, payload, artifact_ids)),
    }
}

/// An event is added to the trace of a task: it gets the next number of its attempt, and the next
/// id of all.
pub open spec fn trace_added(state: LedgerState, event: TraceEventState, now: Moment) -> (
    LedgerState,
    Result<TraceRecordState, Fault>,
) {
    let index = highest_index(
        state.traces,
        event.run_id,
        event.kind,
        event.task_id,
        event.attempt,
    ) + 1;
    if index > u32::MAX {
        (state, Err(index_refusal()))
    } else if state.last_trace_id == i64::MAX {
        (state, Err(id_refusal()))
    } else {
        let id = (state.last_trace_id + 1) as i64;
        let trace = trace_kept(event, id, index as u32, now);
        (
            LedgerState { traces: state.traces.push(trace), last_trace_id: id, ..state },
            Ok(trace_with(trace, event.payload, event.artifact_ids)),
        )
    }
}

/// The events of a run that a query asks for; what it does not name passes.
pub open spec fn wanted_traces(
    run_id: Seq<char>,
    kind: Option<Seq<char>>,
    task_id: Option<Seq<char>>,
    attempt: Option<u32>,
    event_types: Seq<Seq<char>>,
) -> spec_fn(TraceState) -> bool {
    |trace: TraceState|
        {
            &&& trace.run_id == run_id
            &&& kind matches Some(named) ==> trace.kind == named
            &&& task_id matches Some(named) ==> trace.task_id == named
            &&& attempt matches Some(named) ==> trace.attempt == named
            &&& event_types.len() == 0 || event_types.contains(trace.event_type)
        }
}

/// The events as they are told, or the fault of the first one that cannot be.
pub open spec fn traces_told(traces: Seq<TraceState>, picks: Seq<int>) -> Result<
    Seq<TraceRecordState>,
    Fault,
>
    decreases picks.len(),
{
    if picks.len() == 0 {
        Ok(Seq::empty())
    } else {
        match traces_told(traces, picks.drop_last()) {
            Err(fault) => Err(fault),
            Ok(list) => match trace_told(traces[picks.last()]) {
                Err(fault) => Err(fault),
                Ok(record) => Ok(list.push(record)),
            },
        }
    }
}

/// The wanted events as they are told, by attempt and number.
pub open spec fn lists_traces(
    traces: Seq<TraceState>,
    wanted: spec_fn(TraceState) -> bool,
    list: Result<Seq<TraceRecordState>, Fault>,
) -> bool {
    exists|picks: Seq<int>|
        #[trigger] is_log_listing::<TraceRow>(traces, wanted, picks) && list == traces_told(
            traces,
            picks,
        )
}

impl TraceRow {
    /// The event as it is told.
    pub fn record(&self) -> (record: Result<TraceEventRecord, Error>)
        ensures
            result_view(record) == trace_told(self@),
    {
        let payload = match parse_required(self.payload_json.as_str()) {
            Ok(payload) => payload,
            Err(error) => {
                return Err(error);
            },
        };
        let artifact_ids = match parse_list(self.artifact_ids_json.as_str()) {
            Ok(artifact_ids) => artifact_ids,
            Err(error) => {
                return Err(error);
            },
        };
        Ok(
            TraceEventRecord {
                id: self.id,
                run_id: self.run_id.clone(),
                kind: self.kind.clone(),
                task_id: self.task_id.clone(),
                attempt: self.attempt,
                event_index: self.event_index,
                event_type: self.event_type.clone(),
                payload,
                artifact_ids,
                created_at: self.created_at.clone(),
            },
        )
    }

    fn is_wanted(&self, req: &ListTraceEventsRequest) -> (found: bool)
        ensures
            found == wanted_traces(
                req.run_id@,
                opt_text(req.kind),
                opt_text(req.task_id),
                req.attempt,
                texts(req.event_type@),
            )(self@),
    {
        if self.run_id != req.run_id {
            return false;
        }
        if let Some(kind) = &req.kind {
            if self.kind != *kind {
                return false;
            }
        }
        if let Some(task_id) = &req.task_id {
            if self.task_id != *task_id {
                return false;
            }
        }
        if let Some(attempt) = req.attempt {
            if self.attempt != attempt {
                return false;
            }
        }
        req.event_type.len() == 0 || contains_text(&req.event_type, &self.event_type)
    }
}

impl Ledger {
    /// The highest number of an event of the attempt that the request names.
    fn highest_event(&self, req: &TraceEventRequest) -> (highest: u32)
        ensures
            highest == highest_index(
                self@.traces,
                req.run_id@,
                req.kind@,
                req.task_id@,
                req.attempt,
            ),
    {
        let ghost said = views(self.traces@);
        let mut highest: u32 = 0;
        for i in 0..self.traces.len()
            invariant
                said == views(self.traces@),
                highest == highest_index(
                    said.take(i as int),
                    req.run_id@,
                    req.kind@,
                    req.task_id@,
                    req.attempt,
                ),
        {
            let trace = &self.traces[i];
            assert(said.take(i + 1).drop_last() =~= said.take(i as int));
            if trace.run_id == req.run_id && trace.kind == req.kind && trace.task_id == req.task_id
                && trace.attempt == req.attempt && trace.event_index > highest {
                highest = trace.event_index;
            }
        }
        assert(said.take(said.len() as int) =~= said);
        highest
    }

    /// Adds an event to the trace of a task.
    pub fn add_trace_event_at(&mut self, req: TraceEventRequest, now: Moment) -> (record: Result<
        TraceEventRecord,
        Error,
    >)
        requires
            old(self).wf(),
            now.valid(),
        ensures
            final(self).wf(),
            final(self)@ == trace_added(old(self)@, req@, now).0,
            result_view(record) == trace_added(old(self)@, req@, now).1,
            record is Ok ==> list_reads_back(texts(req.artifact_ids@)),
    {
        let highest: u32 = self.highest_event(&req);
        if highest == u32::MAX {
            return Err(Error::Sqlite(text_of("Integer 4294967296 out of range at index 0")));
        }
        if self.last_trace_id == i64::MAX {
            return Err(Error::Sqlite(text_of("database or disk is full")));
        }
        let event_index: u32 = highest + 1;
        let id: i64 = self.last_trace_id + 1;
        let row = TraceRow {
            id,
            run_id: req.run_id.clone(),
            kind: req.kind.clone(),
            task_id: req.task_id.clone(),
            attempt: req.attempt,
            event_index,
            event_type: req.event_type.clone(),
            payload_json: text_of(req.payload.text()),
            artifact_ids_json: list_json(&req.artifact_ids),
            created_at: timestamp(now),
        };
        self.traces.push(row);
        self.last_trace_id = id;
        assert(views(self.traces@) =~= views(old(self).traces@).push(row@));
        Ok(
            TraceEventRecord {
                id,
                run_id: req.run_id,
                kind: req.kind,
                task_id: req.task_id,
                attempt: req.attempt,
                event_index,
                event_type: req.event_type,
                payload: req.payload,
                artifact_ids: req.artifact_ids,
                created_at: timestamp(now),
            },
        )
    }

    /// The trace events of a run that the request asks for, by attempt and number.
    pub fn list_trace_events(&self, req: ListTraceEventsRequest) -> (records: Result<
        Vec<TraceEventRecord>,
        Error,
    >)
        ensures
            lists_traces(
                self@.traces,
                wanted_traces(
                    req.run_id@,
                    opt_text(req.kind),
                    opt_text(req.task_id),
                    req.attempt,
                    texts(req.event_type@),
                ),
                list_view(records),
            ),
    {
        let ghost wanted = wanted_traces(
            req.run_id@,
            opt_text(req.kind),
            opt_text(req.task_id),
            req.attempt,
            texts(req.event_type@),
        );
        let ghost said = views(self.traces@);
        let mut flags: Vec<bool> = Vec::new();
        for i in 0..self.traces.len()
            invariant
                wanted == wanted_traces(
                    req.run_id@,
                    opt_text(req.kind),
                    opt_text(req.task_id),
                    req.attempt,
                    texts(req.event_type@),
                ),
                flags@.len() == i,
                forall|j: int| 0 <= j < i ==> #[trigger] flags@[j] == wanted(self.traces@[j]@),
        {
            flags.push(self.traces[i].is_wanted(&req));
        }
        let picks = pick_logged(&self.traces, &flags, Ghost(wanted));
        let ghost places = as_places(picks@);
        let mut records: Vec<TraceEventRecord> = Vec::new();
        assert(views(records@) =~= Seq::<TraceRecordState>::empty());
        for i in 0..picks.len()
            invariant
                picks_rows(self.traces@, picks@),
                places == as_places(picks@),
                said == views(self.traces@),
                traces_told(said, places.take(i as int)) == Ok::<Seq<TraceRecordState>, Fault>(
                    views(records@),
                ),
                is_log_listing::<TraceRow>(said, wanted, places),
                self@.traces == said,
                wanted == wanted_traces(
                    req.run_id@,
                    opt_text(req.kind),
                    opt_text(req.task_id),
                    req.attempt,
                    texts(req.event_type@),
                ),
        {
            assert(places.take(i + 1).drop_last() =~= places.take(i as int));
            assert(places.take(i + 1).last() == picks@[i as int]);
            assert(said[picks@[i as int] as int] == self.traces@[picks@[i as int] as int]@);
            match self.traces[picks[i]].record() {
                Ok(record) => {
                    let ghost before = views(records@);
                    records.push(record);
                    assert(views(records@) =~= before.push(record@));
                },
                Err(error) => {
                    proof {
                        lemma_told_fault_stays(said, places, i + 1, error@);
                    }
                    return Err(error);
                },
            }
        }
        assert(places.take(places.len() as int) =~= places);
        Ok(records)
    }
}

/// A fault among the first of the events is the fault of the whole list.
proof fn lemma_told_fault_stays(
    traces: Seq<TraceState>,
    picks: Seq<int>,
    i: int,
    fault: Fault,
)
    requires
        0 <= i <= picks.len(),
        traces_told(traces, picks.take(i)) == Err::<Seq<TraceRecordState>, Fault>(fault),
    ensures
        traces_told(traces, picks) == Err::<Seq<TraceRecordState>, Fault>(fault),
    decreases picks.len() - i,
{
    if i == picks.len() {
        assert(picks.take(i) =~= picks);
    } else {
        assert(picks.take(i + 1).drop_last() =~= picks.take(i));
        lemma_told_fault_stays(traces, picks, i + 1, fault);
    }
}

} // verus!
