//! The ledger: everything the store knows, and the requests on runs and memos.
use vstd::prelude::*;

use crate::digest::{digest_json, digest_text};
use crate::error::{result_view, views, Error, Fault};
use crate::json::{parse_required, stored_value};
use crate::rows::{
    ArtifactRow, ArtifactState, DatasetRow, FailureRecord, FailureState, MemoRow, MemoState,
    ReviewRecord, ReviewState, RunRow, RunState, StepRow, TaskRow, TaskState, TraceRow, TraceState,
    VariantRow, VariantState, WorkerRow, WorkerState,
};
use crate::table::Table;
use crate::text::{opt_text, texts};
use crate::time::{datetime_text, timestamp, Moment};
use crate::types::{MemoGetRequest, MemoGetResponse, MemoPutRequest, MemoReply, RegisterRunRequest};
use crate::work::WorkState;

verus! {

/// Everything the store knows. What was reported, traced and reviewed is kept in the order in
/// which it came.
#[derive(Debug)]
pub struct Ledger {
    pub runs: Table<RunRow>,
    pub steps: Table<StepRow>,
    pub artifacts: Table<ArtifactRow>,
    pub datasets: Table<DatasetRow>,
    pub tasks: Table<TaskRow>,
    pub memos: Table<MemoRow>,
    pub variants: Table<VariantRow>,
    pub workers: Table<WorkerRow>,
    pub failures: Vec<FailureRecord>,
    pub traces: Vec<TraceRow>,
    /// The highest id that a trace event was given.
    pub last_trace_id: i64,
    pub reviews: Vec<ReviewRecord>,
}

/// What a `Ledger` holds, by key.
#[verifier::ext_equal]
pub struct LedgerState {
    pub runs: Map<Seq<Seq<char>>, RunState>,
    pub steps: Map<Seq<Seq<char>>, WorkState>,
    pub artifacts: Map<Seq<Seq<char>>, ArtifactState>,
    /// The generation of each dataset: which of its registrations counts.
    pub datasets: Map<Seq<Seq<char>>, u32>,
    pub tasks: Map<Seq<Seq<char>>, TaskState>,
    pub memos: Map<Seq<Seq<char>>, MemoState>,
    pub variants: Map<Seq<Seq<char>>, VariantState>,
    pub workers: Map<Seq<Seq<char>>, WorkerState>,
    pub failures: Seq<FailureState>,
    pub traces: Seq<TraceState>,
    pub last_trace_id: i64,
    pub reviews: Seq<ReviewState>,
}

impl View for Ledger {
    type V = LedgerState;

    open spec fn view(&self) -> LedgerState {
        LedgerState {
            runs: self.runs@,
            steps: self.steps@,
            artifacts: self.artifacts@,
            datasets: self.datasets@,
            tasks: self.tasks@,
            memos: self.memos@,
            variants: self.variants@,
            workers: self.workers@,
            failures: views(self.failures@),
            traces: views(self.traces@),
            last_trace_id: self.last_trace_id,
            reviews: views(self.reviews@),
        }
    }
}

/// A store that knows nothing.
pub open spec fn empty_ledger() -> LedgerState {
    LedgerState {
        runs: Map::empty(),
        steps: Map::empty(),
        artifacts: Map::empty(),
        datasets: Map::empty(),
        tasks: Map::empty(),
        memos: Map::empty(),
        variants: Map::empty(),
        workers: Map::empty(),
        failures: Seq::empty(),
        traces: Seq::empty(),
        last_trace_id: 0,
        reviews: Seq::empty(),
    }
}

/// A key of one column.
pub fn key1(a: &String) -> (key: Vec<String>)
    ensures
        texts(key@) == seq![a@],
{
    let key = vec![a.clone()];
    assert(texts(key@) =~= seq![a@]);
    key
}

/// A key of two columns.
pub fn key2(a: &String, b: &String) -> (key: Vec<String>)
    ensures
        texts(key@) == seq![a@, b@],
{
    let key = vec![a.clone(), b.clone()];
    assert(texts(key@) =~= seq![a@, b@]);
    key
}

/// A key of three columns.
pub fn key3(a: &String, b: &String, c: &String) -> (key: Vec<String>)
    ensures
        texts(key@) == seq![a@, b@, c@],
{
    let key = vec![a.clone(), b.clone(), c.clone()];
    assert(texts(key@) =~= seq![a@, b@, c@]);
    key
}

impl Ledger {
    /// In no table do two rows share a key.
    pub open spec fn wf(&self) -> bool {
        &&& self.runs.wf()
        &&& self.steps.wf()
        &&& self.artifacts.wf()
        &&& self.datasets.wf()
        &&& self.tasks.wf()
        &&& self.memos.wf()
        &&& self.variants.wf()
        &&& self.workers.wf()
    }

    /// A store that knows nothing.
    pub fn new() -> (ledger: Ledger)
        ensures
            ledger.wf(),
            ledger@ == empty_ledger(),
    {
        let ledger = Ledger {
            runs: Table::new(),
            steps: Table::new(),
            artifacts: Table::new(),
            datasets: Table::new(),
            tasks: Table::new(),
            memos: Table::new(),
            variants: Table::new(),
            workers: Table::new(),
            failures: Vec::new(),
            traces: Vec::new(),
            last_trace_id: 0,
            reviews: Vec::new(),
        };
        assert(ledger@ =~= empty_ledger());
        ledger
    }
}

/// The run with its name and configuration; when it was first registered stays.
pub open spec fn run_registered(
    state: LedgerState,
    run_id: Seq<char>,
    name: Option<Seq<char>>,
    config: Seq<char>,
    now: Moment,
) -> LedgerState {
    let key = seq![run_id];
    let run = RunState {
        name,
        config_json: config,
        config_digest: digest_text(vstd::utf8::encode_utf8(config)),
        created_at: if state.runs.contains_key(key) {
            state.runs[key].created_at
        } else {
            datetime_text(now.secs)
        },
        updated_at: datetime_text(now.secs),
    };
    LedgerState { runs: state.runs.insert(key, run), ..state }
}

/// The memo with its value; when it was first written stays.
pub open spec fn memo_written(
    state: LedgerState,
    run_id: Seq<char>,
    key_digest: Seq<char>,
    key: Seq<char>,
    value: Seq<char>,
    now: Moment,
) -> LedgerState {
    let at = seq![run_id, key_digest];
    let memo = MemoState {
        key_json: key,
        value_json: value,
        created_at: if state.memos.contains_key(at) {
            state.memos[at].created_at
        } else {
            datetime_text(now.secs)
        },
    };
    LedgerState { memos: state.memos.insert(at, memo), ..state }
}

/// What is known of the memo.
pub open spec fn memo_read(state: LedgerState, run_id: Seq<char>, key_digest: Seq<char>) -> Result<
    MemoReply,
    Fault,
> {
    let at = seq![run_id, key_digest];
    if state.memos.contains_key(at) {
        match stored_value(state.memos[at].value_json) {
            Ok(value) => Ok(MemoReply { found: true, value: Some(value) }),
            Err(fault) => Err(fault),
        }
    } else {
        Ok(MemoReply { found: false, value: None })
    }
}

impl Ledger {
    /// Registers a run, or changes its name and configuration.
    pub fn register_run_at(&mut self, req: RegisterRunRequest, now: Moment) -> (done: Result<
        (),
        Error,
    >)
        requires
            old(self).wf(),
            now.valid(),
        ensures
            final(self).wf(),
            done is Ok,
            final(self)@ == run_registered(
                old(self)@,
                req.run_id@,
                opt_text(req.name),
                req.config@,
                now,
            ),
    {
        let key = key1(&req.run_id);
        let config_digest = digest_json(&req.config);
        let created_at = match self.runs.get(&key) {
            Some(run) => run.created_at.clone(),
            None => timestamp(now),
        };
        let run = RunRow {
            run_id: req.run_id,
            name: req.name,
            config_json: req.config.into_text(),
            config_digest,
            created_at,
            updated_at: timestamp(now),
        };
        self.runs.put(run);
        Ok(())
    }

    /// Writes a memo.
    pub fn memo_put_at(&mut self, req: MemoPutRequest, now: Moment) -> (done: Result<(), Error>)
        requires
            old(self).wf(),
            now.valid(),
        ensures
            final(self).wf(),
            done is Ok,
            final(self)@ == memo_written(
                old(self)@,
                req.run_id@,
                req.key_digest@,
                req.key@,
                req.value@,
                now,
            ),
    {
        let key = key2(&req.run_id, &req.key_digest);
        let created_at = match self.memos.get(&key) {
            Some(memo) => memo.created_at.clone(),
            None => timestamp(now),
        };
        let memo = MemoRow {
            run_id: req.run_id,
            key_digest: req.key_digest,
            key_json: req.key.into_text(),
            value_json: req.value.into_text(),
            created_at,
        };
        self.memos.put(memo);
        Ok(())
    }

    /// Reads a memo.
    pub fn memo_get(&self, req: MemoGetRequest) -> (reply: Result<MemoGetResponse, Error>)
        requires
            self.wf(),
        ensures
            result_view(reply) == memo_read(self@, req.run_id@, req.key_digest@),
    {
        match self.memos.get(&key2(&req.run_id, &req.key_digest)) {
            Some(memo) => match parse_required(memo.value_json.as_str()) {
                Ok(value) => Ok(MemoGetResponse { found: true, value: Some(value) }),
                Err(error) => Err(error),
            },
            None => Ok(MemoGetResponse { found: false, value: None }),
        }
    }
}

} // verus!
