//! Reports: a run in numbers, its failures, and what is exported of it.
use vstd::prelude::*;

use crate::datasets::status_count;
use crate::digest::{digest_json, digest_text};
use crate::error::{result_view, views, Error, Fault};
use crate::failure::{class_name, failure_class_to_str, FailureClass};
use crate::json::{null_text, parse_required, stored_value, Json};
use crate::ledger::{key1, Ledger, LedgerState};
use crate::order::{as_places, is_log_listing, pick_logged, picks_rows};
use crate::rows::{ArtifactState, FailureRecord, FailureState};
use crate::table::{
    count_rows, has_prefix, keys_where, lemma_count_of_first, lemma_count_rows, under,
};
use crate::text::{copy_opt, text_of, texts};
use crate::time::{datetime_text, timestamp, Moment};
use crate::types::{counted, RunSummary, RunSummaryState, SummaryRequest};
use crate::work::{status_name, status_to_str, Status, WorkState};

verus! {

/// Each number of the run is one that a count can say.
pub open spec fn countable(state: LedgerState, run_id: Seq<char>) -> bool {
    &&& forall|status: Status| #[trigger] steps_in(state, run_id, status) <= u32::MAX
    &&& forall|status: Status| #[trigger] tasks_in(state, run_id, status) <= u32::MAX
    &&& forall|class: FailureClass| #[trigger]
        class_count(state.failures, run_id, class) <= u32::MAX
    &&& keys_where(state.artifacts, artifacts_of(run_id)).len() <= u32::MAX
}

/// How many steps of a run have that status.
pub open spec fn steps_in(state: LedgerState, run_id: Seq<char>, status: Status) -> nat {
    keys_where(state.steps, steps_with(run_id, status)).len()
}

/// How many current tasks of a run have that status.
pub open spec fn tasks_in(state: LedgerState, run_id: Seq<char>, status: Status) -> nat {
    status_count(state, seq![run_id], status)
}

/// The statuses by their names.
pub open spec fn statuses_by_name() -> Seq<Status> {
    seq![Status::Failed, Status::Pending, Status::Running, Status::Succeeded, Status::Terminal]
}

/// The failure classes by their names.
pub open spec fn classes_by_name() -> Seq<FailureClass> {
    seq![
        FailureClass::ArtifactError,
        FailureClass::DurableHarnessError,
        FailureClass::EvalException,
        FailureClass::ResourceUnavailable,
        FailureClass::Transient,
    ]
}

/// The counts that are not zero.
pub open spec fn occurring(counts: Seq<(Seq<char>, nat)>) -> Seq<(Seq<char>, u32)>
    decreases counts.len(),
{
    if counts.len() == 0 {
        Seq::empty()
    } else if counts.last().1 > 0 {
        occurring(counts.drop_last()).push((counts.last().0, counts.last().1 as u32))
    } else {
        occurring(counts.drop_last())
    }
}

/// The steps of a run with that status.
pub open spec fn steps_with(run_id: Seq<char>, status: Status) -> spec_fn(
    Seq<Seq<char>>,
    WorkState,
) -> bool {
    |key: Seq<Seq<char>>, work: WorkState| under(seq![run_id], key) && work.status == status
}

/// The steps of a run, counted by status.
pub open spec fn step_numbers(state: LedgerState, run_id: Seq<char>) -> Seq<(Seq<char>, u32)> {
    occurring(
        Seq::new(
            5,
            |i: int|
                (
                    status_name(statuses_by_name()[i]),
                    keys_where(state.steps, steps_with(run_id, statuses_by_name()[i])).len(),
                ),
        ),
    )
}

/// The current tasks of a run, counted by status.
pub open spec fn task_numbers(state: LedgerState, run_id: Seq<char>) -> Seq<(Seq<char>, u32)> {
    occurring(
        Seq::new(
            5,
            |i: int|
                (
                    status_name(statuses_by_name()[i]),
                    status_count(state, seq![run_id], statuses_by_name()[i]),
                ),
        ),
    )
}

/// How many failures of a run are of that class.
pub open spec fn class_count(
    failures: Seq<FailureState>,
    run_id: Seq<char>,
    class: FailureClass,
) -> nat
    decreases failures.len(),
{
    if failures.len() == 0 {
        0
    } else {
        let last = failures.last();
        class_count(failures.drop_last(), run_id, class) + if last.run_id == run_id
            && last.failure_class == class {
            1nat
        } else {
            0nat
        }
    }
}

/// The failures of a run, counted by class.
pub open spec fn failure_numbers(state: LedgerState, run_id: Seq<char>) -> Seq<(Seq<char>, u32)> {
    occurring(
        Seq::new(
            5,
            |i: int|
                (
                    class_name(classes_by_name()[i]),
                    class_count(state.failures, run_id, classes_by_name()[i]),
                ),
        ),
    )
}

/// The artifacts of a run.
pub open spec fn artifacts_of(run_id: Seq<char>) -> spec_fn(Seq<Seq<char>>, ArtifactState) -> bool {
    |key: Seq<Seq<char>>, artifact: ArtifactState| artifact.run_id == run_id
}

/// A run in numbers. A run that was never registered has no name, no configuration, and starts
/// now.
pub open spec fn summed_up(state: LedgerState, run_id: Seq<char>, now: Moment) -> Result<
    RunSummaryState,
    Fault,
> {
    let key = seq![run_id];
    let known = state.runs.contains_key(key);
    let config = if known {
        stored_value(state.runs[key].config_json)
    } else {
        Ok(null_text())
    };
    match config {
        Err(fault) => Err(fault),
        Ok(config) => Ok(
            RunSummaryState {
                run_id,
                name: if known {
                    state.runs[key].name
                } else {
                    None
                },
                config,
                config_digest: if known {
                    state.runs[key].config_digest
                } else {
                    digest_text(vstd::utf8::encode_utf8(null_text()))
                },
                step_counts: step_numbers(state, run_id),
                task_counts: task_numbers(state, run_id),
                artifact_count: keys_where(state.artifacts, artifacts_of(run_id)).len() as u32,
                failure_counts: failure_numbers(state, run_id),
                started_at: Some(
                    if known {
                        state.runs[key].created_at
                    } else {
                        datetime_text(now.secs)
                    },
                ),
                completed_at: None,
            },
        ),
    }
}

/// The failures of a run.
pub open spec fn failures_of(run_id: Seq<char>) -> spec_fn(FailureState) -> bool {
    |failure: FailureState| failure.run_id == run_id
}

/// The failures at those places.
pub open spec fn failures_at(failures: Seq<FailureState>, picks: Seq<int>) -> Seq<FailureState> {
    Seq::new(picks.len(), |a: int| failures[picks[a]])
}

/// The failures of a run, by when they were reported.
pub open spec fn lists_failures(
    failures: Seq<FailureState>,
    run_id: Seq<char>,
    list: Seq<FailureState>,
) -> bool {
    exists|picks: Seq<int>|
        #[trigger] is_log_listing::<FailureRecord>(failures, failures_of(run_id), picks) && list
            == failures_at(failures, picks)
}

/// Counts the steps of a run with that status.
fn count_steps(ledger: &Ledger, run_id: &String, status: Status) -> (count: u32)
    requires
        ledger.wf(),
        steps_in(ledger@, run_id@, status) <= u32::MAX,
    ensures
        count == keys_where(ledger@.steps, steps_with(run_id@, status)).len(),
{
    let prefix = key1(run_id);
    let rows = ledger.steps.rows();
    let ghost wanted = steps_with(run_id@, status);
    proof {
        lemma_count_rows(rows@, wanted);
    }
    let mut count: u32 = 0;
    for i in 0..rows.len()
        invariant
            count_rows(rows@, wanted) <= u32::MAX,
            texts(prefix@) == seq![run_id@],
            wanted == steps_with(run_id@, status),
            count == count_rows(rows@.take(i as int), wanted),
    {
        proof {
            assert(rows@.take(i + 1).drop_last() =~= rows@.take(i as int));
            lemma_count_of_first(rows@, wanted, i + 1);
        }
        if has_prefix(&rows[i], &prefix) && rows[i].work.status == status {
            count = count + 1;
        }
    }
    assert(rows@.take(rows@.len() as int) =~= rows@);
    count
}

/// Counts the artifacts of a run.
fn count_artifacts(ledger: &Ledger, run_id: &String) -> (count: u32)
    requires
        ledger.wf(),
        keys_where(ledger@.artifacts, artifacts_of(run_id@)).len() <= u32::MAX,
    ensures
        count == keys_where(ledger@.artifacts, artifacts_of(run_id@)).len(),
{
    let rows = ledger.artifacts.rows();
    let ghost wanted = artifacts_of(run_id@);
    proof {
        lemma_count_rows(rows@, wanted);
    }
    let mut count: u32 = 0;
    for i in 0..rows.len()
        invariant
            count_rows(rows@, wanted) <= u32::MAX,
            wanted == artifacts_of(run_id@),
            count == count_rows(rows@.take(i as int), wanted),
    {
        proof {
            assert(rows@.take(i + 1).drop_last() =~= rows@.take(i as int));
            lemma_count_of_first(rows@, wanted, i + 1);
        }
        if rows[i].run_id == *run_id {
            count = count + 1;
        }
    }
    assert(rows@.take(rows@.len() as int) =~= rows@);
    count
}

/// Among the first failures no more are of a class than among all.
proof fn lemma_class_count_of_first(
    failures: Seq<FailureState>,
    run_id: Seq<char>,
    class: FailureClass,
    i: int,
)
    requires
        0 <= i <= failures.len(),
    ensures
        class_count(failures.take(i), run_id, class) <= class_count(failures, run_id, class),
    decreases failures.len() - i,
{
    if i == failures.len() {
        assert(failures.take(i) =~= failures);
    } else {
        assert(failures.take(i + 1).drop_last() =~= failures.take(i));
        lemma_class_count_of_first(failures, run_id, class, i + 1);
    }
}

/// Counts the failures of a run of that class.
fn count_class(ledger: &Ledger, run_id: &String, class: FailureClass) -> (count: u32)
    requires
        class_count(ledger@.failures, run_id@, class) <= u32::MAX,
    ensures
        count == class_count(ledger@.failures, run_id@, class),
{
    let rows = &ledger.failures;
    let ghost said = views(rows@);
    let mut count: u32 = 0;
    for i in 0..rows.len()
        invariant
            class_count(said, run_id@, class) <= u32::MAX,
            said == views(rows@),
            count == class_count(said.take(i as int), run_id@, class),
    {
        proof {
            assert(said.take(i + 1).drop_last() =~= said.take(i as int));
            lemma_class_count_of_first(said, run_id@, class, i + 1);
        }
        if rows[i].run_id == *run_id && rows[i].failure_class == class {
            count = count + 1;
        }
    }
    assert(said.take(said.len() as int) =~= said);
    count
}

/// Adds a count to a list, unless it is zero.
fn note(
    counts: &mut Vec<(String, u32)>,
    name: &str,
    count: u32,
    Ghost(before): Ghost<Seq<(Seq<char>, nat)>>,
)
    requires
        counted(old(counts)@) == occurring(before),
    ensures
        counted(final(counts)@) == occurring(before.push((name@, count as nat))),
{
    let ghost more = before.push((name@, count as nat));
    assert(more.drop_last() =~= before);
    if count > 0 {
        counts.push((text_of(name), count));
        assert(counted(counts@) =~= counted(old(counts)@).push((name@, count)));
    }
}

impl Ledger {
    /// The steps of a run, counted by status.
    fn step_counts(&self, run_id: &String) -> (counts: Vec<(String, u32)>)
        requires
            self.wf(),
            countable(self@, run_id@),
        ensures
            counted(counts@) == step_numbers(self@, run_id@),
    {
        let mut counts: Vec<(String, u32)> = Vec::new();
        let ghost numbers = Seq::new(
            5,
            |i: int|
                (
                    status_name(statuses_by_name()[i]),
                    keys_where(self@.steps, steps_with(run_id@, statuses_by_name()[i])).len(),
                ),
        );
        assert(counted(counts@) =~= Seq::<(Seq<char>, u32)>::empty());
        assert(numbers.take(0) =~= Seq::<(Seq<char>, nat)>::empty());
        let order = [
            Status::Failed,
            Status::Pending,
            Status::Running,
            Status::Succeeded,
            Status::Terminal,
        ];
        for i in 0..5
            invariant
                self.wf(),
                countable(self@, run_id@),
                order@ == statuses_by_name(),
                numbers.len() == 5,
                forall|j: int|
                    0 <= j < 5 ==> #[trigger] numbers[j] == (
                        status_name(statuses_by_name()[j]),
                        keys_where(self@.steps, steps_with(run_id@, statuses_by_name()[j])).len(),
                    ),
                counted(counts@) == occurring(numbers.take(i as int)),
        {
            let status: Status = order[i];
            let count: u32 = count_steps(self, run_id, status);
            assert(order@[i as int] == status);
            note(&mut counts, status_to_str(&status), count, Ghost(numbers.take(i as int)));
            assert(numbers.take(i + 1) =~= numbers.take(i as int).push(numbers[i as int]));
        }
        assert(numbers.take(5) =~= numbers);
        counts
    }

    /// The current tasks of a run, counted by status.
    fn task_counts(&self, run_id: &String) -> (counts: Vec<(String, u32)>)
        requires
            self.wf(),
            countable(self@, run_id@),
        ensures
            counted(counts@) == task_numbers(self@, run_id@),
    {
        let prefix = key1(run_id);
        let mut counts: Vec<(String, u32)> = Vec::new();
        let ghost numbers = Seq::new(
            5,
            |i: int|
                (
                    status_name(statuses_by_name()[i]),
                    status_count(self@, seq![run_id@], statuses_by_name()[i]),
                ),
        );
        assert(counted(counts@) =~= Seq::<(Seq<char>, u32)>::empty());
        assert(numbers.take(0) =~= Seq::<(Seq<char>, nat)>::empty());
        let order = [
            Status::Failed,
            Status::Pending,
            Status::Running,
            Status::Succeeded,
            Status::Terminal,
        ];
        for i in 0..5
            invariant
                self.wf(),
                countable(self@, run_id@),
                order@ == statuses_by_name(),
                texts(prefix@) == seq![run_id@],
                numbers.len() == 5,
                forall|j: int|
                    0 <= j < 5 ==> #[trigger] numbers[j] == (
                        status_name(statuses_by_name()[j]),
                        status_count(self@, seq![run_id@], statuses_by_name()[j]),
                    ),
                counted(counts@) == occurring(numbers.take(i as int)),
        {
            let status: Status = order[i];
            assert(tasks_in(self@, run_id@, status) <= u32::MAX);
            let count: u32 = self.count_status(&prefix, status);
            assert(order@[i as int] == status);
            note(&mut counts, status_to_str(&status), count, Ghost(numbers.take(i as int)));
            assert(numbers.take(i + 1) =~= numbers.take(i as int).push(numbers[i as int]));
        }
        assert(numbers.take(5) =~= numbers);
        counts
    }

    /// The failures of a run, counted by class.
    fn failure_counts(&self, run_id: &String) -> (counts: Vec<(String, u32)>)
        requires
            countable(self@, run_id@),
        ensures
            counted(counts@) == failure_numbers(self@, run_id@),
    {
        let mut counts: Vec<(String, u32)> = Vec::new();
        let ghost numbers = Seq::new(
            5,
            |i: int|
                (
                    class_name(classes_by_name()[i]),
                    class_count(self@.failures, run_id@, classes_by_name()[i]),
                ),
        );
        assert(counted(counts@) =~= Seq::<(Seq<char>, u32)>::empty());
        assert(numbers.take(0) =~= Seq::<(Seq<char>, nat)>::empty());
        let order = [
            FailureClass::ArtifactError,
            FailureClass::DurableHarnessError,
            FailureClass::EvalException,
            FailureClass::ResourceUnavailable,
            FailureClass::Transient,
        ];
        for i in 0..5
            invariant
                countable(self@, run_id@),
                order@ == classes_by_name(),
                numbers.len() == 5,
                forall|j: int|
                    0 <= j < 5 ==> #[trigger] numbers[j] == (
                        class_name(classes_by_name()[j]),
                        class_count(self@.failures, run_id@, classes_by_name()[j]),
                    ),
                counted(counts@) == occurring(numbers.take(i as int)),
        {
            let class: FailureClass = order[i];
            let count: u32 = count_class(self, run_id, class);
            assert(order@[i as int] == class);
            note(&mut counts, failure_class_to_str(&class), count, Ghost(numbers.take(i as int)));
            assert(numbers.take(i + 1) =~= numbers.take(i as int).push(numbers[i as int]));
        }
        assert(numbers.take(5) =~= numbers);
        counts
    }

    /// A run in numbers.
    pub fn summary_at(&self, req: SummaryRequest, now: Moment) -> (summary: Result<
        RunSummary,
        Error,
    >)
        requires
            self.wf(),
            countable(self@, req.run_id@),
            now.valid(),
        ensures
            result_view(summary) == summed_up(self@, req.run_id@, now),
    {
        let name: Option<String>;
        let config: Json;
        let config_digest: String;
        let started_at: String;
        match self.runs.get(&key1(&req.run_id)) {
            Some(run) => {
                match parse_required(run.config_json.as_str()) {
                    Ok(value) => {
                        config = value;
                    },
                    Err(error) => {
                        return Err(error);
                    },
                }
                name = copy_opt(&run.name);
                config_digest = run.config_digest.clone();
                started_at = run.created_at.clone();
            },
            None => {
                name = None;
                config = Json::null();
                config_digest = digest_json(&config);
                started_at = timestamp(now);
            },
        }
        let step_counts = self.step_counts(&req.run_id);
        let task_counts = self.task_counts(&req.run_id);
        let artifact_count: u32 = count_artifacts(self, &req.run_id);
        let failure_counts = self.failure_counts(&req.run_id);
        Ok(
            RunSummary {
                run_id: req.run_id,
                name,
                config,
                config_digest,
                step_counts,
                task_counts,
                artifact_count,
                failure_counts,
                started_at: Some(started_at),
                completed_at: None,
            },
        )
    }

    /// The failures of a run, by when they were reported.
    pub fn failure_records(&self, run_id: &str) -> (records: Vec<FailureRecord>)
        ensures
            lists_failures(self@.failures, run_id@, views(records@)),
    {
        let wanted_run = text_of(run_id);
        let ghost said = views(self.failures@);
        let mut flags: Vec<bool> = Vec::new();
        for i in 0..self.failures.len()
            invariant
                wanted_run@ == run_id@,
                flags@.len() == i,
                forall|j: int|
                    0 <= j < i ==> #[trigger] flags@[j] == failures_of(run_id@)(
                        self.failures@[j]@,
                    ),
        {
            flags.push(self.failures[i].run_id == wanted_run);
        }
        let picks = pick_logged(&self.failures, &flags, Ghost(failures_of(run_id@)));
        let ghost places = as_places(picks@);
        let mut records: Vec<FailureRecord> = Vec::new();
        for i in 0..picks.len()
            invariant
                picks_rows(self.failures@, picks@),
                places == as_places(picks@),
                said == views(self.failures@),
                views(records@) == failures_at(said, places.take(i as int)),
        {
            let record = self.failures[picks[i]].copy();
            let ghost before = views(records@);
            records.push(record);
            assert(record@ == said[places[i as int]]);
            assert(views(records@) =~= before.push(record@));
            assert(failures_at(said, places.take(i + 1)) =~= before.push(said[places[i as int]]));
        }
        assert(places.take(places.len() as int) =~= places);
        records
    }
}

impl FailureRecord {
    /// The same failure again.
    pub fn copy(&self) -> (record: FailureRecord)
        ensures
            record@ == self@,
    {
        FailureRecord {
            run_id: self.run_id.clone(),
            step_name: self.step_name.clone(),
            input_digest: self.input_digest.clone(),
            attempt: self.attempt,
            failure_class: self.failure_class,
            error_type: self.error_type.clone(),
            message: self.message.clone(),
            stack: copy_opt(&self.stack),
            retryable: self.retryable,
            timestamp: self.timestamp.clone(),
        }
    }
}

} // verus!
