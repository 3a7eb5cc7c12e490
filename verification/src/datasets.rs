//! Datasets: registered sets of tasks, listed, counted, completed and failed.
use vstd::prelude::*;

use crate::error::{result_view, views, Error, Fault};
use crate::ledger::{key2, key3, Ledger, LedgerState};
use crate::rows::{DatasetRow, TaskRow, TaskState};
use crate::table::{
    count_rows, has_prefix, keys_where, lemma_count_of_first, lemma_count_rows,
    lemma_rows_are_keys, under, Row,
};
use crate::text::{copy_opt, text_of, texts};
use crate::time::{datetime_text, timestamp, Moment};
use crate::types::{DatasetSummary, RegisterDatasetRequest, TaskInput, TaskInputState};
use crate::work::{fresh, Status, Work, WorkState};

verus! {

/// The task belongs to the latest registration of its dataset. Rows from earlier registrations
/// are kept, so that going back to an input reuses its old output, but do not count.
pub open spec fn is_current(
    datasets: Map<Seq<Seq<char>>, u32>,
    key: Seq<Seq<char>>,
    task: TaskState,
) -> bool {
    datasets.contains_key(key.take(2)) ==> task.generation == datasets[key.take(2)]
}

/// The generation of the next registration of a dataset.
pub open spec fn next_generation(datasets: Map<Seq<Seq<char>>, u32>, at: Seq<Seq<char>>) -> int {
    if datasets.contains_key(at) {
        datasets[at] + 1
    } else {
        1
    }
}

/// The first of `inputs` with that digest is at `i`.
pub open spec fn is_first(inputs: Seq<TaskInputState>, i: int, digest: Seq<char>) -> bool {
    &&& 0 <= i < inputs.len()
    &&& inputs[i].input_digest == digest
    &&& forall|j: int| 0 <= j < i ==> (#[trigger] inputs[j]).input_digest != digest
}

/// The key is that of one of `inputs` in the dataset.
pub open spec fn registers(
    run_id: Seq<char>,
    kind: Seq<char>,
    inputs: Seq<TaskInputState>,
    key: Seq<Seq<char>>,
) -> bool {
    &&& key == seq![run_id, kind, key[2]]
    &&& exists|i: int| is_first(inputs, i, key[2])
}

/// The task as registered: one that was there before keeps its input, its status and its output.
pub open spec fn task_placed(
    tasks: Map<Seq<Seq<char>>, TaskState>,
    key: Seq<Seq<char>>,
    input: TaskInputState,
    position: u32,
    generation: u32,
    now: Moment,
) -> TaskState {
    if tasks.contains_key(key) {
        TaskState {
            label: input.label,
            category: input.category,
            position,
            generation,
            work: WorkState { updated_at: datetime_text(now.secs), ..tasks[key].work },
            ..tasks[key]
        }
    } else {
        TaskState {
            label: input.label,
            category: input.category,
            position,
            generation,
            input_json: input.input,
            created_at: datetime_text(now.secs),
            work: fresh(now),
        }
    }
}

/// The tasks after a registration. Identical inputs collapse to one task; the first wins.
pub open spec fn tasks_placed(
    tasks: Map<Seq<Seq<char>>, TaskState>,
    run_id: Seq<char>,
    kind: Seq<char>,
    inputs: Seq<TaskInputState>,
    generation: u32,
    now: Moment,
) -> Map<Seq<Seq<char>>, TaskState> {
    Map::new(
        |key: Seq<Seq<char>>| tasks.contains_key(key) || registers(run_id, kind, inputs, key),
        |key: Seq<Seq<char>>|
            if registers(run_id, kind, inputs, key) {
                let i = choose|i: int| is_first(inputs, i, key[2]);
                task_placed(tasks, key, inputs[i], i as u32, generation, now)
            } else {
                tasks[key]
            },
    )
}

/// A dataset is registered.
pub open spec fn dataset_registered(
    state: LedgerState,
    run_id: Seq<char>,
    kind: Seq<char>,
    inputs: Seq<TaskInputState>,
    now: Moment,
) -> LedgerState {
    let generation = next_generation(state.datasets, seq![run_id, kind]) as u32;
    LedgerState {
        datasets: state.datasets.insert(seq![run_id, kind], generation),
        tasks: tasks_placed(state.tasks, run_id, kind, inputs, generation, now),
        ..state
    }
}

/// What the database says of a generation that no column holds.
pub open spec fn generation_refusal() -> Fault {
    Fault::Sqlite("Integer 4294967296 out of range at index 0"@)
}

/// The current tasks of a dataset with that status.
pub open spec fn with_status(
    state: LedgerState,
    prefix: Seq<Seq<char>>,
    status: Status,
) -> spec_fn(Seq<Seq<char>>, TaskState) -> bool {
    |key: Seq<Seq<char>>, task: TaskState|
        under(prefix, key) && is_current(state.datasets, key, task) && task.work.status == status
}

/// How many current tasks whose keys begin with `prefix` have that status.
pub open spec fn status_count(state: LedgerState, prefix: Seq<Seq<char>>, status: Status) -> nat {
    keys_where(state.tasks, with_status(state, prefix, status)).len()
}

/// How many current tasks have keys that begin with `prefix`.
pub open spec fn current_count(state: LedgerState, prefix: Seq<Seq<char>>) -> nat {
    keys_where(state.tasks, current_under(state, prefix)).len()
}

/// The current tasks whose keys begin with `prefix`.
pub open spec fn current_under(
    state: LedgerState,
    prefix: Seq<Seq<char>>,
) -> spec_fn(Seq<Seq<char>>, TaskState) -> bool {
    |key: Seq<Seq<char>>, task: TaskState|
        under(prefix, key) && is_current(state.datasets, key, task)
}

/// The tasks whose keys begin with `prefix`, whatever registration they are from.
pub open spec fn any_under(prefix: Seq<Seq<char>>) -> spec_fn(Seq<Seq<char>>, TaskState) -> bool {
    |key: Seq<Seq<char>>, task: TaskState| under(prefix, key)
}

/// How many tasks have keys that begin with `prefix`, whatever registration they are from.
pub open spec fn rows_under(state: LedgerState, prefix: Seq<Seq<char>>) -> nat {
    keys_where(state.tasks, any_under(prefix)).len()
}

/// A dataset in numbers: its current tasks, all of them and by status.
pub open spec fn dataset_numbers(
    state: LedgerState,
    run_id: Seq<char>,
    kind: Seq<char>,
) -> DatasetSummary {
    let prefix = seq![run_id, kind];
    DatasetSummary {
        total: current_count(state, prefix) as u32,
        pending: status_count(state, prefix, Status::Pending) as u32,
        running: status_count(state, prefix, Status::Running) as u32,
        succeeded: status_count(state, prefix, Status::Succeeded) as u32,
        failed: status_count(state, prefix, Status::Failed) as u32,
        terminal: status_count(state, prefix, Status::Terminal) as u32,
    }
}

/// A registration of one more input places one more task, unless the input came before.
proof fn lemma_one_more_placed(
    tasks: Map<Seq<Seq<char>>, TaskState>,
    run_id: Seq<char>,
    kind: Seq<char>,
    inputs: Seq<TaskInputState>,
    input: TaskInputState,
    generation: u32,
    now: Moment,
)
    ensures
        ({
            let key = seq![run_id, kind, input.input_digest];
            let before = tasks_placed(tasks, run_id, kind, inputs, generation, now);
            let after = tasks_placed(tasks, run_id, kind, inputs.push(input), generation, now);
            if registers(run_id, kind, inputs, key) {
                after == before
            } else {
                &&& after == before.insert(
                    key,
                    task_placed(tasks, key, input, inputs.len() as u32, generation, now),
                )
                &&& before.contains_key(key) == tasks.contains_key(key)
                &&& tasks.contains_key(key) ==> before[key] == tasks[key]
            }
        }),
{
    let key = seq![run_id, kind, input.input_digest];
    let more = inputs.push(input);
    let before = tasks_placed(tasks, run_id, kind, inputs, generation, now);
    let after = tasks_placed(tasks, run_id, kind, more, generation, now);
    assert forall|i: int, digest: Seq<char>|
        #[trigger] is_first(more, i, digest) <==> is_first(inputs, i, digest) || (i == inputs.len()
            && digest == input.input_digest && !exists|j: int| is_first(inputs, j, digest)) by {
        if is_first(more, i, digest) && i == inputs.len() {
            if exists|j: int| is_first(inputs, j, digest) {
                let j = choose|j: int| is_first(inputs, j, digest);
                assert(more[j].input_digest == digest);
            }
        }
        if is_first(more, i, digest) && i < inputs.len() {
            assert forall|j: int| 0 <= j < i implies (#[trigger] inputs[j]).input_digest
                != digest by {
                assert(more[j].input_digest != digest);
            }
        }
        if is_first(inputs, i, digest) {
            assert forall|j: int| 0 <= j < i implies (#[trigger] more[j]).input_digest
                != digest by {
                assert(inputs[j].input_digest != digest);
            }
        }
        if i == inputs.len() && digest == input.input_digest && !exists|j: int|
            is_first(inputs, j, digest) {
            assert forall|j: int| 0 <= j < i implies (#[trigger] more[j]).input_digest
                != digest by {
                if more[j].input_digest == digest {
                    lemma_some_first(inputs, j, digest);
                }
            }
        }
    }
    assert forall|digest: Seq<char>, i: int, j: int|
        #[trigger] is_first(more, i, digest) && #[trigger] is_first(more, j, digest) implies i
        == j by {
        if i < j {
            assert(more[i].input_digest != digest);
        } else if j < i {
            assert(more[j].input_digest != digest);
        }
    }
    assert(key == seq![run_id, kind, key[2]]);
    if registers(run_id, kind, inputs, key) {
        assert forall|k: Seq<Seq<char>>| registers(run_id, kind, more, k) == registers(
            run_id,
            kind,
            inputs,
            k,
        ) by {
            if registers(run_id, kind, inputs, k) {
                let i = choose|i: int| is_first(inputs, i, k[2]);
                assert(is_first(more, i, k[2]));
            }
        }
        assert forall|k: Seq<Seq<char>>| after.contains_key(k) implies #[trigger] after[k]
            == before[k] by {
            if registers(run_id, kind, inputs, k) {
                let i = choose|i: int| is_first(inputs, i, k[2]);
                assert(is_first(more, i, k[2]));
                let j = choose|j: int| is_first(more, j, k[2]);
                assert(i == j);
            }
        }
        assert(after =~= before);
    } else {
        let placed = task_placed(tasks, key, input, inputs.len() as u32, generation, now);
        assert(is_first(more, inputs.len() as int, input.input_digest));
        assert forall|k: Seq<Seq<char>>| registers(run_id, kind, more, k) == (registers(
            run_id,
            kind,
            inputs,
            k,
        ) || k == key) by {
            if registers(run_id, kind, inputs, k) {
                let i = choose|i: int| is_first(inputs, i, k[2]);
                assert(is_first(more, i, k[2]));
            }
            if registers(run_id, kind, more, k) && !registers(run_id, kind, inputs, k) {
                let i = choose|i: int| is_first(more, i, k[2]);
                assert(k[2] == input.input_digest);
                assert(k == key);
            }
        }
        assert forall|k: Seq<Seq<char>>| after.contains_key(k) implies #[trigger] after[k]
            == before.insert(key, placed)[k] by {
            if registers(run_id, kind, inputs, k) {
                let i = choose|i: int| is_first(inputs, i, k[2]);
                assert(is_first(more, i, k[2]));
                let j = choose|j: int| is_first(more, j, k[2]);
                assert(i == j);
            } else if k == key {
                let j = choose|j: int| is_first(more, j, k[2]);
                assert(j == inputs.len());
            }
        }
        assert(after =~= before.insert(key, placed));
    }
}

/// Where some input has a digest, some input has it first.
pub proof fn lemma_some_first(inputs: Seq<TaskInputState>, at: int, digest: Seq<char>)
    requires
        0 <= at < inputs.len(),
        inputs[at].input_digest == digest,
    ensures
        exists|i: int| i <= at && is_first(inputs, i, digest),
    decreases at,
{
    if forall|j: int| 0 <= j < at ==> (#[trigger] inputs[j]).input_digest != digest {
        assert(is_first(inputs, at, digest));
    } else {
        let j = choose|j: int| 0 <= j < at && (#[trigger] inputs[j]).input_digest == digest;
        lemma_some_first(inputs, j, digest);
    }
}

/// Whether an earlier input has the digest of the one at `at`.
fn seen_before(inputs: &Vec<TaskInput>, at: usize) -> (seen: bool)
    requires
        at < inputs@.len(),
    ensures
        seen == exists|i: int|
            is_first(views(inputs@.take(at as int)), i, inputs@[at as int].input_digest@),
{
    let ghost digest = inputs@[at as int].input_digest@;
    let ghost earlier = views(inputs@.take(at as int));
    for i in 0..at
        invariant
            at < inputs@.len(),
            digest == inputs@[at as int].input_digest@,
            earlier == views(inputs@.take(at as int)),
            forall|j: int| 0 <= j < i ==> (#[trigger] earlier[j]).input_digest != digest,
    {
        if inputs[i].input_digest == inputs[at].input_digest {
            assert(earlier[i as int].input_digest == digest);
            proof {
                lemma_some_first(earlier, i as int, digest);
            }
            return true;
        }
    }
    assert forall|i: int| !is_first(earlier, i, digest) by {}
    false
}

impl Ledger {
    /// Places the tasks of a registration.
    fn place_tasks(
        &mut self,
        run_id: &String,
        kind: &String,
        inputs: &Vec<TaskInput>,
        generation: u32,
        now: Moment,
    )
        requires
            old(self).wf(),
            now.valid(),
            inputs@.len() <= u32::MAX,
        ensures
            final(self).wf(),
            final(self)@ == (LedgerState {
                tasks: tasks_placed(
                    old(self)@.tasks,
                    run_id@,
                    kind@,
                    views(inputs@),
                    generation,
                    now,
                ),
                ..old(self)@
            }),
    {
        proof {
            let none = views(inputs@.take(0));
            assert forall|key: Seq<Seq<char>>| !registers(run_id@, kind@, none, key) by {}
            assert(tasks_placed(self@.tasks, run_id@, kind@, none, generation, now)
                =~= self@.tasks);
        }
        for i in 0..inputs.len()
            invariant
                self.wf(),
                now.valid(),
                inputs@.len() <= u32::MAX,
                self@ == (LedgerState {
                    tasks: tasks_placed(
                        old(self)@.tasks,
                        run_id@,
                        kind@,
                        views(inputs@.take(i as int)),
                        generation,
                        now,
                    ),
                    ..old(self)@
                }),
        {
            let input = &inputs[i];
            let ghost earlier = views(inputs@.take(i as int));
            let ghost key_text = seq![run_id@, kind@, input.input_digest@];
            proof {
                assert(views(inputs@.take(i + 1)) =~= earlier.push(input@));
                lemma_one_more_placed(
                    old(self)@.tasks,
                    run_id@,
                    kind@,
                    earlier,
                    input@,
                    generation,
                    now,
                );
                assert(key_text == seq![run_id@, kind@, key_text[2]]);
            }
            if seen_before(inputs, i) {
                assert(registers(run_id@, kind@, earlier, key_text));
            } else {
                assert(!registers(run_id@, kind@, earlier, key_text));
                let key = key3(run_id, kind, &input.input_digest);
                let position: u32 = i as u32;
                let row = match self.tasks.take(&key) {
                    Some(found) => {
                        let mut row = found;
                        row.label = copy_opt(&input.label);
                        row.category = copy_opt(&input.category);
                        row.position = position;
                        row.generation = generation;
                        row.work.updated_at = timestamp(now);
                        row
                    },
                    None => TaskRow {
                        run_id: run_id.clone(),
                        kind: kind.clone(),
                        input_digest: input.input_digest.clone(),
                        label: copy_opt(&input.label),
                        category: copy_opt(&input.category),
                        position,
                        generation,
                        input_json: text_of(input.input.text()),
                        created_at: timestamp(now),
                        work: Work::new(now),
                    },
                };
                assert(row@ == task_placed(
                    old(self)@.tasks,
                    key_text,
                    input@,
                    position,
                    generation,
                    now,
                ));
                assert(row.key() =~= key_text);
                self.tasks.put(row);
                assert(self@.tasks =~= tasks_placed(
                    old(self)@.tasks,
                    run_id@,
                    kind@,
                    views(inputs@.take(i + 1)),
                    generation,
                    now,
                ));
            }
        }
        assert(inputs@.take(inputs@.len() as int) =~= inputs@);
    }

    /// Registers the tasks of a dataset; the tasks of this registration count from now on.
    pub fn register_dataset_at(&mut self, req: RegisterDatasetRequest, now: Moment) -> (summary:
        Result<DatasetSummary, Error>)
        requires
            old(self).wf(),
            now.valid(),
            rows_under(old(self)@, seq![req.run_id@, req.kind@]) + req.tasks@.len() <= u32::MAX,
        ensures
            final(self).wf(),
            ({
                let state = dataset_registered(
                    old(self)@,
                    req.run_id@,
                    req.kind@,
                    views(req.tasks@),
                    now,
                );
                if next_generation(old(self)@.datasets, seq![req.run_id@, req.kind@]) > u32::MAX {
                    final(self)@ == old(self)@ && result_view(summary) == Err::<
                        DatasetSummary,
                        Fault,
                    >(generation_refusal())
                } else {
                    final(self)@ == state && result_view(summary) == Ok::<DatasetSummary, Fault>(
                        dataset_numbers(state, req.run_id@, req.kind@),
                    )
                }
            }),
    {
        let key = key2(&req.run_id, &req.kind);
        let generation: u32 = match self.datasets.get(&key) {
            Some(dataset) => {
                if dataset.generation == u32::MAX {
                    return Err(
                        Error::Sqlite(text_of("Integer 4294967296 out of range at index 0")),
                    );
                }
                dataset.generation + 1
            },
            None => 1,
        };
        self.datasets.put(
            DatasetRow { run_id: req.run_id.clone(), kind: req.kind.clone(), generation },
        );
        self.place_tasks(&req.run_id, &req.kind, &req.tasks, generation, now);
        assert(self@ =~= dataset_registered(
            old(self)@,
            req.run_id@,
            req.kind@,
            views(req.tasks@),
            now,
        ));
        proof {
            lemma_rows_are_keys(old(self).tasks.listed());
            lemma_rows_after(old(self)@, req.run_id@, req.kind@, views(req.tasks@), now);
        }
        self.dataset_summary(req.run_id.as_str(), req.kind.as_str())
    }

    /// Whether the task belongs to the latest registration of its dataset.
    pub(crate) fn current(&self, task: &TaskRow) -> (current: bool)
        requires
            self.datasets.wf(),
        ensures
            current == is_current(self@.datasets, task.key(), task@),
    {
        assert(task.key().take(2) =~= seq![task.run_id@, task.kind@]);
        match self.datasets.get(&key2(&task.run_id, &task.kind)) {
            Some(dataset) => task.generation == dataset.generation,
            None => true,
        }
    }

    /// How many current tasks whose keys begin with `prefix` have that status.
    pub(crate) fn count_status(&self, prefix: &Vec<String>, status: Status) -> (count: u32)
        requires
            self.wf(),
            status_count(self@, texts(prefix@), status) <= u32::MAX,
        ensures
            count == status_count(self@, texts(prefix@), status),
    {
        let rows = self.tasks.rows();
        let ghost wanted = with_status(self@, texts(prefix@), status);
        proof {
            lemma_count_rows(rows@, wanted);
        }
        let mut count: u32 = 0;
        for i in 0..rows.len()
            invariant
                self.wf(),
                rows@ == self.tasks.listed(),
                count_rows(rows@, wanted) <= u32::MAX,
                wanted == with_status(self@, texts(prefix@), status),
                count == count_rows(rows@.take(i as int), wanted),
        {
            let row = &rows[i];
            proof {
                assert(rows@.take(i + 1).drop_last() =~= rows@.take(i as int));
                lemma_count_of_first(rows@, wanted, i + 1);
            }
            if has_prefix(row, prefix) && row.work.status == status && self.current(row) {
                count = count + 1;
            }
        }
        assert(rows@.take(rows@.len() as int) =~= rows@);
        count
    }

    /// A dataset in numbers.
    pub fn dataset_summary(&self, run_id: &str, kind: &str) -> (summary: Result<
        DatasetSummary,
        Error,
    >)
        requires
            self.wf(),
            current_count(self@, seq![run_id@, kind@]) <= u32::MAX,
        ensures
            summary == Ok::<DatasetSummary, Error>(dataset_numbers(self@, run_id@, kind@)),
            summary matches Ok(numbers) && numbers.total == numbers.pending + numbers.running
                + numbers.succeeded + numbers.failed + numbers.terminal,
    {
        let prefix = key2(&text_of(run_id), &text_of(kind));
        proof {
            lemma_rows_are_keys(self.tasks.listed());
            statuses_add_up(self@, texts(prefix@));
        }
        let pending: u32 = self.count_status(&prefix, Status::Pending);
        let running: u32 = self.count_status(&prefix, Status::Running);
        let succeeded: u32 = self.count_status(&prefix, Status::Succeeded);
        let failed: u32 = self.count_status(&prefix, Status::Failed);
        let terminal: u32 = self.count_status(&prefix, Status::Terminal);
        let total: u32 = pending + running + succeeded + failed + terminal;
        Ok(DatasetSummary { total, pending, running, succeeded, failed, terminal })
    }
}

/// The current tasks of a dataset are those of the five statuses together.
pub proof fn statuses_add_up(state: LedgerState, prefix: Seq<Seq<char>>)
    requires
        state.tasks.dom().finite(),
    ensures
        current_count(state, prefix) == status_count(state, prefix, Status::Pending)
            + status_count(state, prefix, Status::Running) + status_count(
            state,
            prefix,
            Status::Succeeded,
        ) + status_count(state, prefix, Status::Failed) + status_count(
            state,
            prefix,
            Status::Terminal,
        ),
        current_count(state, prefix) <= state.tasks.dom().len(),
{
    let of = |status: Status| keys_where(state.tasks, with_status(state, prefix, status));
    let all = keys_where(state.tasks, current_under(state, prefix));
    let two = of(Status::Pending) + of(Status::Running);
    let three = two + of(Status::Succeeded);
    let four = three + of(Status::Failed);
    vstd::set_lib::lemma_set_disjoint_lens(of(Status::Pending), of(Status::Running));
    vstd::set_lib::lemma_set_disjoint_lens(two, of(Status::Succeeded));
    vstd::set_lib::lemma_set_disjoint_lens(three, of(Status::Failed));
    vstd::set_lib::lemma_set_disjoint_lens(four, of(Status::Terminal));
    assert(all =~= four + of(Status::Terminal));
    vstd::set_lib::lemma_len_subset(all, state.tasks.dom());
}

/// A registration adds no more rows to its dataset than it has inputs, and no more tasks count than
/// there are rows.
proof fn lemma_rows_after(
    state: LedgerState,
    run_id: Seq<char>,
    kind: Seq<char>,
    inputs: Seq<TaskInputState>,
    now: Moment,
)
    requires
        state.tasks.dom().finite(),
    ensures
        ({
            let after = dataset_registered(state, run_id, kind, inputs, now);
            current_count(after, seq![run_id, kind]) <= rows_under(state, seq![run_id, kind])
                + inputs.len()
        }),
{
    let after = dataset_registered(state, run_id, kind, inputs, now);
    let prefix = seq![run_id, kind];
    let keys = Seq::new(inputs.len(), |i: int| seq![run_id, kind, inputs[i].input_digest]);
    let before = keys_where(state.tasks, any_under(prefix));
    let counted = keys_where(after.tasks, current_under(after, prefix));
    vstd::seq_lib::seq_to_set_is_finite(keys);
    keys.lemma_cardinality_of_set();
    assert forall|key: Seq<Seq<char>>| counted.contains(key) implies before.union(
        keys.to_set(),
    ).contains(key) by {
        if registers(run_id, kind, inputs, key) {
            let i = choose|i: int| is_first(inputs, i, key[2]);
            assert(keys[i] == key);
        }
    }
    vstd::set_lib::lemma_len_union(before, keys.to_set());
    vstd::set_lib::lemma_len_subset(counted, before.union(keys.to_set()));
}

} // verus!
