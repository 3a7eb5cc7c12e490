//! Tasks of a dataset: completed, failed, started and listed.
use vstd::prelude::*;

use crate::datasets::is_current;
use crate::error::{list_view, result_view, Error, Fault};
use crate::failure::ErrorState;
use crate::json::{parse_optional, parse_required, stored_option, stored_value};
use crate::ledger::{key2, key3, Ledger, LedgerState};
use crate::order::{is_listing, listing_is_unique, lists, pick, picked_keys, tell_flagged, Told};
use crate::retry::{default_policy, retries, RetryPolicy};
use crate::rows::{TaskRow, TaskState};
use crate::table::{has_prefix, lemma_contents_at, under, Row};
use crate::text::{contains_text, copy_opt, text_of, texts};
use crate::time::{datetime_text, timestamp, Moment};
use crate::types::{
    CompleteTaskRequest, FailCaseRequest, FailTaskRequest, ListRequest, TaskRecord, TaskRecordState,
};
use crate::work::{
    status_name, status_to_str, stored_error, Status, StoredError, StoredErrorState, WorkState,
};

verus! {

/// The task with its output. A lease, if there is one, is left as it is.
pub open spec fn task_done(work: WorkState, output: Seq<char>, now: Moment) -> WorkState {
    WorkState {
        status: Status::Succeeded,
        output_json: Some(output),
        error: StoredErrorState::Absent,
        completed_at: Some(datetime_text(now.secs)),
        updated_at: datetime_text(now.secs),
        ..work
    }
}

/// The task with the failure reported. It counts as an attempt, and the last one allowed is
/// final.
pub open spec fn task_missed(
    work: WorkState,
    error: ErrorState,
    max_attempts: u32,
    now: Moment,
) -> WorkState {
    let attempt = (work.attempt + 1) as u32;
    WorkState {
        status: if retries(default_policy(), error) && attempt < max_attempts {
            Status::Failed
        } else {
            Status::Terminal
        },
        attempt,
        error: StoredErrorState::Present(error),
        completed_at: Some(datetime_text(now.secs)),
        updated_at: datetime_text(now.secs),
        ..work
    }
}

/// The started task with the failure reported. Its attempt was counted when it was started.
pub open spec fn case_missed(work: WorkState, error: ErrorState, now: Moment) -> WorkState {
    WorkState {
        status: if retries(default_policy(), error) {
            Status::Failed
        } else {
            Status::Terminal
        },
        error: StoredErrorState::Present(error),
        completed_at: Some(datetime_text(now.secs)),
        updated_at: datetime_text(now.secs),
        ..work
    }
}

/// The task on its next attempt. The first start stays.
pub open spec fn case_started(work: WorkState, now: Moment) -> WorkState {
    WorkState {
        status: Status::Running,
        attempt: (work.attempt + 1) as u32,
        started_at: match work.started_at {
            Some(first) => Some(first),
            None => Some(datetime_text(now.secs)),
        },
        updated_at: datetime_text(now.secs),
        ..work
    }
}

/// The work of one task changes, if the task is known.
pub open spec fn task_changed(state: LedgerState, key: Seq<Seq<char>>, work: WorkState) -> (
    LedgerState,
    Result<(), Fault>,
) {
    if state.tasks.contains_key(key) {
        (
            LedgerState {
                tasks: state.tasks.insert(key, TaskState { work, ..state.tasks[key] }),
                ..state
            },
            Ok(()),
        )
    } else {
        (state, Err(Fault::TaskNotFound))
    }
}

/// The task as it is told, if what is stored of it can be read.
pub open spec fn task_told(key: Seq<Seq<char>>, task: TaskState) -> Result<TaskRecordState, Fault> {
    match (
        stored_value(task.input_json),
        stored_option(task.work.output_json),
        stored_error(task.work.error),
    ) {
        (Err(fault), _, _) => Err(fault),
        (_, Err(fault), _) => Err(fault),
        (_, _, Err(fault)) => Err(fault),
        (Ok(input), Ok(output), Ok(error)) => Ok(
            TaskRecordState {
                run_id: key[0],
                kind: key[1],
                input_digest: key[2],
                label: task.label,
                category: task.category,
                status: status_name(task.work.status),
                attempt: task.work.attempt,
                input,
                output,
                error,
                started_at: task.work.started_at,
                completed_at: task.work.completed_at,
            },
        ),
    }
}

/// The task passes a filter by status and one by category; an empty filter passes every task.
pub open spec fn passes(
    task: TaskState,
    statuses: Seq<Seq<char>>,
    categories: Seq<Seq<char>>,
) -> bool {
    &&& statuses.len() == 0 || statuses.contains(status_name(task.work.status))
    &&& categories.len() == 0 || (task.category matches Some(category) && categories.contains(
        category,
    ))
}

/// The current tasks whose keys begin with `prefix` and that pass the filters.
pub open spec fn wanted_tasks(
    state: LedgerState,
    prefix: Seq<Seq<char>>,
    statuses: Seq<Seq<char>>,
    categories: Seq<Seq<char>>,
) -> spec_fn(Seq<Seq<char>>, TaskState) -> bool {
    |key: Seq<Seq<char>>, task: TaskState|
        under(prefix, key) && is_current(state.datasets, key, task) && passes(
            task,
            statuses,
            categories,
        )
}

/// The attempt of the first of the wanted tasks, if there is one, can be counted on.
pub open spec fn startable(
    state: LedgerState,
    prefix: Seq<Seq<char>>,
    statuses: Seq<Seq<char>>,
    categories: Seq<Seq<char>>,
) -> bool {
    forall|keys: Seq<Seq<Seq<char>>>| #[trigger]
        is_listing::<TaskRow>(
            state.tasks,
            wanted_tasks(state, prefix, statuses, categories),
            keys,
        ) && keys.len() > 0 ==> state.tasks[keys[0]].work.attempt < u32::MAX
}

/// The row at the place has the first of the keys; there is no place where there is no key.
pub open spec fn stands_first(
    rows: Seq<TaskRow>,
    keys: Seq<Seq<Seq<char>>>,
    place: Option<usize>,
) -> bool {
    match place {
        None => keys.len() == 0,
        Some(at) => keys.len() > 0 && at < rows.len() && rows[at as int].key() == keys[0],
    }
}

/// What starting the first of the listed tasks comes to.
pub open spec fn first_started(state: LedgerState, keys: Seq<Seq<Seq<char>>>, now: Moment) -> (
    LedgerState,
    Result<Option<TaskRecordState>, Fault>,
) {
    if keys.len() == 0 {
        (state, Ok(None))
    } else {
        let task = state.tasks[keys[0]];
        match task_told(keys[0], task) {
            Err(fault) => (state, Err(fault)),
            Ok(record) => {
                let work = case_started(task.work, now);
                (
                    task_changed(state, keys[0], work).0,
                    Ok(
                        Some(
                            TaskRecordState {
                                status: status_name(work.status),
                                attempt: work.attempt,
                                started_at: work.started_at,
                                ..record
                            },
                        ),
                    ),
                )
            },
        }
    }
}

/// The first of the wanted tasks, if there is one, is started.
pub open spec fn starts_first(
    state: LedgerState,
    prefix: Seq<Seq<char>>,
    statuses: Seq<Seq<char>>,
    categories: Seq<Seq<char>>,
    now: Moment,
    after: LedgerState,
    told: Result<Option<TaskRecordState>, Fault>,
) -> bool {
    exists|keys: Seq<Seq<Seq<char>>>|
        #[trigger] is_listing::<TaskRow>(
            state.tasks,
            wanted_tasks(state, prefix, statuses, categories),
            keys,
        ) && (after, told) == first_started(state, keys, now)
}

impl Told for TaskRow {
    type Record = TaskRecord;

    open spec fn tell(key: Seq<Seq<char>>, row: TaskState) -> Result<TaskRecordState, Fault> {
        task_told(key, row)
    }

    fn record(&self) -> (record: Result<TaskRecord, Error>) {
        let input = match parse_required(self.input_json.as_str()) {
            Ok(input) => input,
            Err(error) => {
                return Err(error);
            },
        };
        let output = match parse_optional(&self.work.output_json) {
            Ok(output) => output,
            Err(error) => {
                return Err(error);
            },
        };
        let error = match self.work.error.read() {
            Ok(error) => error,
            Err(error) => {
                return Err(error);
            },
        };
        Ok(
            TaskRecord {
                run_id: self.run_id.clone(),
                kind: self.kind.clone(),
                input_digest: self.input_digest.clone(),
                label: copy_opt(&self.label),
                category: copy_opt(&self.category),
                status: text_of(status_to_str(&self.work.status)),
                attempt: self.work.attempt,
                input,
                output,
                error,
                started_at: copy_opt(&self.work.started_at),
                completed_at: copy_opt(&self.work.completed_at),
            },
        )
    }
}

impl TaskRow {
    fn passes_filters(&self, statuses: &Vec<String>, categories: &Vec<String>) -> (passed: bool)
        ensures
            passed == passes(self@, texts(statuses@), texts(categories@)),
    {
        if statuses.len() > 0 && !contains_text(
            statuses,
            &text_of(status_to_str(&self.work.status)),
        ) {
            return false;
        }
        if categories.len() > 0 {
            match &self.category {
                Some(category) => contains_text(categories, category),
                None => false,
            }
        } else {
            true
        }
    }
}

impl Ledger {
    /// Which of the tasks are wanted.
    fn flag_tasks(
        &self,
        prefix: &Vec<String>,
        statuses: &Vec<String>,
        categories: &Vec<String>,
    ) -> (flags: Vec<bool>)
        requires
            self.wf(),
        ensures
            flags@.len() == self.tasks.listed().len(),
            forall|i: int|
                0 <= i < flags@.len() ==> #[trigger] flags@[i] == wanted_tasks(
                    self@,
                    texts(prefix@),
                    texts(statuses@),
                    texts(categories@),
                )(self.tasks.listed()[i].key(), self.tasks.listed()[i]@),
    {
        let rows = self.tasks.rows();
        let mut flags: Vec<bool> = Vec::new();
        for i in 0..rows.len()
            invariant
                self.wf(),
                rows@ == self.tasks.listed(),
                flags@.len() == i,
                forall|j: int|
                    0 <= j < i ==> #[trigger] flags@[j] == wanted_tasks(
                        self@,
                        texts(prefix@),
                        texts(statuses@),
                        texts(categories@),
                    )(rows@[j].key(), rows@[j]@),
        {
            let row = &rows[i];
            flags.push(
                has_prefix(row, prefix) && self.current(row) && row.passes_filters(
                    statuses,
                    categories,
                ),
            );
        }
        flags
    }

    /// The current tasks whose keys begin with `prefix` and that pass the filters, as they are
    /// told.
    pub(crate) fn tell_tasks(
        &self,
        prefix: &Vec<String>,
        statuses: &Vec<String>,
        categories: &Vec<String>,
    ) -> (records: Result<Vec<TaskRecord>, Error>)
        requires
            self.wf(),
        ensures
            lists::<TaskRow>(
                self@.tasks,
                wanted_tasks(self@, texts(prefix@), texts(statuses@), texts(categories@)),
                list_view(records),
            ),
    {
        let flags = self.flag_tasks(prefix, statuses, categories);
        tell_flagged(
            self.tasks.rows(),
            &flags,
            Ghost(wanted_tasks(self@, texts(prefix@), texts(statuses@), texts(categories@))),
        )
    }

    /// The current tasks of a dataset that pass the request's filters.
    pub fn list_tasks(&self, req: ListRequest) -> (records: Result<Vec<TaskRecord>, Error>)
        requires
            self.wf(),
        ensures
            lists::<TaskRow>(
                self@.tasks,
                wanted_tasks(
                    self@,
                    seq![req.run_id@, req.kind@],
                    texts(req.statuses@),
                    texts(req.categories@),
                ),
                list_view(records),
            ),
    {
        self.tell_tasks(&key2(&req.run_id, &req.kind), &req.statuses, &req.categories)
    }
}

impl Ledger {
    /// Completes a task.
    pub fn complete_task_at(&mut self, req: CompleteTaskRequest, now: Moment) -> (done: Result<
        (),
        Error,
    >)
        requires
            old(self).wf(),
            now.valid(),
        ensures
            final(self).wf(),
            ({
                let key = seq![req.run_id@, req.kind@, req.input_digest@];
                let work = task_done(old(self)@.tasks[key].work, req.output@, now);
                &&& final(self)@ == task_changed(old(self)@, key, work).0
                &&& result_view(done) == task_changed(old(self)@, key, work).1
            }),
    {
        let key = key3(&req.run_id, &req.kind, &req.input_digest);
        match self.tasks.take(&key) {
            None => Err(Error::TaskNotFound),
            Some(mut row) => {
                row.work.status = Status::Succeeded;
                row.work.output_json = Some(req.output.into_text());
                row.work.error = StoredError::Absent;
                row.work.completed_at = Some(timestamp(now));
                row.work.updated_at = timestamp(now);
                self.tasks.put(row);
                assert(self@ =~= task_changed(old(self)@, texts(key@), row@.work).0);
                Ok(())
            },
        }
    }

    /// Reports that a task failed, which counts as an attempt.
    pub fn fail_task_at(&mut self, req: FailTaskRequest, now: Moment) -> (done: Result<(), Error>)
        requires
            old(self).wf(),
            now.valid(),
            ({
                let key = seq![req.run_id@, req.kind@, req.input_digest@];
                old(self)@.tasks.contains_key(key) ==> old(self)@.tasks[key].work.attempt
                    < u32::MAX
            }),
        ensures
            final(self).wf(),
            ({
                let key = seq![req.run_id@, req.kind@, req.input_digest@];
                let work = task_missed(
                    old(self)@.tasks[key].work,
                    req.error@,
                    req.max_attempts,
                    now,
                );
                &&& final(self)@ == task_changed(old(self)@, key, work).0
                &&& result_view(done) == task_changed(old(self)@, key, work).1
            }),
    {
        let key = key3(&req.run_id, &req.kind, &req.input_digest);
        match self.tasks.take(&key) {
            None => Err(Error::TaskNotFound),
            Some(mut row) => {
                let attempt: u32 = row.work.attempt + 1;
                row.work.status = if RetryPolicy::default().retries(&req.error) && attempt
                    < req.max_attempts {
                    Status::Failed
                } else {
                    Status::Terminal
                };
                row.work.attempt = attempt;
                row.work.error = StoredError::Present(req.error);
                row.work.completed_at = Some(timestamp(now));
                row.work.updated_at = timestamp(now);
                self.tasks.put(row);
                assert(self@ =~= task_changed(old(self)@, texts(key@), row@.work).0);
                Ok(())
            },
        }
    }

    /// Reports that a started task failed.
    pub fn fail_case_at(&mut self, req: FailCaseRequest, now: Moment) -> (done: Result<(), Error>)
        requires
            old(self).wf(),
            now.valid(),
        ensures
            final(self).wf(),
            ({
                let key = seq![req.run_id@, req.kind@, req.input_digest@];
                let work = case_missed(old(self)@.tasks[key].work, req.error@, now);
                &&& final(self)@ == task_changed(old(self)@, key, work).0
                &&& result_view(done) == task_changed(old(self)@, key, work).1
            }),
    {
        let key = key3(&req.run_id, &req.kind, &req.input_digest);
        match self.tasks.take(&key) {
            None => Err(Error::TaskNotFound),
            Some(mut row) => {
                row.work.status = if RetryPolicy::default().retries(&req.error) {
                    Status::Failed
                } else {
                    Status::Terminal
                };
                row.work.error = StoredError::Present(req.error);
                row.work.completed_at = Some(timestamp(now));
                row.work.updated_at = timestamp(now);
                self.tasks.put(row);
                assert(self@ =~= task_changed(old(self)@, texts(key@), row@.work).0);
                Ok(())
            },
        }
    }

    /// The place of the first of the current tasks whose keys begin with `prefix` and that pass the
    /// filters.
    fn first_wanted(
        &self,
        prefix: &Vec<String>,
        statuses: &Vec<String>,
        categories: &Vec<String>,
    ) -> (place: Option<usize>)
        requires
            self.wf(),
        ensures
            exists|keys: Seq<Seq<Seq<char>>>|
                #[trigger] is_listing::<TaskRow>(
                    self@.tasks,
                    wanted_tasks(self@, texts(prefix@), texts(statuses@), texts(categories@)),
                    keys,
                ) && stands_first(self.tasks.listed(), keys, place),
    {
        let flags = self.flag_tasks(prefix, statuses, categories);
        let ghost wanted = wanted_tasks(
            self@,
            texts(prefix@),
            texts(statuses@),
            texts(categories@),
        );
        let picks = pick(self.tasks.rows(), &flags, Ghost(wanted));
        let ghost keys = picked_keys(self.tasks.listed(), picks@);
        assert(is_listing::<TaskRow>(self@.tasks, wanted, keys));
        if picks.len() == 0 {
            return None;
        }
        assert(picks@[0] < self.tasks.listed().len());
        Some(picks[0])
    }

    /// Whether the first of the dataset's tasks that pass the request's filters, if there is one,
    /// has an attempt left to count.
    pub fn can_start_case(&self, req: &ListRequest) -> (can: bool)
        requires
            self.wf(),
        ensures
            can == startable(
                self@,
                seq![req.run_id@, req.kind@],
                texts(req.statuses@),
                texts(req.categories@),
            ),
    {
        let prefix = key2(&req.run_id, &req.kind);
        let place = self.first_wanted(&prefix, &req.statuses, &req.categories);
        proof {
            let wanted = wanted_tasks(
                self@,
                texts(prefix@),
                texts(req.statuses@),
                texts(req.categories@),
            );
            let first = choose|keys: Seq<Seq<Seq<char>>>| #[trigger]
                is_listing::<TaskRow>(self@.tasks, wanted, keys) && stands_first(
                    self.tasks.listed(),
                    keys,
                    place,
                );
            if let Some(at) = place {
                lemma_contents_at(self.tasks.listed(), at as int);
            }
            assert forall|keys: Seq<Seq<Seq<char>>>| #[trigger]
                is_listing::<TaskRow>(self@.tasks, wanted, keys) implies keys == first by {
                listing_is_unique::<TaskRow>(self@.tasks, wanted, keys, first);
            }
        }
        match place {
            None => true,
            Some(at) => self.tasks.rows()[at].work.attempt < u32::MAX,
        }
    }

    /// Starts the first of the dataset's tasks that pass the request's filters, if there is one.
    pub fn start_case_at(&mut self, req: ListRequest, now: Moment) -> (started: Result<
        Option<TaskRecord>,
        Error,
    >)
        requires
            old(self).wf(),
            now.valid(),
            startable(
                old(self)@,
                seq![req.run_id@, req.kind@],
                texts(req.statuses@),
                texts(req.categories@),
            ),
        ensures
            final(self).wf(),
            starts_first(
                old(self)@,
                seq![req.run_id@, req.kind@],
                texts(req.statuses@),
                texts(req.categories@),
                now,
                final(self)@,
                opt_view(started),
            ),
    {
        let prefix = key2(&req.run_id, &req.kind);
        let place = self.first_wanted(&prefix, &req.statuses, &req.categories);
        let ghost wanted = wanted_tasks(
            self@,
            texts(prefix@),
            texts(req.statuses@),
            texts(req.categories@),
        );
        let ghost keys = choose|keys: Seq<Seq<Seq<char>>>| #[trigger]
            is_listing::<TaskRow>(self@.tasks, wanted, keys) && stands_first(
                self.tasks.listed(),
                keys,
                place,
            );
        let at: usize = match place {
            Some(at) => at,
            None => {
                return Ok(None);
            },
        };
        proof {
            lemma_contents_at(self.tasks.listed(), at as int);
        }
        let row = &self.tasks.rows()[at];
        let key = key3(&row.run_id, &row.kind, &row.input_digest);
        assert(texts(key@) =~= keys[0]);
        let record = match row.record() {
            Ok(record) => record,
            Err(error) => {
                return Err(error);
            },
        };
        match self.tasks.take(&key) {
            None => Ok(None),
            Some(mut row) => {
                row.work.status = Status::Running;
                row.work.attempt = row.work.attempt + 1;
                if row.work.started_at.is_none() {
                    row.work.started_at = Some(timestamp(now));
                }
                row.work.updated_at = timestamp(now);
                let told = TaskRecord {
                    status: text_of(status_to_str(&row.work.status)),
                    attempt: row.work.attempt,
                    started_at: copy_opt(&row.work.started_at),
                    ..record
                };
                self.tasks.put(row);
                assert(self@ =~= first_started(old(self)@, keys, now).0);
                Ok(Some(told))
            },
        }
    }
}

/// What a result with an optional value says.
pub open spec fn opt_view<T: View>(result: Result<Option<T>, Error>) -> Result<
    Option<T::V>,
    Fault,
> {
    match result {
        Ok(Some(value)) => Ok(Some(value@)),
        Ok(None) => Ok(None),
        Err(error) => Err(error@),
    }
}

} // verus!
