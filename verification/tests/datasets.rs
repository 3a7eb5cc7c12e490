use durable_evals::error::Error;
use durable_evals::failure::{ErrorInfo, FailureClass};
use durable_evals::json::Json;
use durable_evals::ledger::Ledger;
use durable_evals::retry::RetryPolicy;
use durable_evals::time::Moment;
use durable_evals::types::{
    BeginRequest, CompleteTaskRequest, DatasetSummary, FailCaseRequest, FailTaskRequest, ListRequest,
    RegisterDatasetRequest, TaskInput, TaskRecord,
};
use durable_evals::work::{Outcome, Status, StoredError};

fn store() -> Ledger {
    Ledger::new()
}

fn json(text: &str) -> Json {
    Json::parse(text).expect("a JSON value")
}

fn at(secs: i64) -> Moment {
    Moment { secs, nanos: 0 }
}

fn task(digest: &str, input: Json) -> TaskInput {
    TaskInput {
        input_digest: digest.to_string(),
        input,
        label: None,
        category: None,
    }
}

fn categorized(digest: &str, input: Json, category: &str) -> TaskInput {
    TaskInput {
        input_digest: digest.to_string(),
        input,
        label: None,
        category: Some(category.to_string()),
    }
}

fn register(store: &mut Ledger, tasks: Vec<TaskInput>) -> DatasetSummary {
    store
        .register_dataset(RegisterDatasetRequest {
            run_id: "run".to_string(),
            kind: "dataset".to_string(),
            tasks,
        })
        .expect("register dataset")
}

fn list_req(statuses: Vec<String>, categories: Vec<String>) -> ListRequest {
    ListRequest {
        run_id: "run".to_string(),
        kind: "dataset".to_string(),
        statuses,
        categories,
    }
}

fn list(store: &Ledger, statuses: Vec<String>, categories: Vec<String>) -> Vec<TaskRecord> {
    store.list_tasks(list_req(statuses, categories)).expect("list tasks")
}

fn complete_req(digest: &str, output: &str) -> CompleteTaskRequest {
    CompleteTaskRequest {
        run_id: "run".to_string(),
        kind: "dataset".to_string(),
        input_digest: digest.to_string(),
        output: json(output),
    }
}

fn key(digest: &str) -> Vec<String> {
    vec!["run".to_string(), "dataset".to_string(), digest.to_string()]
}

#[test]
fn identical_inputs_collapse_to_one_task() {
    let mut store = store();
    let summary = register(
        &mut store,
        vec![task("a", json("{\"x\": 1}")), task("a", json("{\"x\": 1}"))],
    );
    assert_eq!(summary.total, 1);
    assert_eq!(summary.pending, 1);
}

#[test]
fn sqlite_changed_input_invalidates_and_revert_reuses_output() {
    let mut store = store();
    register(&mut store, vec![task("a", json("{\"x\": 1}"))]);
    store
        .complete_task(complete_req("a", "{\"ok\": true}"))
        .expect("complete task");

    // Edited input gets a fresh pending task; the stale success no longer counts.
    let summary = register(&mut store, vec![task("b", json("{\"x\": 2}"))]);
    assert_eq!(summary.total, 1);
    assert_eq!(summary.pending, 1);
    assert_eq!(summary.succeeded, 0);

    // Reverting to the original input salvages its completed output.
    let summary = register(&mut store, vec![task("a", json("{\"x\": 1}"))]);
    assert_eq!(summary.total, 1);
    assert_eq!(summary.succeeded, 1);
    let tasks = list(&store, vec![], vec![]);
    assert_eq!(tasks.len(), 1);
    assert_eq!(tasks[0].output, Some(json("{\"ok\": true}")));
}

#[test]
fn list_tasks_filters_by_category() {
    let mut store = store();
    register(
        &mut store,
        vec![
            categorized("a", json("{\"x\": 1}"), "math"),
            categorized("b", json("{\"x\": 2}"), "code"),
            categorized("c", json("{\"x\": 3}"), "math"),
        ],
    );
    let math = list(&store, vec![], vec!["math".to_string()]);
    assert_eq!(math.len(), 2);
    assert!(math.iter().all(|t| t.category.as_deref() == Some("math")));
    let all = list(&store, vec![], vec![]);
    assert_eq!(all.len(), 3);
}

fn fail_task_req(max_attempts: u32) -> FailTaskRequest {
    FailTaskRequest {
        run_id: "run".to_string(),
        kind: "dataset".to_string(),
        input_digest: "a".to_string(),
        error: ErrorInfo {
            error_type: "RuntimeError".to_string(),
            message: "boom".to_string(),
            failure_class: FailureClass::Transient,
            stack: None,
            retryable: Some(true),
        },
        max_attempts,
    }
}

#[test]
fn task_goes_terminal_after_max_attempts() {
    let mut store = store();
    register(&mut store, vec![task("a", json("{\"x\": 1}"))]);

    store.fail_task(fail_task_req(2)).expect("first failure");
    let failed = list(&store, vec!["failed".to_string()], vec![]);
    assert_eq!(failed.len(), 1, "first failure stays retryable");
    assert_eq!(failed[0].attempt, 1);

    store.fail_task(fail_task_req(2)).expect("second failure");
    let terminal = list(&store, vec!["terminal".to_string()], vec![]);
    assert_eq!(terminal.len(), 1, "ceiling reached marks terminal");
    assert_eq!(terminal[0].attempt, 2);
}

#[test]
fn first_of_identical_inputs_wins() {
    let mut store = store();
    let mut first = task("a", json("1"));
    first.label = Some("one".to_string());
    let mut second = task("a", json("2"));
    second.label = Some("two".to_string());
    register(&mut store, vec![task("z", json("0")), first, second, task("b", json("3"))]);
    let tasks = list(&store, vec![], vec![]);
    let digests: Vec<&str> = tasks.iter().map(|t| t.input_digest.as_str()).collect();
    assert_eq!(digests, vec!["z", "a", "b"]);
    assert_eq!(tasks[1].label, Some("one".to_string()));
    assert_eq!(tasks[1].input, json("1"));
    assert_eq!(store.tasks.get(&key("b")).expect("the task").position, 3);
}

#[test]
fn registering_again_moves_and_relabels() {
    let mut store = store();
    register(&mut store, vec![task("a", json("1")), task("b", json("2"))]);
    store.complete_task(complete_req("a", "7")).expect("complete");
    let mut again = categorized("a", json("1"), "math");
    again.label = Some("new".to_string());
    let summary = register(&mut store, vec![task("b", json("2")), again]);
    assert_eq!(
        summary,
        DatasetSummary { total: 2, pending: 1, running: 0, succeeded: 1, failed: 0, terminal: 0 }
    );
    let tasks = list(&store, vec![], vec![]);
    assert_eq!(tasks[0].input_digest, "b");
    assert_eq!(tasks[1].label, Some("new".to_string()));
    assert_eq!(tasks[1].category, Some("math".to_string()));
    assert_eq!(tasks[1].output, Some(json("7")));
    assert_eq!(tasks[1].status, "succeeded");
}

#[test]
fn rows_of_earlier_registrations_stay() {
    let mut store = store();
    register(&mut store, vec![task("a", json("1"))]);
    register(&mut store, vec![]);
    assert_eq!(list(&store, vec![], vec![]).len(), 0);
    assert_eq!(store.tasks.len(), 1);
    let counts = store.dataset_summary("run", "dataset").expect("summary");
    assert_eq!(counts.total, 0);
    let elsewhere = store.dataset_summary("run", "other").expect("summary");
    assert_eq!(elsewhere.total, 0);
}

#[test]
fn the_last_generation_is_the_last() {
    let mut store = store();
    register(&mut store, vec![task("a", json("1"))]);
    let at_key = vec!["run".to_string(), "dataset".to_string()];
    let mut dataset = store.datasets.take(&at_key).expect("the dataset");
    dataset.generation = u32::MAX;
    store.datasets.put(dataset);
    let refused = store.register_dataset(RegisterDatasetRequest {
        run_id: "run".to_string(),
        kind: "dataset".to_string(),
        tasks: vec![task("b", json("2"))],
    });
    assert_eq!(
        refused,
        Err(Error::Sqlite("Integer 4294967296 out of range at index 0".to_string()))
    );
    assert_eq!(store.tasks.len(), 1);
}

#[test]
fn plain_exception_ends_a_task() {
    let mut store = store();
    register(&mut store, vec![task("a", json("1"))]);
    let mut req = fail_task_req(5);
    req.error.retryable = None;
    req.error.failure_class = FailureClass::ResourceUnavailable;
    store.fail_task(req.clone()).expect("fail");
    assert_eq!(list(&store, vec!["failed".to_string()], vec![]).len(), 1);
    req.error.failure_class = FailureClass::EvalException;
    store.fail_task(req).expect("fail");
    let ended = list(&store, vec!["terminal".to_string()], vec![]);
    assert_eq!(ended.len(), 1);
    assert_eq!(ended[0].attempt, 2);
    assert_eq!(ended[0].error.as_ref().map(|e| e.message.as_str()), Some("boom"));
}

#[test]
fn unknown_tasks_are_not_found() {
    let mut store = store();
    assert_eq!(store.complete_task(complete_req("a", "1")), Err(Error::TaskNotFound));
    assert_eq!(store.fail_task(fail_task_req(2)), Err(Error::TaskNotFound));
    assert_eq!(
        store.fail_case(FailCaseRequest {
            run_id: "run".to_string(),
            kind: "dataset".to_string(),
            input_digest: "a".to_string(),
            error: fail_task_req(2).error,
        }),
        Err(Error::TaskNotFound)
    );
}

#[test]
fn completion_is_stamped() {
    let mut store = store();
    let req = RegisterDatasetRequest {
        run_id: "run".to_string(),
        kind: "dataset".to_string(),
        tasks: vec![task("a", json("1"))],
    };
    store.register_dataset_at(req, at(5)).expect("register");
    store.complete_task_at(complete_req("a", "[ ]"), at(65)).expect("complete");
    let row = store.tasks.get(&key("a")).expect("the task");
    assert_eq!(row.created_at, "1970-01-01 00:00:05");
    assert_eq!(row.work.completed_at, Some("1970-01-01 00:01:05".to_string()));
    assert_eq!(row.work.updated_at, "1970-01-01 00:01:05");
    assert_eq!(row.work.output_json, Some("[]".to_string()));
}

#[test]
fn statuses_and_categories_filter_together() {
    let mut store = store();
    register(
        &mut store,
        vec![
            categorized("a", json("1"), "math"),
            categorized("b", json("2"), "math"),
            task("c", json("3")),
        ],
    );
    store.complete_task(complete_req("b", "1")).expect("complete");
    let found = list(
        &store,
        vec!["succeeded".to_string(), "failed".to_string()],
        vec!["math".to_string()],
    );
    assert_eq!(found.len(), 1);
    assert_eq!(found[0].input_digest, "b");
    assert_eq!(list(&store, vec![], vec!["code".to_string()]).len(), 0);
    assert_eq!(list(&store, vec!["odd".to_string()], vec![]).len(), 0);
}

#[test]
fn a_damaged_row_fails_the_list() {
    let mut store = store();
    register(&mut store, vec![task("a", json("1")), task("b", json("2"))]);
    let mut row = store.tasks.take(&key("b")).expect("the task");
    row.work.error = StoredError::Damaged("oops".to_string());
    store.tasks.put(row);
    assert_eq!(
        store.list_tasks(list_req(vec![], vec![])),
        Err(Error::Sqlite(
            "Conversion error from type Text at index: 0, oops".to_string()
        ))
    );
}

#[test]
fn cases_are_started_in_order() {
    let mut store = store();
    register(&mut store, vec![task("b", json("1")), task("a", json("2"))]);
    let pending = list_req(vec!["pending".to_string()], vec![]);
    let first = store
        .start_case_at(pending.clone(), at(10))
        .expect("start")
        .expect("a case");
    assert_eq!(first.input_digest, "b");
    assert_eq!(first.status, "running");
    assert_eq!(first.attempt, 1);
    assert_eq!(first.started_at, Some("1970-01-01 00:00:10".to_string()));
    let second = store
        .start_case_at(pending.clone(), at(11))
        .expect("start")
        .expect("a case");
    assert_eq!(second.input_digest, "a");
    assert_eq!(store.start_case(pending), Ok(None));
    store
        .fail_case(FailCaseRequest {
            run_id: "run".to_string(),
            kind: "dataset".to_string(),
            input_digest: "b".to_string(),
            error: fail_task_req(0).error,
        })
        .expect("fail");
    let row = store.tasks.get(&key("b")).expect("the task");
    assert_eq!(row.work.status, Status::Failed);
    assert_eq!(row.work.attempt, 1);
    let again = store
        .start_case_at(list_req(vec!["failed".to_string()], vec![]), at(20))
        .expect("start")
        .expect("a case");
    assert_eq!(again.attempt, 2);
    assert_eq!(again.started_at, Some("1970-01-01 00:00:10".to_string()));
}

#[test]
fn a_rerun_skips_completed_tasks() {
    let mut store = store();
    register(&mut store, vec![task("a", json("1")), task("b", json("2"))]);
    store.complete_task(complete_req("a", "{\"score\": 0.5}")).expect("complete");
    register(&mut store, vec![task("a", json("1")), task("b", json("2"))]);
    let begin = |digest: &str| BeginRequest {
        run_id: "run".to_string(),
        kind: "dataset".to_string(),
        input_digest: digest.to_string(),
        config: Json::null(),
        dependencies: vec!["prep".to_string(), "load".to_string()],
        retry: RetryPolicy::default(),
        worker_id: None,
        lease_seconds: None,
    };
    assert_eq!(
        store.begin(begin("a")),
        Ok(Outcome::SkipCompleted { output: json("{\"score\": 0.5}") })
    );
    assert_eq!(store.begin(begin("b")), Ok(Outcome::Execute { attempt: 1 }));
    let row = store.tasks.get(&key("b")).expect("the task");
    assert_eq!(row.work.dependencies_json, "[\"prep\",\"load\"]");
    assert_eq!(row.work.variants_json, "{}");
    assert_eq!(row.work.config_json, "null");
}

#[test]
fn other_datasets_are_left_alone() {
    let mut store = store();
    register(&mut store, vec![task("a", json("1"))]);
    let other = |tasks: Vec<TaskInput>| RegisterDatasetRequest {
        run_id: "run".to_string(),
        kind: "other".to_string(),
        tasks,
    };
    store.register_dataset(other(vec![task("a", json("2"))])).expect("register");
    let summary = store.register_dataset(other(vec![])).expect("register");
    assert_eq!(summary.total, 0);
    let tasks = list(&store, vec![], vec![]);
    assert_eq!(tasks.len(), 1);
    assert_eq!(tasks[0].input, json("1"));
}

#[test]
fn a_registration_is_listed_in_order() {
    let mut store = store();
    register(&mut store, vec![task("z", json("0")), task("m", json("1"))]);
    let summary = register(
        &mut store,
        vec![
            categorized("m", json("1"), "first"),
            categorized("c", json("2"), "second"),
            categorized("m", json("1"), "again"),
            categorized("a", json("3"), "third"),
            categorized("c", json("2"), "again"),
        ],
    );
    let tasks = list(&store, vec![], vec![]);
    let told: Vec<(&str, Option<&str>)> = tasks
        .iter()
        .map(|task| (task.input_digest.as_str(), task.category.as_deref()))
        .collect();
    assert_eq!(
        told,
        vec![("m", Some("first")), ("c", Some("second")), ("a", Some("third"))]
    );
    assert_eq!(summary.total, 3);
    assert_eq!(summary.pending, 3);
}

#[test]
fn only_the_first_wanted_task_needs_an_attempt_left() {
    let mut store = store();
    register(&mut store, vec![task("a", json("1")), categorized("b", json("2"), "slow")]);
    let mut row = store.tasks.take(&key("a")).expect("a task");
    row.work.attempt = u32::MAX;
    store.tasks.put(row);
    assert!(!store.can_start_case(&list_req(vec![], vec![])));
    let slow = list_req(vec![], vec!["slow".to_string()]);
    assert!(store.can_start_case(&slow));
    let started = store.start_case_at(slow, at(0)).expect("start").expect("a task");
    assert_eq!((started.input_digest.as_str(), started.attempt), ("b", 1));
    assert!(store.can_start_case(&list_req(vec!["failed".to_string()], vec![])));
}
