use durable_evals::error::Error;
use durable_evals::failure::{ErrorInfo, FailureClass};
use durable_evals::json::Json;
use durable_evals::ledger::Ledger;
use durable_evals::retry::RetryPolicy;
use durable_evals::time::Moment;
use durable_evals::types::{
    BeginRequest, CompleteRequest, FailRequest, HeartbeatRequest, ListRequest,
    RegisterDatasetRequest, TaskInput,
};
use durable_evals::work::Outcome;

fn json(text: &str) -> Json {
    Json::parse(text).expect("a JSON value")
}

fn at(secs: i64) -> Moment {
    Moment { secs, nanos: 0 }
}

fn begin(kind: &str, worker: &str) -> BeginRequest {
    BeginRequest {
        run_id: "run".to_string(),
        kind: kind.to_string(),
        input_digest: "a".to_string(),
        config: Json::null(),
        dependencies: vec!["prepare".to_string()],
        retry: RetryPolicy::default(),
        worker_id: Some(worker.to_string()),
        lease_seconds: Some(60),
    }
}

fn complete(kind: &str, attempt: Option<u32>, worker: Option<&str>) -> CompleteRequest {
    CompleteRequest {
        run_id: "run".to_string(),
        kind: kind.to_string(),
        input_digest: "a".to_string(),
        attempt,
        worker_id: worker.map(|w| w.to_string()),
        output: json("{\"ok\": true}"),
    }
}

fn fail(kind: &str, attempt: Option<u32>, worker: Option<&str>) -> FailRequest {
    FailRequest {
        run_id: "run".to_string(),
        kind: kind.to_string(),
        input_digest: "a".to_string(),
        attempt,
        worker_id: worker.map(|w| w.to_string()),
        error: ErrorInfo {
            error_type: "RuntimeError".to_string(),
            message: "boom".to_string(),
            failure_class: FailureClass::Transient,
            stack: Some("trace".to_string()),
            retryable: None,
        },
    }
}

fn beat(kind: &str, worker: &str) -> HeartbeatRequest {
    HeartbeatRequest {
        run_id: "run".to_string(),
        kind: kind.to_string(),
        input_digest: "a".to_string(),
        worker_id: worker.to_string(),
        lease_seconds: 60,
    }
}

fn with_dataset() -> Ledger {
    let mut store = Ledger::new();
    store
        .register_dataset(RegisterDatasetRequest {
            run_id: "run".to_string(),
            kind: "dataset".to_string(),
            tasks: vec![TaskInput {
                input_digest: "a".to_string(),
                input: json("{\"x\": 1}"),
                label: None,
                category: None,
            }],
        })
        .expect("register");
    store
}

#[test]
fn steps_and_tasks_take_the_same_path() {
    for kind in ["step", "dataset"] {
        let mut store = with_dataset();
        assert_eq!(
            store.begin_at(begin(kind, "w"), at(0)),
            Ok(Outcome::Execute { attempt: 1 })
        );
        assert_eq!(store.begin_at(begin(kind, "v"), at(59)), Ok(Outcome::InProgress));
        assert_eq!(store.heartbeat_at(beat(kind, "w"), at(59)), Ok(true));
        assert_eq!(store.heartbeat_at(beat(kind, "v"), at(59)), Ok(false));
        assert_eq!(store.begin_at(begin(kind, "v"), at(118)), Ok(Outcome::InProgress));
        assert_eq!(store.fail_at(fail(kind, Some(1), Some("w")), at(118), 0), Ok(()));
        assert_eq!(store.failures.len(), 1);
        assert_eq!(store.failures[0].step_name, kind);
        assert_eq!(
            store.begin_at(begin(kind, "v"), at(119)),
            Ok(Outcome::Execute { attempt: 2 })
        );
        assert_eq!(store.complete_at(complete(kind, Some(2), Some("v")), at(120)), Ok(()));
        assert_eq!(
            store.begin_at(begin(kind, "w"), at(121)),
            Ok(Outcome::SkipCompleted { output: json("{\"ok\": true}") })
        );
    }
}

#[test]
fn tasks_stay_in_their_dataset() {
    let mut store = with_dataset();
    store.begin(begin("dataset", "w")).expect("begin");
    assert_eq!(store.steps.len(), 0);
    let listed = store
        .list(ListRequest {
            run_id: "run".to_string(),
            kind: "dataset".to_string(),
            statuses: vec!["running".to_string()],
            categories: vec![],
        })
        .expect("list");
    assert_eq!(listed.len(), 1);
    assert_eq!(listed[0].attempt, 1);
}

#[test]
fn a_lost_claim_changes_nothing() {
    for kind in ["step", "dataset"] {
        let mut store = with_dataset();
        store.begin_at(begin(kind, "w"), at(0)).expect("begin");
        store.begin_at(begin(kind, "v"), at(60)).expect("take over");
        assert_eq!(
            store.complete_at(complete(kind, Some(1), None), at(61)),
            Err(Error::TaskClaimLost)
        );
        assert_eq!(
            store.complete_at(complete(kind, None, Some("w")), at(61)),
            Err(Error::TaskClaimLost)
        );
        assert_eq!(
            store.fail_at(fail(kind, Some(2), Some("w")), at(61), 0),
            Err(Error::TaskClaimLost)
        );
        assert_eq!(store.failures.len(), 0);
        assert_eq!(store.begin_at(begin(kind, "w"), at(61)), Ok(Outcome::InProgress));
        assert_eq!(store.complete_at(complete(kind, Some(2), Some("v")), at(62)), Ok(()));
    }
}

#[test]
fn unknown_work_is_not_found() {
    let mut store = Ledger::new();
    assert_eq!(store.complete(complete("step", None, None)), Err(Error::TaskNotFound));
    assert_eq!(store.fail(fail("step", None, None)), Err(Error::TaskNotFound));
    assert_eq!(store.heartbeat(beat("step", "w")), Ok(false));
}

#[test]
fn a_request_without_claim_is_taken() {
    let mut store = Ledger::new();
    store.begin(begin("step", "w")).expect("begin");
    assert_eq!(store.complete(complete("step", None, None)), Ok(()));
}

#[test]
fn other_runs_are_left_alone() {
    let mut store = Ledger::new();
    store.begin_at(begin("step", "w"), at(0)).expect("begin");
    let mut other = begin("step", "v");
    other.run_id = "other".to_string();
    assert_eq!(store.begin_at(other, at(1)), Ok(Outcome::Execute { attempt: 1 }));
    let mut done = complete("step", None, None);
    done.run_id = "other".to_string();
    store.complete_at(done, at(2)).expect("complete");
    assert_eq!(store.begin_at(begin("step", "v"), at(3)), Ok(Outcome::InProgress));
}

#[test]
fn results_stay_until_reported_on() {
    let mut store = with_dataset();
    for kind in ["step", "dataset"] {
        store.begin_at(begin(kind, "w"), at(0)).expect("begin");
        store.complete_at(complete(kind, None, None), at(1)).expect("complete");
        let mut elsewhere = begin(kind, "w");
        elsewhere.input_digest = "other".to_string();
        store.begin_at(elsewhere, at(2)).expect("begin other work");
        assert_eq!(store.heartbeat_at(beat(kind, "w"), at(2)), Ok(false));
        let mut again = begin(kind, "v");
        again.retry.max_attempts = 0;
        let skipped = Outcome::SkipCompleted { output: json("{\"ok\": true}") };
        assert_eq!(store.begin_at(again, at(3)), Ok(skipped));
    }
    let mut last = fail("step", None, None);
    last.error.retryable = Some(false);
    let error = last.error.clone();
    store.fail_at(last, at(4), 0).expect("fail");
    assert_eq!(
        store.begin_at(begin("step", "w"), at(5)),
        Ok(Outcome::FailedTerminal { error })
    );
}
