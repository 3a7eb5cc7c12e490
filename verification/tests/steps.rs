use durable_evals::error::Error;
use durable_evals::failure::{ErrorInfo, FailureClass};
use durable_evals::json::Json;
use durable_evals::ledger::Ledger;
use durable_evals::retry::RetryPolicy;
use durable_evals::time::Moment;
use durable_evals::types::{
    Artifact, BeginStepRequest, CompleteStepRequest, FailStepRequest, HeartbeatStepRequest,
};
use durable_evals::work::{parse_status, status_to_str, Outcome, Status, StoredError};

fn store() -> Ledger {
    Ledger::new()
}

fn json(text: &str) -> Json {
    Json::parse(text).expect("a JSON value")
}

fn begin_req() -> BeginStepRequest {
    BeginStepRequest {
        run_id: "run".to_string(),
        step_name: "step".to_string(),
        input_digest: "digest".to_string(),
        config: Json::null(),
        dependencies: vec![],
        variants: json("{}"),
        retry: RetryPolicy::default(),
        worker_id: None,
        lease_seconds: None,
    }
}

fn fail_req() -> FailStepRequest {
    FailStepRequest {
        run_id: "run".to_string(),
        step_name: "step".to_string(),
        input_digest: "digest".to_string(),
        error: ErrorInfo {
            error_type: "RuntimeError".to_string(),
            message: "temporary failure".to_string(),
            failure_class: FailureClass::Transient,
            stack: None,
            retryable: Some(true),
        },
    }
}

#[test]
fn sqlite_running_step_reports_in_progress() {
    let mut store = store();
    assert!(matches!(
        store.begin_step(begin_req()).expect("begin first step"),
        Outcome::Execute { attempt: 1 }
    ));
    assert!(matches!(
        store.begin_step(begin_req()).expect("begin running step"),
        Outcome::InProgress
    ));
}

#[test]
fn sqlite_failed_step_retries_on_next_begin() {
    let mut store = store();
    store.begin_step(begin_req()).expect("begin step");
    store.fail_step(fail_req()).expect("mark step failed");
    assert!(matches!(
        store.begin_step(begin_req()).expect("retry failed step"),
        Outcome::Execute { attempt: 2 }
    ));
}

#[test]
fn sqlite_completed_step_skips_with_output() {
    let mut store = store();
    store.begin_step(begin_req()).expect("begin step");
    store
        .complete_step(CompleteStepRequest {
            run_id: "run".to_string(),
            step_name: "step".to_string(),
            input_digest: "digest".to_string(),
            output: json("{\"ok\": true}"),
            artifacts: vec![],
        })
        .expect("complete step");
    assert!(matches!(
        store.begin_step(begin_req()).expect("begin completed step"),
        Outcome::SkipCompleted { output } if output == json("{\"ok\": true}")
    ));
}

#[test]
fn failed_step_with_backoff_reports_retry_later() {
    let mut store = store();
    let mut req = begin_req();
    req.retry = RetryPolicy {
        max_attempts: 3,
        base_delay_ms: 60_000,
        ..RetryPolicy::default()
    };
    assert!(matches!(
        store.begin_step(req.clone()).expect("begin step"),
        Outcome::Execute { attempt: 1 }
    ));
    store.fail_step(fail_req()).expect("mark step failed");
    assert!(
        matches!(
            store.begin_step(req).expect("begin during backoff"),
            Outcome::RetryLater { .. }
        ),
        "backoff window should defer the retry"
    );
}

fn at(secs: i64) -> Moment {
    Moment { secs, nanos: 0 }
}

fn claim_for(worker: &str, seconds: u32) -> BeginStepRequest {
    BeginStepRequest {
        worker_id: Some(worker.to_string()),
        lease_seconds: Some(seconds),
        ..begin_req()
    }
}

fn beat(worker: &str, seconds: u32) -> HeartbeatStepRequest {
    HeartbeatStepRequest {
        run_id: "run".to_string(),
        step_name: "step".to_string(),
        input_digest: "digest".to_string(),
        worker_id: worker.to_string(),
        lease_seconds: seconds,
    }
}

fn step_key() -> Vec<String> {
    vec!["run".to_string(), "step".to_string(), "digest".to_string()]
}

fn done_req(output: &str) -> CompleteStepRequest {
    CompleteStepRequest {
        run_id: "run".to_string(),
        step_name: "step".to_string(),
        input_digest: "digest".to_string(),
        output: json(output),
        artifacts: vec![],
    }
}

fn artifact(id: &str, size: u64) -> Artifact {
    Artifact {
        artifact_id: id.to_string(),
        name: "log".to_string(),
        kind: "text".to_string(),
        path: Some("out/log.txt".to_string()),
        inline_json: Some(json("[1, 2]")),
        sha256: "00".to_string(),
        size,
        valid: true,
    }
}

#[test]
fn lease_holds_off_others_and_then_lapses() {
    let mut store = store();
    let first = store.begin_step_at(claim_for("a", 60), at(1000)).expect("begin");
    assert_eq!(first, Outcome::Execute { attempt: 1 });
    let held = store.begin_step_at(claim_for("b", 60), at(1059)).expect("begin held");
    assert_eq!(held, Outcome::InProgress);
    let taken = store.begin_step_at(claim_for("b", 60), at(1060)).expect("begin lapsed");
    assert_eq!(taken, Outcome::Execute { attempt: 2 });
    let row = store.steps.get(&step_key()).expect("the step");
    assert_eq!(row.work.lease_owner, Some("b".to_string()));
    assert_eq!(row.work.lease_expires_at, Some("1970-01-01 00:18:40".to_string()));
    assert_eq!(row.work.lease_acquired_at, Some("1970-01-01 00:17:40".to_string()));
    assert_eq!(row.work.started_at, Some("1970-01-01 00:16:40".to_string()));
}

#[test]
fn default_lease_is_five_minutes() {
    let mut store = store();
    store.begin_step_at(begin_req(), at(0)).expect("begin");
    let row = store.steps.get(&step_key()).expect("the step");
    assert_eq!(row.work.lease_expires_at, Some("1970-01-01 00:05:00".to_string()));
    assert_eq!(
        store.begin_step_at(begin_req(), at(299)).expect("begin held"),
        Outcome::InProgress
    );
    assert_eq!(
        store.begin_step_at(begin_req(), at(300)).expect("begin lapsed"),
        Outcome::Execute { attempt: 2 }
    );
}

#[test]
fn lease_past_the_last_year_is_not_kept() {
    let mut store = store();
    let end = 253_402_300_799;
    store.begin_step_at(claim_for("a", 1), at(end)).expect("begin");
    let row = store.steps.get(&step_key()).expect("the step");
    assert_eq!(row.work.lease_expires_at, None);
    assert_eq!(row.work.lease_acquired_at, Some("9999-12-31 23:59:59".to_string()));
}

#[test]
fn heartbeat_is_kept_for_the_owner_only() {
    let mut store = store();
    store.begin_step_at(claim_for("a", 60), at(1000)).expect("begin");
    assert_eq!(store.heartbeat_step_at(beat("b", 60), at(1050)), Ok(false));
    assert_eq!(store.heartbeat_step_at(beat("a", 60), at(1050)), Ok(true));
    assert_eq!(
        store.begin_step_at(claim_for("b", 60), at(1109)).expect("begin held"),
        Outcome::InProgress
    );
    let row = store.steps.get(&step_key()).expect("the step");
    assert_eq!(row.work.heartbeat_at, Some("1970-01-01 00:17:30".to_string()));
    store.complete_step_at(done_req("1"), at(1060)).expect("complete");
    assert_eq!(store.heartbeat_step_at(beat("a", 60), at(1061)), Ok(false));
    assert_eq!(Ledger::new().heartbeat_step(beat("a", 60)), Ok(false));
}

#[test]
fn attempts_run_out() {
    let mut store = store();
    for attempt in 1..3 {
        assert_eq!(
            store.begin_step_at(begin_req(), at(0)).expect("begin"),
            Outcome::Execute { attempt }
        );
        store.fail_step_at(fail_req(), at(1), 0).expect("fail");
    }
    let ended = store.begin_step_at(begin_req(), at(2)).expect("begin used up");
    let exceeded = ErrorInfo {
        error_type: "MaxAttemptsExceeded".to_string(),
        message: "step exceeded retry policy max_attempts".to_string(),
        failure_class: FailureClass::DurableHarnessError,
        stack: None,
        retryable: Some(false),
    };
    assert_eq!(ended, Outcome::FailedTerminal { error: exceeded });
    assert_eq!(
        store.begin_step_at(begin_req(), at(3)).expect("begin ended"),
        Outcome::FailedTerminal { error: fail_req().error }
    );
}

#[test]
fn plain_exception_is_terminal() {
    let mut store = store();
    store.begin_step(begin_req()).expect("begin");
    let mut req = fail_req();
    req.error.failure_class = FailureClass::EvalException;
    req.error.retryable = None;
    let error = req.error.clone();
    store.fail_step(req).expect("fail");
    assert_eq!(
        store.begin_step(begin_req()).expect("begin again"),
        Outcome::FailedTerminal { error }
    );
}

#[test]
fn policy_decides_what_is_retried() {
    let mut store = store();
    let mut req = begin_req();
    req.retry.retryable = vec![FailureClass::EvalException, FailureClass::Transient];
    req.retry.terminal = vec![FailureClass::Transient];
    store.begin_step(req.clone()).expect("begin");
    let mut failure = fail_req();
    failure.error.retryable = None;
    failure.error.failure_class = FailureClass::EvalException;
    store.fail_step(failure.clone()).expect("fail");
    assert_eq!(store.begin_step(req.clone()), Ok(Outcome::Execute { attempt: 2 }));
    failure.error.failure_class = FailureClass::Transient;
    store.fail_step(failure.clone()).expect("fail");
    assert_eq!(
        store.begin_step(req),
        Ok(Outcome::FailedTerminal { error: failure.error })
    );
}

#[test]
fn unreadable_policy_counts_as_the_default() {
    let mut store = store();
    store.begin_step_at(begin_req(), at(0)).expect("begin");
    let mut row = store.steps.take(&step_key()).expect("the step");
    row.work.retry = None;
    store.steps.put(row);
    let mut failure = fail_req();
    failure.error.retryable = None;
    store.fail_step_at(failure, at(1), 0).expect("fail");
    let row = store.steps.get(&step_key()).expect("the step");
    assert_eq!(row.work.status, Status::Failed);
}

#[test]
fn final_failure_without_report_is_told_as_such() {
    let mut store = store();
    store.begin_step_at(begin_req(), at(0)).expect("begin");
    let mut row = store.steps.take(&step_key()).expect("the step");
    row.work.status = Status::Terminal;
    store.steps.put(row);
    match store.begin_step_at(begin_req(), at(1)) {
        Ok(Outcome::FailedTerminal { error }) => {
            assert_eq!(error.error_type, "StepFailed");
            assert_eq!(error.message, "step failed");
        }
        other => panic!("{:?}", other),
    }
}

#[test]
fn backoff_is_waited_out_to_the_second() {
    let mut store = store();
    let mut req = begin_req();
    req.retry.max_attempts = 3;
    req.retry.base_delay_ms = 1_500;
    store.begin_step_at(req.clone(), at(100)).expect("begin");
    store.fail_step_at(fail_req(), at(100), 7).expect("fail");
    assert_eq!(
        store.begin_step_at(req.clone(), at(101)),
        Ok(Outcome::RetryLater { retry_at: "1970-01-01 00:01:42".to_string() })
    );
    assert_eq!(
        store.begin_step_at(req.clone(), at(102)),
        Ok(Outcome::Execute { attempt: 2 })
    );
    store.fail_step_at(fail_req(), at(102), 7).expect("fail");
    assert_eq!(
        store.begin_step_at(req.clone(), at(104)),
        Ok(Outcome::RetryLater { retry_at: "1970-01-01 00:01:45".to_string() })
    );
    assert_eq!(store.begin_step_at(req, at(105)), Ok(Outcome::Execute { attempt: 3 }));
}

#[test]
fn unknown_steps_are_not_found() {
    let mut store = store();
    assert_eq!(store.complete_step(done_req("1")), Err(Error::StepNotFound));
    assert_eq!(store.fail_step(fail_req()), Err(Error::StepNotFound));
    assert_eq!(store.failures.len(), 0);
    assert_eq!(store.steps.len(), 0);
}

#[test]
fn completion_keeps_artifacts_and_gives_up_the_lease() {
    let mut store = store();
    store.begin_step_at(claim_for("a", 60), at(0)).expect("begin");
    let mut req = done_req("{\"score\": 3}");
    req.artifacts = vec![artifact("x", 1), artifact("y", 2), artifact("x", 3)];
    store.complete_step_at(req, at(5)).expect("complete");
    assert_eq!(store.artifacts.len(), 2);
    let kept = store.artifacts.get(&vec!["x".to_string()]).expect("the artifact");
    assert_eq!(kept.size, 3);
    assert_eq!(kept.run_id, "run");
    assert_eq!(kept.inline_json, Some("[1,2]".to_string()));
    assert_eq!(kept.created_at, "1970-01-01 00:00:05");
    let row = store.steps.get(&step_key()).expect("the step");
    assert_eq!(row.work.status, Status::Succeeded);
    assert_eq!(row.work.lease_owner, None);
    assert_eq!(row.work.lease_expires_at, None);
    assert_eq!(row.work.completed_at, Some("1970-01-01 00:00:05".to_string()));
    assert_eq!(row.work.output_json, Some("{\"score\":3}".to_string()));
}

#[test]
fn oversized_artifact_is_refused_and_nothing_is_kept() {
    let mut store = store();
    store.begin_step_at(begin_req(), at(0)).expect("begin");
    let mut req = done_req("1");
    req.artifacts = vec![artifact("x", 1), artifact("y", 1 << 63)];
    assert_eq!(
        store.complete_step_at(req, at(1)),
        Err(Error::Sqlite(
            "out of range integral type conversion attempted".to_string()
        ))
    );
    assert_eq!(store.artifacts.len(), 0);
    let row = store.steps.get(&step_key()).expect("the step");
    assert_eq!(row.work.status, Status::Running);
}

#[test]
fn damaged_output_is_an_error_of_the_database() {
    let mut store = store();
    store.begin_step_at(begin_req(), at(0)).expect("begin");
    store.complete_step_at(done_req("1"), at(1)).expect("complete");
    let mut row = store.steps.take(&step_key()).expect("the step");
    row.work.output_json = Some("{".to_string());
    store.steps.put(row);
    assert_eq!(
        store.begin_step_at(begin_req(), at(2)),
        Err(Error::Sqlite(
            "Conversion error from type Text at index: 0, EOF while parsing an object at line 1 column 1"
                .to_string()
        ))
    );
    let mut row = store.steps.take(&step_key()).expect("the step");
    row.work.output_json = None;
    store.steps.put(row);
    assert_eq!(
        store.begin_step_at(begin_req(), at(3)),
        Ok(Outcome::SkipCompleted { output: Json::null() })
    );
}

#[test]
fn damaged_error_is_an_error_of_the_database() {
    let mut store = store();
    store.begin_step_at(begin_req(), at(0)).expect("begin");
    let mut row = store.steps.take(&step_key()).expect("the step");
    row.work.status = Status::Terminal;
    row.work.error = StoredError::Damaged("expected value".to_string());
    store.steps.put(row);
    assert_eq!(
        store.begin_step_at(begin_req(), at(2)),
        Err(Error::Sqlite(
            "Conversion error from type Text at index: 0, expected value".to_string()
        ))
    );
}

#[test]
fn a_failure_is_recorded_with_its_attempt() {
    let mut store = store();
    store.begin_step_at(begin_req(), at(0)).expect("begin");
    store.fail_step_at(fail_req(), at(61), 0).expect("fail");
    let records = store.failure_records("run");
    assert_eq!(records.len(), 1);
    assert_eq!(records[0].attempt, 1);
    assert_eq!(records[0].retryable, true);
    assert_eq!(records[0].failure_class, FailureClass::Transient);
    assert_eq!(records[0].timestamp, "1970-01-01 00:01:01");
    assert_eq!(store.failure_records("other").len(), 0);
}

#[test]
fn statuses_go_by_their_names() {
    for status in [
        Status::Pending,
        Status::Running,
        Status::Succeeded,
        Status::Failed,
        Status::Terminal,
    ] {
        assert_eq!(parse_status(status_to_str(&status)), Some(status));
    }
    assert_eq!(parse_status("done"), None);
}

#[test]
fn attempts_are_handed_out_in_turn() {
    let mut store = store();
    let mut req = begin_req();
    req.retry.max_attempts = 4;
    let mut given = vec![];
    for _ in 0..10 {
        if let Outcome::Execute { attempt } = store.begin_step_at(req.clone(), at(0)).expect("begin")
        {
            given.push(attempt);
            store.begin_step_at(req.clone(), at(0)).expect("begin again");
            store.fail_step_at(fail_req(), at(0), 0).expect("fail");
        }
    }
    assert_eq!(given, vec![1, 2, 3, 4]);

    // The first attempt of a new step is handed out in any case.
    let mut store = Ledger::new();
    req.retry.max_attempts = 0;
    assert_eq!(
        store.begin_step_at(req, at(0)),
        Ok(Outcome::Execute { attempt: 1 })
    );
}
