use durable_evals::csv::{csv_field, csv_row};
use durable_evals::error::Error;
use durable_evals::export::{content_type, json_lines, Export};
use durable_evals::failure::{ErrorInfo, FailureClass};
use durable_evals::json::Json;
use durable_evals::ledger::Ledger;
use durable_evals::retry::RetryPolicy;
use durable_evals::time::Moment;
use durable_evals::types::{
    Artifact, BeginStepRequest, CompleteStepRequest, CompleteTaskRequest, ExportKind, ExportRequest,
    ExportResponse, FailStepRequest, ListRequest, RegisterDatasetRequest, RegisterRunRequest, SummaryRequest,
    TaskInput,
};

fn json(text: &str) -> Json {
    Json::parse(text).expect("a JSON value")
}

fn at(secs: i64) -> Moment {
    Moment { secs, nanos: 0 }
}

fn begin(store: &mut Ledger, step: &str) {
    let req = BeginStepRequest {
        run_id: "run".to_string(),
        step_name: step.to_string(),
        input_digest: "d".to_string(),
        config: Json::null(),
        dependencies: vec![],
        variants: json("{}"),
        retry: RetryPolicy::default(),
        worker_id: None,
        lease_seconds: None,
    };
    store.begin_step_at(req, at(0)).expect("begin");
}

fn fail(store: &mut Ledger, step: &str, class: FailureClass, message: &str, secs: i64) {
    let req = FailStepRequest {
        run_id: "run".to_string(),
        step_name: step.to_string(),
        input_digest: "d".to_string(),
        error: ErrorInfo {
            error_type: "RuntimeError".to_string(),
            message: message.to_string(),
            failure_class: class,
            stack: None,
            retryable: None,
        },
    };
    store.fail_step_at(req, at(secs), 0).expect("fail");
}

fn filled() -> Ledger {
    let mut store = Ledger::new();
    store
        .register_run_at(
            RegisterRunRequest {
                run_id: "run".to_string(),
                name: Some("demo".to_string()),
                config: json("{\"model\": \"local\"}"),
            },
            at(60),
        )
        .expect("register");
    for step in ["a", "b", "c", "e"] {
        begin(&mut store, step);
    }
    fail(&mut store, "b", FailureClass::Transient, "late, \"quoted\"", 120);
    fail(&mut store, "a", FailureClass::EvalException, "plain", 90);
    store
        .complete_step_at(
            CompleteStepRequest {
                run_id: "run".to_string(),
                step_name: "c".to_string(),
                input_digest: "d".to_string(),
                output: json("1"),
                artifacts: vec![Artifact {
                    artifact_id: "x".to_string(),
                    name: "n".to_string(),
                    kind: "k".to_string(),
                    path: None,
                    inline_json: None,
                    sha256: "s".to_string(),
                    size: 1,
                    valid: true,
                }],
            },
            at(61),
        )
        .expect("complete");
    for kind in ["zeta", "alpha"] {
        let tasks = ["p", "q"]
            .iter()
            .map(|digest| TaskInput {
                input_digest: digest.to_string(),
                input: json("{}"),
                label: None,
                category: None,
            })
            .collect();
        store
            .register_dataset_at(
                RegisterDatasetRequest {
                    run_id: "run".to_string(),
                    kind: kind.to_string(),
                    tasks,
                },
                at(61),
            )
            .expect("register");
    }
    store
        .complete_task_at(
            CompleteTaskRequest {
                run_id: "run".to_string(),
                kind: "zeta".to_string(),
                input_digest: "q".to_string(),
                output: json("2"),
            },
            at(62),
        )
        .expect("complete");
    store
}

fn export(store: &Ledger, kind: ExportKind) -> Export {
    store
        .export_at(ExportRequest { run_id: "run".to_string(), kind }, at(200))
        .expect("export")
}

fn counts(list: &Vec<(String, u32)>) -> Vec<(&str, u32)> {
    list.iter().map(|(name, count)| (name.as_str(), *count)).collect()
}

#[test]
fn a_run_is_summed_up() {
    let store = filled();
    let summary = store
        .summary_at(SummaryRequest { run_id: "run".to_string() }, at(200))
        .expect("summary");
    assert_eq!(summary.name, Some("demo".to_string()));
    assert_eq!(summary.config, json("{\"model\": \"local\"}"));
    assert_eq!(
        counts(&summary.step_counts),
        vec![("failed", 1), ("running", 1), ("succeeded", 1), ("terminal", 1)]
    );
    assert_eq!(counts(&summary.task_counts), vec![("pending", 3), ("succeeded", 1)]);
    assert_eq!(
        counts(&summary.failure_counts),
        vec![("eval_exception", 1), ("transient", 1)]
    );
    assert_eq!(summary.artifact_count, 1);
    assert_eq!(summary.started_at, Some("1970-01-01 00:01:00".to_string()));
    assert_eq!(summary.completed_at, None);
}

#[test]
fn an_unknown_run_is_empty() {
    let store = filled();
    let summary = store
        .summary_at(SummaryRequest { run_id: "other".to_string() }, at(200))
        .expect("summary");
    assert_eq!(summary.name, None);
    assert_eq!(summary.config, Json::null());
    assert_eq!(
        summary.config_digest,
        "74234e98afe7498fb5daf1f36ac2d78acc339464f950703b8c019892f982b90b"
    );
    assert_eq!(summary.step_counts, vec![]);
    assert_eq!(summary.task_counts, vec![]);
    assert_eq!(summary.failure_counts, vec![]);
    assert_eq!(summary.artifact_count, 0);
    assert_eq!(summary.started_at, Some("1970-01-01 00:03:20".to_string()));
}

#[test]
fn a_damaged_configuration_fails_the_summary() {
    let mut store = filled();
    let key = vec!["run".to_string()];
    let mut run = store.runs.take(&key).expect("the run");
    run.config_json = "".to_string();
    store.runs.put(run);
    assert_eq!(
        store.summary(SummaryRequest { run_id: "run".to_string() }),
        Err(Error::Sqlite(
            "Conversion error from type Text at index: 0, EOF while parsing a value at line 1 column 0"
                .to_string()
        ))
    );
}

#[test]
fn failures_are_reported_as_csv() {
    let store = filled();
    let expected = "run_id,step_name,input_digest,attempt,failure_class,error_type,message,timestamp\n\
run,a,d,1,EvalException,RuntimeError,plain,1970-01-01 00:01:30\n\
run,b,d,1,Transient,RuntimeError,\"late, \"\"quoted\"\"\",1970-01-01 00:02:00\n";
    assert_eq!(
        export(&store, ExportKind::FailureReportCsv),
        Export::Text(ExportResponse {
            content_type: "text/csv".to_string(),
            body: expected.to_string(),
        })
    );
}

#[test]
fn failures_are_listed_by_time() {
    let store = filled();
    match export(&store, ExportKind::FailureReportJson) {
        Export::FailureReport(records) => {
            let steps: Vec<&str> = records.iter().map(|r| r.step_name.as_str()).collect();
            assert_eq!(steps, vec!["a", "b"]);
        }
        other => panic!("{:?}", other),
    }
}

#[test]
fn metrics_are_reported_as_csv() {
    let store = filled();
    let expected = "metric,status,count\n\
steps,failed,1\nsteps,running,1\nsteps,succeeded,1\nsteps,terminal,1\n\
tasks,pending,3\ntasks,succeeded,1\n";
    assert_eq!(
        export(&store, ExportKind::AggregateMetricsCsv),
        Export::Text(ExportResponse {
            content_type: "text/csv".to_string(),
            body: expected.to_string(),
        })
    );
}

#[test]
fn task_results_go_by_dataset_and_position() {
    let store = filled();
    match export(&store, ExportKind::TaskResultsJsonl) {
        Export::TaskResults(records) => {
            let order: Vec<(&str, &str)> = records
                .iter()
                .map(|r| (r.kind.as_str(), r.input_digest.as_str()))
                .collect();
            assert_eq!(
                order,
                vec![("alpha", "p"), ("alpha", "q"), ("zeta", "p"), ("zeta", "q")]
            );
            assert_eq!(records[3].output, Some(json("2")));
        }
        other => panic!("{:?}", other),
    }
}

#[test]
fn manifest_and_metrics_hold_the_summary() {
    let store = filled();
    let summary = store
        .summary_at(SummaryRequest { run_id: "run".to_string() }, at(200))
        .expect("summary");
    assert_eq!(
        export(&store, ExportKind::ManifestJson),
        Export::Manifest(summary.clone())
    );
    assert_eq!(
        export(&store, ExportKind::AggregateMetricsJson),
        Export::Metrics(summary)
    );
    assert!(store
        .export(ExportRequest {
            run_id: "run".to_string(),
            kind: ExportKind::ManifestJson,
        })
        .is_ok());
}

#[test]
fn content_types_go_with_the_kind() {
    assert_eq!(content_type(ExportKind::ManifestJson), "application/json");
    assert_eq!(content_type(ExportKind::TaskResultsJsonl), "application/x-ndjson");
    assert_eq!(content_type(ExportKind::FailureReportJson), "application/json");
    assert_eq!(content_type(ExportKind::FailureReportCsv), "text/csv");
    assert_eq!(content_type(ExportKind::AggregateMetricsJson), "application/json");
    assert_eq!(content_type(ExportKind::AggregateMetricsCsv), "text/csv");
}

#[test]
fn lines_end_with_a_line_feed() {
    assert_eq!(json_lines(&vec![]), "");
    assert_eq!(json_lines(&vec!["{}".to_string(), "1".to_string()]), "{}\n1\n");
}

#[test]
fn csv_fields_are_quoted_where_they_must() {
    assert_eq!(csv_field("plain text"), "plain text");
    assert_eq!(csv_field(""), "");
    assert_eq!(csv_field("a,b"), "\"a,b\"");
    assert_eq!(csv_field("say \"hi\""), "\"say \"\"hi\"\"\"");
    assert_eq!(csv_field("two\nlines"), "\"two\nlines\"");
    assert_eq!(csv_field("cr\r"), "\"cr\r\"");
    assert_eq!(csv_row(["a", "b,c", ""]), "a,\"b,c\",\n");
    assert_eq!(csv_row(["only"]), "only\n");
}

#[test]
fn registering_again_keeps_progress() {
    let mut store = filled();
    let req = SummaryRequest { run_id: "run".to_string() };
    let before = store.summary_at(req.clone(), at(300)).expect("summary");
    store
        .register_run_at(
            RegisterRunRequest {
                run_id: "run".to_string(),
                name: None,
                config: json("[1]"),
            },
            at(400),
        )
        .expect("register");
    let after = store.summary_at(req, at(500)).expect("summary");
    assert_eq!(after.name, None);
    assert_eq!(after.config, json("[1]"));
    assert_eq!(after.started_at, before.started_at);
    assert_eq!(after.completed_at, None);
    assert_eq!(after.step_counts, before.step_counts);
    assert_eq!(after.task_counts, before.task_counts);
    assert_eq!(after.failure_counts, before.failure_counts);
    assert_eq!((after.artifact_count, before.artifact_count), (1, 1));
}

#[test]
fn task_results_are_the_lists_of_the_datasets() {
    let store = filled();
    let mut lists = vec![];
    for kind in ["alpha", "zeta"] {
        let req = ListRequest {
            run_id: "run".to_string(),
            kind: kind.to_string(),
            statuses: vec![],
            categories: vec![],
        };
        lists.extend(store.list_tasks(req).expect("list"));
    }
    assert_eq!(lists.len(), 4);
    assert_eq!(export(&store, ExportKind::TaskResultsJsonl), Export::TaskResults(lists));
}
