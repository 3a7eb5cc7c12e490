use durable_evals::error::Error;
use durable_evals::json::Json;
use durable_evals::ledger::Ledger;
use durable_evals::rows::{review_to_str, ReviewDecision};
use durable_evals::time::Moment;
use durable_evals::types::{
    ListTraceEventsRequest, MemoGetRequest, MemoPutRequest, RegisterRunRequest,
    RegisterVariantsRequest, RegisterWorkerRequest, ReviewRequest, SummaryRequest, TraceEventRequest,
    VariantInput,
};

fn json(text: &str) -> Json {
    Json::parse(text).expect("a JSON value")
}

fn at(secs: i64) -> Moment {
    Moment { secs, nanos: 0 }
}

fn memo_key(run: &str, digest: &str) -> MemoGetRequest {
    MemoGetRequest {
        run_id: run.to_string(),
        key_digest: digest.to_string(),
    }
}

fn memo(run: &str, digest: &str, value: &str) -> MemoPutRequest {
    MemoPutRequest {
        run_id: run.to_string(),
        key_digest: digest.to_string(),
        key: json("{\"turn\": 1}"),
        value: json(value),
    }
}

#[test]
fn sqlite_memo_roundtrip() {
    let mut store = Ledger::new();
    let miss = store
        .memo_get(MemoGetRequest {
            run_id: "run".to_string(),
            key_digest: "k".to_string(),
        })
        .expect("memo get miss");
    assert!(!miss.found);
    store
        .memo_put(MemoPutRequest {
            run_id: "run".to_string(),
            key_digest: "k".to_string(),
            key: json("{\"turn\": 1}"),
            value: json("{\"answer\": 42}"),
        })
        .expect("memo put");
    let hit = store
        .memo_get(MemoGetRequest {
            run_id: "run".to_string(),
            key_digest: "k".to_string(),
        })
        .expect("memo get hit");
    assert!(hit.found);
    assert_eq!(hit.value, Some(json("{\"answer\": 42}")));
}

#[test]
fn memos_do_not_mix() {
    let mut store = Ledger::new();
    store.memo_put_at(memo("run", "k", "1"), at(0)).expect("put");
    store.memo_put_at(memo("run", "l", "2"), at(0)).expect("put");
    store.memo_put_at(memo("other", "k", "3"), at(0)).expect("put");
    store.memo_put_at(memo("run", "k", "4"), at(60)).expect("put");
    assert_eq!(store.memo_get(memo_key("run", "k")).expect("get").value, Some(json("4")));
    assert_eq!(store.memo_get(memo_key("run", "l")).expect("get").value, Some(json("2")));
    assert_eq!(store.memo_get(memo_key("other", "k")).expect("get").value, Some(json("3")));
    let row = store
        .memos
        .get(&vec!["run".to_string(), "k".to_string()])
        .expect("the memo");
    assert_eq!(row.created_at, "1970-01-01 00:00:00");
    assert_eq!(row.key_json, "{\"turn\":1}");
}

#[test]
fn a_null_memo_is_found() {
    let mut store = Ledger::new();
    store.memo_put(memo("run", "k", "null")).expect("put");
    let hit = store.memo_get(memo_key("run", "k")).expect("get");
    assert!(hit.found);
    assert_eq!(hit.value, Some(Json::null()));
}

#[test]
fn a_damaged_memo_is_an_error() {
    let mut store = Ledger::new();
    store.memo_put(memo("run", "k", "1")).expect("put");
    let at_key = vec!["run".to_string(), "k".to_string()];
    let mut row = store.memos.take(&at_key).expect("the memo");
    row.value_json = "nope".to_string();
    store.memos.put(row);
    assert_eq!(
        store.memo_get(memo_key("run", "k")),
        Err(Error::Sqlite(
            "Conversion error from type Text at index: 0, expected ident at line 1 column 2"
                .to_string()
        ))
    );
}

#[test]
fn a_run_keeps_its_start() {
    let mut store = Ledger::new();
    let mut req = RegisterRunRequest {
        run_id: "run".to_string(),
        name: Some("first".to_string()),
        config: json("{\"b\": 1, \"a\": 2}"),
    };
    store.register_run_at(req.clone(), at(60)).expect("register");
    req.name = None;
    req.config = json("[]");
    store.register_run_at(req, at(120)).expect("register again");
    let row = store.runs.get(&vec!["run".to_string()]).expect("the run");
    assert_eq!(row.name, None);
    assert_eq!(row.config_json, "[]");
    assert_eq!(
        row.config_digest,
        "4f53cda18c2baa0c0354bb5f9a3ecbe5ed12ab4d8e11ba873c2f11161202b945"
    );
    assert_eq!(row.created_at, "1970-01-01 00:01:00");
    assert_eq!(row.updated_at, "1970-01-01 00:02:00");
    assert_eq!(
        store
            .summary(SummaryRequest { run_id: "run".to_string() })
            .expect("summary")
            .started_at,
        Some("1970-01-01 00:01:00".to_string())
    );
}

fn variants(dimension: &str, names: Vec<&str>) -> RegisterVariantsRequest {
    RegisterVariantsRequest {
        run_id: "run".to_string(),
        dimension: dimension.to_string(),
        variants: names
            .into_iter()
            .map(|name| VariantInput {
                name: name.to_string(),
                config: json("{\"prompt\": \"v1\"}"),
                digest: format!("d-{}", name),
            })
            .collect(),
    }
}

#[test]
fn variants_are_replaced_and_sorted() {
    let mut store = Ledger::new();
    store
        .register_variants(variants("prompt", vec!["old", "gone"]))
        .expect("register");
    store.register_variants(variants("model", vec!["z"])).expect("register");
    let records = store
        .register_variants(variants("prompt", vec!["candidate", "baseline"]))
        .expect("register");
    let names: Vec<(&str, &str)> = records
        .iter()
        .map(|v| (v.dimension.as_str(), v.name.as_str()))
        .collect();
    assert_eq!(
        names,
        vec![("model", "z"), ("prompt", "baseline"), ("prompt", "candidate")]
    );
    assert_eq!(records[1].digest, "d-baseline");
    assert_eq!(records[1].config, json("{\"prompt\": \"v1\"}"));
    assert_eq!(store.list_variants("run"), Ok(records));
    assert_eq!(store.list_variants("other"), Ok(vec![]));
}

#[test]
fn variants_with_one_name_twice_are_refused() {
    let mut store = Ledger::new();
    let before = store
        .register_variants(variants("prompt", vec!["a", "b"]))
        .expect("register");
    assert_eq!(
        store.register_variants(variants("prompt", vec!["c", "d", "c"])),
        Err(Error::Sqlite(
            "UNIQUE constraint failed: variants.run_id, variants.dimension, variants.name"
                .to_string()
        ))
    );
    assert_eq!(store.list_variants("run"), Ok(before));
}

fn worker(id: &str, host: &str) -> RegisterWorkerRequest {
    RegisterWorkerRequest {
        worker_id: id.to_string(),
        hostname: Some(host.to_string()),
        process_id: Some(7),
        resources: json("{\"gpus\": 1}"),
    }
}

#[test]
fn workers_are_known_by_their_ids() {
    let mut store = Ledger::new();
    store.register_worker_at(worker("b", "x"), at(0)).expect("register");
    store.register_worker_at(worker("a", "y"), at(1)).expect("register");
    let told = store.register_worker_at(worker("b", "z"), at(2)).expect("register");
    assert_eq!(told.heartbeat_at, "1970-01-01 00:00:02");
    let workers = store.list_workers().expect("list");
    assert_eq!(workers.len(), 2);
    assert_eq!(workers[0].worker_id, "a");
    assert_eq!(workers[1], told);
    assert_eq!(store.register_worker(worker("c", "x")).expect("register").process_id, Some(7));
}

#[test]
fn decisions_are_kept_in_order() {
    let mut store = Ledger::new();
    let mut req = ReviewRequest {
        run_id: "run".to_string(),
        kind: "dataset".to_string(),
        task_id: "a".to_string(),
        reviewer: "ann".to_string(),
        decision: ReviewDecision::PendingReview,
        note: None,
    };
    let first = store.mark_reviewed_at(req.clone(), at(0)).expect("mark");
    req.decision = ReviewDecision::ReviewedPass;
    req.note = Some("Correct tool sequence".to_string());
    let second = store.mark_reviewed_at(req.clone(), at(1)).expect("mark");
    assert_eq!(store.reviews, vec![first, second.clone()]);
    assert_eq!(second.timestamp, "1970-01-01 00:00:01");
    assert_eq!(store.mark_reviewed(req).expect("mark").decision, ReviewDecision::ReviewedPass);
    assert_eq!(review_to_str(&ReviewDecision::PendingReview), "pending_review");
    assert_eq!(review_to_str(&ReviewDecision::ReviewedPass), "reviewed_pass");
    assert_eq!(review_to_str(&ReviewDecision::ReviewedFail), "reviewed_fail");
    assert_eq!(review_to_str(&ReviewDecision::ReviewedExcluded), "reviewed_excluded");
}

fn event(task: &str, attempt: u32, kind_of: &str) -> TraceEventRequest {
    TraceEventRequest {
        run_id: "run".to_string(),
        kind: "dataset".to_string(),
        task_id: task.to_string(),
        attempt,
        event_type: kind_of.to_string(),
        payload: json("{\"n\": 1}"),
        artifact_ids: vec!["x".to_string()],
    }
}

fn query() -> ListTraceEventsRequest {
    ListTraceEventsRequest {
        run_id: "run".to_string(),
        kind: None,
        task_id: None,
        attempt: None,
        event_type: vec![],
    }
}

#[test]
fn events_are_numbered_within_their_attempt() {
    let mut store = Ledger::new();
    let mut numbers = vec![];
    for (task, attempt) in [("a", 1), ("a", 1), ("b", 1), ("a", 2), ("a", 1)] {
        let record = store
            .add_trace_event_at(event(task, attempt, "model_request"), at(3))
            .expect("add");
        numbers.push((record.id, record.event_index));
    }
    assert_eq!(numbers, vec![(1, 1), (2, 2), (3, 1), (4, 1), (5, 3)]);
    let mut one_task = query();
    one_task.kind = Some("dataset".to_string());
    one_task.task_id = Some("a".to_string());
    let listed: Vec<i64> = store
        .list_trace_events(one_task)
        .expect("list")
        .iter()
        .map(|e| e.id)
        .collect();
    assert_eq!(listed, vec![1, 2, 5, 4]);
}

#[test]
fn queries_narrow_what_is_listed() {
    let mut store = Ledger::new();
    store.add_trace_event(event("a", 1, "model_request")).expect("add");
    store.add_trace_event(event("b", 2, "model_response")).expect("add");
    store.add_trace_event(event("b", 1, "tool_call")).expect("add");
    let mut elsewhere = event("a", 1, "tool_call");
    elsewhere.run_id = "other".to_string();
    store.add_trace_event(elsewhere).expect("add");
    let count = |q: ListTraceEventsRequest| store.list_trace_events(q).expect("list").len();
    assert_eq!(count(query()), 3);
    let mut q = query();
    q.attempt = Some(1);
    assert_eq!(count(q), 2);
    let mut q = query();
    q.event_type = vec!["model_request".to_string(), "model_response".to_string()];
    assert_eq!(count(q), 2);
    let mut q = query();
    q.kind = Some("other".to_string());
    assert_eq!(count(q), 0);
    let mut q = query();
    q.task_id = Some("b".to_string());
    q.event_type = vec!["tool_call".to_string()];
    let found = store.list_trace_events(q).expect("list");
    assert_eq!(found.len(), 1);
    assert_eq!(found[0].payload, json("{\"n\": 1}"));
    assert_eq!(found[0].artifact_ids, vec!["x".to_string()]);
}

#[test]
fn numbers_and_ids_of_events_run_out() {
    let mut store = Ledger::new();
    store.add_trace_event(event("a", 1, "t")).expect("add");
    store.traces[0].event_index = u32::MAX;
    assert_eq!(
        store.add_trace_event(event("a", 1, "t")),
        Err(Error::Sqlite("Integer 4294967296 out of range at index 0".to_string()))
    );
    store.last_trace_id = i64::MAX;
    assert_eq!(
        store.add_trace_event(event("b", 1, "t")),
        Err(Error::Sqlite("database or disk is full".to_string()))
    );
    assert_eq!(store.traces.len(), 1);
}

#[test]
fn a_damaged_event_fails_the_list() {
    let mut store = Ledger::new();
    store.add_trace_event(event("a", 1, "t")).expect("add");
    assert_eq!(store.traces[0].artifact_ids_json, "[\"x\"]");
    store.traces[0].artifact_ids_json = "[1]".to_string();
    assert_eq!(
        store.list_trace_events(query()),
        Err(Error::Sqlite(
            "Conversion error from type Text at index: 0, invalid type: integer `1`, expected a string at line 1 column 2"
                .to_string()
        ))
    );
    store.traces[0].payload_json = "".to_string();
    assert_eq!(
        store.list_trace_events(query()),
        Err(Error::Sqlite(
            "Conversion error from type Text at index: 0, EOF while parsing a value at line 1 column 0"
                .to_string()
        ))
    );
}

#[test]
fn an_added_event_is_listed_as_it_was_told() {
    let mut store = Ledger::new();
    let mut odd = event("a", 1, "t");
    odd.artifact_ids = vec!["quote \" and \\".to_string(), "\n\u{1}".to_string(), "".to_string()];
    let told = store.add_trace_event(odd).expect("add");
    assert_eq!(store.list_trace_events(query()), Ok(vec![told]));
}

#[test]
fn the_latest_memo_is_read() {
    let mut store = Ledger::new();
    for (i, value) in ["1", "\"two\"", "[3]", "null"].iter().enumerate() {
        store.memo_put_at(memo("run", "k", value), at(i as i64)).expect("put");
        store.memo_put_at(memo("run", "other", "0"), at(i as i64)).expect("put");
        let reply = store.memo_get(memo_key("run", "k")).expect("get");
        assert!(reply.found);
        assert_eq!(reply.value, Some(json(value)));
    }
}

#[test]
fn the_trace_of_a_task_ascends() {
    let mut store = Ledger::new();
    for attempt in [2, 1, 2, 1, 3] {
        store.add_trace_event_at(event("t", attempt, "log"), at(0)).expect("add");
        store.add_trace_event_at(event("u", attempt, "log"), at(0)).expect("add");
    }
    let mut asked = query();
    asked.kind = Some(event("t", 1, "log").kind);
    asked.task_id = Some("t".to_string());
    let list = store.list_trace_events(asked).expect("list");
    let places: Vec<(u32, u32)> =
        list.iter().map(|event| (event.attempt, event.event_index)).collect();
    assert_eq!(places, vec![(1, 1), (1, 2), (2, 1), (2, 2), (3, 1)]);
    assert!(list.iter().all(|event| event.task_id == "t"));
}
