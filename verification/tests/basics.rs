use durable_evals::digest::{digest_bytes, digest_json, hex_text};
use durable_evals::error::{
    authorized, internal_server_error, store_error, unauthorized, Error,
};
use durable_evals::failure::FailureClass;
use durable_evals::json::{parse_optional, parse_required, Json};
use durable_evals::order::arrange_flagged;
use durable_evals::rows::{FailureRecord, MemoRow};
use durable_evals::table::Table;
use durable_evals::text::{decimal_text, is_before};
use durable_evals::time::{
    clock, in_future, in_future_at, jitter_seed, jitter_seed_at, lease_active, lease_active_at, now,
    retry_pending, stored_time, timestamp, timestamp_after, ts_text, Moment,
};

#[test]
fn digests_are_sha_256_in_hexadecimal() {
    assert_eq!(
        digest_bytes(b"abc"),
        "ba7816bf8f01cfea414140de5dae2223b00361a396177a9cb410ff61f20015ad"
    );
    assert_eq!(
        digest_bytes(b"null"),
        digest_json(&Json::null())
    );
    assert_eq!(hex_text(&vec![0, 15, 16, 255]), "000f10ff");
}

#[test]
fn json_is_held_in_compact_form() {
    let value = Json::parse(" { \"b\" : [1, 2.50], \"a\" : \"x\" } ").expect("a value");
    assert_eq!(value.text(), "{\"a\":\"x\",\"b\":[1,2.5]}");
    assert_eq!(Json::parse(value.text()), Ok(value));
    assert_eq!(
        Json::parse("[1,"),
        Err("EOF while parsing a value at line 1 column 3".to_string())
    );
    assert_eq!(Json::null().text(), "null");
    assert_eq!(Json::empty_object().text(), "{}");
}

#[test]
fn stored_json_is_read_or_reported() {
    assert_eq!(parse_required("[ 1 ]").map(|v| v.into_text()), Ok("[1]".to_string()));
    assert_eq!(parse_optional(&None), Ok(None));
    assert_eq!(
        parse_optional(&Some("x".to_string())),
        Err(Error::Sqlite(
            "Conversion error from type Text at index: 0, expected value at line 1 column 1"
                .to_string()
        ))
    );
}

#[test]
fn moments_are_written_to_the_second() {
    let at = Moment { secs: 1_700_000_000, nanos: 999 };
    assert_eq!(timestamp(at), "2023-11-14 22:13:20");
    assert_eq!(timestamp_after(at, 40), Some("2023-11-14 22:14:00".to_string()));
    assert_eq!(timestamp_after(at, u64::MAX), None);
    assert_eq!(
        timestamp_after(at, 253_402_300_799 - 1_700_000_000),
        Some("9999-12-31 23:59:59".to_string())
    );
    assert_eq!(timestamp_after(at, 253_402_300_800 - 1_700_000_000), None);
}

#[test]
fn stored_times_are_compared_with_the_moment() {
    let before = Moment { secs: 1_699_999_999, nanos: 999_999_999 };
    let same = Moment { secs: 1_700_000_000, nanos: 0 };
    assert!(in_future_at("2023-11-14 22:13:20", before));
    assert!(!in_future_at("2023-11-14 22:13:20", same));
    assert!(in_future_at("2023-11-14T22:13:20.5", same));
    assert!(!in_future_at("tomorrow", same));
    assert!(!lease_active_at(&None, same));
    assert!(lease_active_at(&Some("2023-11-14 22:13:20".to_string()), before));
}

#[test]
fn the_clock_moves_between_past_and_future() {
    assert!(in_future("9999-01-01 00:00:00"));
    assert!(!in_future("1970-01-01 00:00:00"));
    assert!(lease_active(&Some("9999-01-01 00:00:00".to_string())));
    assert!(!lease_active(&None));
    assert!(!retry_pending("2000-01-01 00:00:00"));
    assert!(jitter_seed() < 1_000_000_000);
    let at = clock();
    assert!(at.secs > 1_600_000_000);
    assert!(now() >= timestamp(at));
}

#[test]
fn a_clock_past_the_last_second_is_held_back() {
    let late = Moment { secs: 253_402_300_800, nanos: 7 };
    assert_eq!(late.cap(), Moment { secs: 253_402_300_799, nanos: 7 });
    let last = Moment { secs: 253_402_300_799, nanos: 999_999_999 };
    assert_eq!(last.cap(), last);
    assert_eq!(timestamp(late.cap()), "9999-12-31 23:59:59");
}

#[test]
fn the_jitter_seed_is_the_nanoseconds_of_the_moment() {
    assert_eq!(jitter_seed_at(Moment { secs: 1_700_000_000, nanos: 123_456_789 }), 123_456_789);
    assert_eq!(jitter_seed_at(Moment { secs: 1_700_000_000, nanos: 0 }), 0);
}

#[test]
fn timestamp_columns_are_rendered_and_stored() {
    assert_eq!(
        ts_text("created_at"),
        "to_char(created_at AT TIME ZONE 'UTC', 'YYYY-MM-DD\"T\"HH24:MI:SS.US\"+00:00\"') AS created_at"
    );
    assert_eq!(stored_time("2023-11-14T22:13:20.123456+00:00"), "2023-11-14 22:13:20");
    let now = timestamp(Moment { secs: 1_700_000_000, nanos: 0 });
    assert_eq!(stored_time(&format!("{}Z", now.replace(' ', "T"))), now);
    assert_eq!(stored_time("T"), " ");
}

#[test]
fn requests_need_the_token() {
    let none: Option<String> = None;
    let token = Some("s3".to_string());
    let header = |text: &str| Some(text.to_string());
    assert!(authorized(&none, "/runs/summary", &none));
    assert!(authorized(&token, "/health", &none));
    assert!(!authorized(&token, "/runs/summary", &none));
    assert!(authorized(&token, "/runs/summary", &header("Bearer s3")));
    assert!(!authorized(&token, "/runs/summary", &header("Bearer s")));
    assert!(!authorized(&token, "/runs/summary", &header("bearer s3")));
    assert!(!authorized(&token, "/runs/summary", &header("Bearer  s3")));
    assert!(!authorized(&token, "/runs/summary", &header("s3")));
    assert!(!authorized(&token, "/health/", &header("")));
    let (status, body) = unauthorized();
    assert_eq!(status, 401);
    assert_eq!(body.error_type, "Unauthorized");
    assert_eq!(body.message, "missing or invalid bearer token");
}

#[test]
fn errors_are_answered_by_what_they_are() {
    let cases = [
        (Error::StepNotFound, 404, "StepNotFound", "step not found"),
        (Error::TaskNotFound, 404, "TaskNotFound", "task not found"),
        (
            Error::TaskClaimLost,
            500,
            "InternalServerError",
            "task claim no longer active",
        ),
        (
            Error::Sqlite("locked".to_string()),
            500,
            "InternalServerError",
            "sqlite error: locked",
        ),
        (
            Error::Postgres("gone".to_string()),
            500,
            "InternalServerError",
            "postgres error: gone",
        ),
        (
            Error::Json("bad".to_string()),
            500,
            "InternalServerError",
            "json error: bad",
        ),
    ];
    for (error, status, error_type, message) in cases {
        assert_eq!(error.message(), message);
        let (code, body) = store_error(error);
        assert_eq!(code, status);
        assert_eq!(body.error_type, error_type);
        assert_eq!(body.message, message);
        assert_eq!(body.failure_class, FailureClass::DurableHarnessError);
        assert_eq!(body.retryable, Some(false));
    }
    assert_eq!(internal_server_error("x".to_string()).0, 500);
}

#[test]
fn texts_are_ordered_by_character() {
    assert!(is_before("a", "b"));
    assert!(is_before("", "a"));
    assert!(is_before("a", "aa"));
    assert!(!is_before("b", "a"));
    assert!(!is_before("a", "a"));
    assert!(is_before("Z", "a"));
    assert!(is_before("z", "\u{e9}"));
    assert_eq!(decimal_text(0), "0");
    assert_eq!(decimal_text(1090), "1090");
    assert_eq!(decimal_text(u64::MAX), "18446744073709551615");
}

fn memo(run: &str, key: &str, value: &str) -> MemoRow {
    MemoRow {
        run_id: run.to_string(),
        key_digest: key.to_string(),
        key_json: "null".to_string(),
        value_json: value.to_string(),
        created_at: "".to_string(),
    }
}

fn key(columns: Vec<&str>) -> Vec<String> {
    columns.into_iter().map(|c| c.to_string()).collect()
}

#[test]
fn tables_hold_one_row_for_each_key() {
    let mut table: Table<MemoRow> = Table::new();
    table.put(memo("r", "a", "1"));
    table.put(memo("r", "b", "2"));
    table.put(memo("s", "a", "3"));
    table.put(memo("r", "a", "4"));
    assert_eq!(table.len(), 3);
    assert_eq!(
        table.get(&key(vec!["r", "a"])).map(|m| m.value_json.as_str()),
        Some("4")
    );
    assert!(table.get(&key(vec!["r"])).is_none());
    assert!(table.get(&key(vec!["r", "a", "x"])).is_none());
    assert!(table.take(&key(vec!["t", "a"])).is_none());
    assert_eq!(table.take(&key(vec!["r", "b"])).expect("a row").value_json, "2");
    table.drop_under(&key(vec!["r"]));
    assert_eq!(table.len(), 1);
    table.drop_under(&key(vec![]));
    assert_eq!(table.len(), 0);
}

fn failure(step: &str, time: &str) -> FailureRecord {
    FailureRecord {
        run_id: "run".to_string(),
        step_name: step.to_string(),
        input_digest: "d".to_string(),
        attempt: 1,
        failure_class: FailureClass::Transient,
        error_type: "E".to_string(),
        message: "m".to_string(),
        stack: None,
        retryable: true,
        timestamp: time.to_string(),
    }
}

#[test]
fn rows_of_one_time_stay_in_their_order() {
    let rows = vec![
        failure("a", "2"),
        failure("b", "1"),
        failure("c", "2"),
        failure("d", "1"),
        failure("e", "0"),
    ];
    let flags = vec![true, true, true, true, false];
    assert_eq!(arrange_flagged(&rows, &flags), vec![1, 3, 0, 2]);
}

#[test]
fn plain_numbers_read_back() {
    for text in [
        "0.1",
        "-0.0",
        "123.456",
        "0.333333333333333",
        "99999999999999.9",
        "18446744073709551615",
        "-9223372036854775808",
        "[0.5,1,2.25]",
        "{\"score\":0.875}",
    ] {
        let once = Json::parse(text).expect("a value");
        assert_eq!(once.text(), text);
        assert_eq!(Json::parse(once.text()).expect("a value").text(), text);
    }
    let deep = "[".repeat(127) + &"]".repeat(127);
    assert_eq!(Json::parse(&deep).expect("a value").text(), deep);
    assert!(Json::parse(&format!("[{}]", deep)).is_err());
    assert_eq!(Json::parse("1e3").expect("a value").text(), "1000.0");
    assert_eq!(Json::parse("18446744073709551616").expect("a value").text(), "1.8446744073709552e+19");
}

#[test]
fn postgres_tells_its_own_errors() {
    let damaged = parse_required("{").expect_err("no value");
    let message = match &damaged {
        Error::Sqlite(words) => words["Conversion error from type Text at index: 0, ".len()..].to_string(),
        other => panic!("unexpected {:?}", other),
    };
    assert_eq!(damaged.on_postgres(), Error::Json(message));
    assert_eq!(
        Error::Sqlite("UNIQUE constraint failed".to_string()).on_postgres(),
        Error::Postgres("UNIQUE constraint failed".to_string())
    );
    assert_eq!(Error::TaskClaimLost.on_postgres(), Error::TaskClaimLost);
    assert_eq!(
        Error::Postgres("down".to_string()).on_postgres(),
        Error::Postgres("down".to_string())
    );
}
