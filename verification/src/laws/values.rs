//! What texts, digests, times, names and answers say, whatever they are made of.
use vstd::prelude::*;

use crate::csv::{csv_field, csv_field_reads_back, csv_text, read_field, special};
use crate::digest::{digest_bytes, digest_json, digest_text, hex, hex_digit, sha256_digest};
use crate::error::{
    authorized, fault_answer, fault_message, internal_server_error, may_pass, only_the_token_passes,
    postgres_fault, postgres_tells_its_own_faults, store_error, unauthorized, Error, Fault,
};
use crate::failure::{
    class_label, class_name, class_named, class_survives_storage, failure_class_to_str,
    failure_class_label, harness_failure, parse_failure_class, ErrorInfo, FailureClass,
};
use crate::json::{
    json_reading, list_reading, parse_list, parse_optional, parse_required, stored_list,
    stored_option, stored_value, Json,
};
use crate::laws::claims::told_by_the_harness;
use crate::retry::{
    default_max_attempts, default_retryable_classes, each_attempt_doubles_the_delay,
    jitter_scales_where_it_is_asked_for, jitter_shortens_up_to_the_cap, plain_delay, RetryPolicy,
};
use crate::rows::{decision_name, review_to_str, ReviewDecision};
use crate::text::{decimal, decimal_text, digit, opt_text, text_before, texts};
use crate::time::{
    ahead_of, clock, datetime_after, datetime_text, in_future, in_future_at, jitter_seed,
    jitter_seed_at, lease_active, lease_active_at, lease_holds, retry_pending, stored_form,
    stored_time, timestamp, timestamp_after, ts_column, ts_text, Moment,
};
use crate::work::{parse_status, status_names_differ, status_to_str, Status};

verus! {

/// What a decimal digit stands for.
pub open spec fn worth(c: char) -> int {
    c as int - '0' as int
}

/// What a lower-case hexadecimal digit stands for.
pub open spec fn hex_worth(c: char) -> int {
    if '0' <= c <= '9' {
        c as int - '0' as int
    } else {
        c as int - 'a' as int + 10
    }
}

/// The number that decimal digits stand for, the first for the most.
pub open spec fn number_of(text: Seq<char>) -> int
    decreases text.len(),
{
    if text.len() == 0 {
        0
    } else {
        10 * number_of(text.drop_last()) + worth(text.last())
    }
}

/// A number is written with the digits that stand for it, and without a zero before them.
pub proof fn decimals_stand_for_their_numbers(n: nat)
    ensures
        number_of(decimal(n)) == n,
        decimal(n).len() >= 1,
        forall|i: int| 0 <= i < decimal(n).len() ==> '0' <= #[trigger] decimal(n)[i] <= '9',
        decimal(n).len() > 1 ==> decimal(n)[0] != '0',
    decreases n,
{
    assert forall|d: nat| d < 10 implies worth(#[trigger] digit(d)) == d && '0' <= digit(d) <= '9' by {}
    if n < 10 {
        let text = decimal(n);
        assert(text.drop_last().len() == 0);
        assert(text.last() == digit(n));
        assert(number_of(text.drop_last()) == 0);
    } else {
        decimals_stand_for_their_numbers(n / 10);
        let text = decimal(n);
        assert(text.drop_last() =~= decimal(n / 10));
        assert(text.last() == digit(n % 10));
        if decimal(n / 10).len() == 1 && decimal(n / 10)[0] == '0' {
            let short = decimal(n / 10);
            assert(short.drop_last().len() == 0);
            assert(number_of(short.drop_last()) == 0);
            assert(number_of(short) == 0);
        }
        assert(text[0] == decimal(n / 10)[0]);
    }
}

/// The text spells the bytes out: two lower-case hexadecimal digits for each, the high half first.
pub open spec fn spells(text: Seq<char>, bytes: Seq<u8>) -> bool {
    &&& text.len() == 2 * bytes.len()
    &&& forall|i: int|
        0 <= i < bytes.len() ==> 16 * hex_worth(text[2 * i]) + hex_worth(text[2 * i + 1])
            == #[trigger] bytes[i]
    &&& forall|i: int|
        0 <= i < text.len() ==> ('0' <= #[trigger] text[i] <= '9' || 'a' <= text[i] <= 'f')
}

/// Bytes are written as what spells them out.
pub proof fn hex_spells_the_bytes(bytes: Seq<u8>)
    ensures
        spells(hex(bytes), bytes),
{
    assert forall|d: nat| d < 16 implies hex_worth(#[trigger] hex_digit(d)) == d && ('0'
        <= hex_digit(d) <= '9' || 'a' <= hex_digit(d) <= 'f') by {}
    let text = hex(bytes);
    assert forall|i: int| 0 <= i < bytes.len() implies 16 * hex_worth(text[2 * i]) + hex_worth(
        text[2 * i + 1],
    ) == #[trigger] bytes[i] by {
        assert((2 * i) / 2 == i && (2 * i) % 2 == 0);
        assert((2 * i + 1) / 2 == i && (2 * i + 1) % 2 == 1);
        assert(text[2 * i] == hex_digit(bytes[i] as nat / 16));
        assert(text[2 * i + 1] == hex_digit(bytes[i] as nat % 16));
    }
    assert forall|i: int| 0 <= i < text.len() implies ('0' <= #[trigger] text[i] <= '9' || 'a'
        <= text[i] <= 'f') by {
        assert(0 <= i / 2 < bytes.len());
        if i % 2 == 0 {
            assert(text[i] == hex_digit(bytes[i / 2] as nat / 16));
        } else {
            assert(text[i] == hex_digit(bytes[i / 2] as nat % 16));
        }
    }
}

/// The digest of bytes spells out their SHA-256.
pub proof fn digests_spell_sha_256(bytes: Seq<u8>)
    ensures
        spells(digest_text(bytes), sha256_digest(bytes)),
{
    hex_spells_the_bytes(sha256_digest(bytes));
}

/// Of two texts that differ the one comes first that has the smaller character where they first
/// differ, or that ends there.
pub proof fn texts_are_ordered_where_they_differ(a: Seq<char>, b: Seq<char>, i: int)
    requires
        0 <= i <= a.len(),
        i <= b.len(),
        forall|j: int| 0 <= j < i ==> #[trigger] a[j] == b[j],
    ensures
        i < a.len() && i < b.len() && a[i] != b[i] ==> (text_before(a, b) <==> (a[i] as int) < (
        b[i] as int)),
        i == a.len() && i < b.len() ==> text_before(a, b) && !text_before(b, a),
        i == a.len() && i == b.len() ==> !text_before(a, b),
    decreases i,
{
    if i > 0 {
        let x = a.drop_first();
        let y = b.drop_first();
        assert(a[0] == b[0]);
        assert forall|j: int| 0 <= j < i - 1 implies #[trigger] x[j] == y[j] by {
            assert(a[j + 1] == b[j + 1]);
        }
        texts_are_ordered_where_they_differ(x, y, i - 1);
    }
}

/// A field of CSV without a comma, a quote or a line break is written as it is; any other stands
/// between quotes.
pub proof fn only_special_fields_are_quoted(value: Seq<char>)
    ensures
        (forall|i: int|
            0 <= i < value.len() ==> #[trigger] value[i] != ',' && value[i] != '"' && value[i]
                != '\n' && value[i] != '\r') ==> csv_text(value) == value,
        (exists|i: int|
            0 <= i < value.len() && (#[trigger] value[i] == ',' || value[i] == '"' || value[i]
                == '\n' || value[i] == '\r')) ==> {
            &&& csv_text(value).len() >= value.len() + 2
            &&& csv_text(value)[0] == '"'
            &&& csv_text(value).last() == '"'
        },
{
    lemma_doubled_is_longer(value);
    if exists|i: int|
        0 <= i < value.len() && (#[trigger] value[i] == ',' || value[i] == '"' || value[i] == '\n'
            || value[i] == '\r') {
        let i = choose|i: int|
            0 <= i < value.len() && (#[trigger] value[i] == ',' || value[i] == '"' || value[i]
                == '\n' || value[i] == '\r');
        assert(special(value[i]));
    }
}

proof fn lemma_doubled_is_longer(value: Seq<char>)
    ensures
        crate::csv::doubled(value).len() >= value.len(),
    decreases value.len(),
{
    if value.len() > 0 {
        lemma_doubled_is_longer(value.drop_last());
    }
}

/// A stored timestamp lies ahead exactly if it can be read and what it names is later, and a lease
/// holds exactly if it has an end that lies ahead.
pub proof fn later_times_lie_ahead(timestamp: Seq<char>, now: Moment)
    ensures
        ahead_of(timestamp, now) <==> crate::laws::claims::still_to_come(Some(timestamp), now),
        lease_holds(Some(timestamp), now) <==> crate::laws::claims::still_to_come(
            Some(timestamp),
            now,
        ),
        !lease_holds(None, now),
{
    assert(crate::time::rfc3339_form(timestamp) =~= Seq::new(
        timestamp.len() + 1,
        |i: int|
            if i == timestamp.len() {
                'Z'
            } else if timestamp[i] == ' ' {
                'T'
            } else {
                timestamp[i]
            },
    ));
}

/// Once a time lies ahead no more it never lies ahead again.
pub proof fn time_does_not_run_back(timestamp: Seq<char>, now: Moment, later: Moment)
    requires
        later.secs > now.secs || (later.secs == now.secs && later.nanos >= now.nanos),
        !ahead_of(timestamp, now),
    ensures
        !ahead_of(timestamp, later),
{
}

/// A time is written as the second it falls in, as long as that is one of a year of four digits.
pub proof fn times_are_written_up_to_the_last_year(now: Moment, seconds: nat)
    ensures
        now.secs + seconds <= 253_402_300_799 ==> datetime_after(now, seconds) == Some(
            datetime_text((now.secs + seconds) as i64),
        ),
        now.secs + seconds > 253_402_300_799 ==> datetime_after(now, seconds) is None,
{
}

/// A clock that shows a time of a year of four digits is taken at its word, and one that shows a
/// later time is held back to the last second of those; the nanoseconds stay.
pub proof fn clocks_are_held_back(shown: Moment)
    ensures
        shown.capped().nanos == shown.nanos,
        shown.secs <= 253_402_300_799 ==> shown.capped().secs == shown.secs,
        shown.secs > 253_402_300_799 ==> shown.capped().secs == 253_402_300_799,
        shown.valid() <==> 0 <= shown.secs <= 253_402_300_799,
{
}

/// Of the text of a time with a fraction and an offset what is stored is the date and the time of
/// day: nineteen characters, the `T` between them a blank.
pub proof fn stored_times_are_cut_to_the_second(text: Seq<char>)
    requires
        text.len() >= 19,
    ensures
        stored_form(text).len() == 19,
        forall|i: int|
            0 <= i < 19 ==> #[trigger] stored_form(text)[i] == if text[i] == 'T' {
                ' '
            } else {
                text[i]
            },
{
}

/// A timestamp column is rendered in UTC, down to the microsecond, under its own name.
pub proof fn columns_keep_their_names(col: Seq<char>)
    ensures
        ts_column(col).take(8) == "to_char("@,
        ts_column(col).subrange(8, 8 + col.len() as int) == col,
        ts_column(col).skip(ts_column(col).len() - col.len() as int) == col,
        ts_column(col).subrange(8 + col.len() as int, ts_column(col).len() - col.len() as int)
            == " AT TIME ZONE 'UTC', 'YYYY-MM-DD\"T\"HH24:MI:SS.US\"+00:00\"') AS "@,
{
    reveal_strlit("to_char(");
    let middle = " AT TIME ZONE 'UTC', 'YYYY-MM-DD\"T\"HH24:MI:SS.US\"+00:00\"') AS "@;
    let text = ts_column(col);
    assert(text.take(8) =~= "to_char("@);
    assert(text.subrange(8, 8 + col.len() as int) =~= col);
    assert(text.skip(text.len() - col.len() as int) =~= col);
    assert(text.subrange(8 + col.len() as int, text.len() - col.len() as int) =~= middle);
}

/// A stored text is told as the value that it reads as, or as the fault of its column; nothing
/// stored is nothing told.
pub proof fn stored_texts_are_read(text: Seq<char>)
    ensures
        json_reading(text) matches Ok(value) ==> stored_value(text) == Ok::<Seq<char>, Fault>(value),
        json_reading(text) matches Err(message) ==> stored_value(text) == Err::<Seq<char>, Fault>(
            Fault::Sqlite("Conversion error from type Text at index: 0, "@ + message),
        ),
        stored_option(None) == Ok::<Option<Seq<char>>, Fault>(None),
        json_reading(text) matches Ok(value) ==> stored_option(Some(text)) == Ok::<
            Option<Seq<char>>,
            Fault,
        >(Some(value)),
        json_reading(text) matches Err(message) ==> stored_option(Some(text)) == Err::<
            Option<Seq<char>>,
            Fault,
        >(Fault::Sqlite("Conversion error from type Text at index: 0, "@ + message)),
        list_reading(text) matches Ok(list) ==> stored_list(text) == Ok::<Seq<Seq<char>>, Fault>(
            list,
        ),
        list_reading(text) matches Err(message) ==> stored_list(text) == Err::<
            Seq<Seq<char>>,
            Fault,
        >(Fault::Sqlite("Conversion error from type Text at index: 0, "@ + message)),
{
}

/// The names under which failure classes and decisions are stored, and those of classes in reports.
pub proof fn classes_and_decisions_are_named(class: FailureClass, decision: ReviewDecision)
    ensures
        class is Transient ==> class_name(class) == "transient"@ && class_label(class)
            == "Transient"@,
        class is ResourceUnavailable ==> class_name(class) == "resource_unavailable"@
            && class_label(class) == "ResourceUnavailable"@,
        class is EvalException ==> class_name(class) == "eval_exception"@ && class_label(class)
            == "EvalException"@,
        class is DurableHarnessError ==> class_name(class) == "durable_harness_error"@
            && class_label(class) == "DurableHarnessError"@,
        class is ArtifactError ==> class_name(class) == "artifact_error"@ && class_label(class)
            == "ArtifactError"@,
        decision is PendingReview ==> decision_name(decision) == "pending_review"@,
        decision is ReviewedPass ==> decision_name(decision) == "reviewed_pass"@,
        decision is ReviewedFail ==> decision_name(decision) == "reviewed_fail"@,
        decision is ReviewedExcluded ==> decision_name(decision) == "reviewed_excluded"@,
{
}

/// A name that no class has stands for an exception of the eval.
pub proof fn unknown_names_are_exceptions(name: Seq<char>)
    requires
        forall|class: FailureClass| name != #[trigger] class_name(class),
    ensures
        class_named(name) is EvalException,
{
}

/// An error of the harness has the type and the message that it was given, and is never retried.
pub proof fn harness_errors_are_never_retried(error_type: Seq<char>, message: Seq<char>)
    ensures
        told_by_the_harness(harness_failure(error_type, message), error_type, message),
{
}

/// What is not found is answered with 404 under its own name, and everything else with 500; the
/// answer carries the fault in words, which name the database or what is missing.
pub proof fn faults_are_answered(fault: Fault)
    ensures
        fault is StepNotFound ==> fault_answer(fault).0 == 404 && told_by_the_harness(
            fault_answer(fault).1,
            "StepNotFound"@,
            "step not found"@,
        ),
        fault is TaskNotFound ==> fault_answer(fault).0 == 404 && told_by_the_harness(
            fault_answer(fault).1,
            "TaskNotFound"@,
            "task not found"@,
        ),
        !(fault is StepNotFound) && !(fault is TaskNotFound) ==> fault_answer(fault).0 == 500
            && told_by_the_harness(
            fault_answer(fault).1,
            "InternalServerError"@,
            fault_message(fault),
        ),
        fault matches Fault::Sqlite(words) ==> fault_message(fault) == "sqlite error: "@ + words,
        fault matches Fault::Postgres(words) ==> fault_message(fault) == "postgres error: "@
            + words,
        fault matches Fault::Json(words) ==> fault_message(fault) == "json error: "@ + words,
        fault is TaskClaimLost ==> fault_message(fault) == "task claim no longer active"@,
{
}

/// On Postgres what is no fault of SQLite is told unchanged, and what the database refuses is told in
/// its own words, unless a column held no JSON.
pub proof fn postgres_keeps_the_words(fault: Fault)
    ensures
        !(fault is Sqlite) ==> postgres_fault(fault) == fault,
        fault matches Fault::Sqlite(words) ==> {
            ||| postgres_fault(fault) == Fault::Postgres(words)
            ||| postgres_fault(fault) matches Fault::Json(message) && words
                == "Conversion error from type Text at index: 0, "@ + message
        },
        (fault matches Fault::Sqlite(words) && words.len() < 45) ==> postgres_fault(fault)
            is Postgres,
{
    reveal_strlit("Conversion error from type Text at index: 0, ");
    if let Fault::Sqlite(words) = fault {
        let prefix = "Conversion error from type Text at index: 0, "@;
        if prefix.is_prefix_of(words) {
            assert(words =~= prefix + words.skip(prefix.len() as int));
        }
    }
}

/// A request without an authorization header passes only if no token is configured or it asks for
/// the health of the server.
pub proof fn guarded_requests_need_a_header(token: Option<Seq<char>>, path: Seq<char>)
    ensures
        may_pass(token, path, None) <==> token is None || path == "/health"@,
{
}

/// A request passes exactly if no token is configured, it asks for the health of the server, or its
/// header is `Bearer`, a blank and the token.
pub proof fn requests_pass_with_the_token(
    token: &Option<String>,
    path: &str,
    header: &Option<String>,
    passes: bool,
)
    requires
        call_ensures(authorized, (token, path, header), passes),
    ensures
        passes <==> {
            ||| token is None
            ||| path@ == "/health"@
            ||| header is Some && header->0@ == "Bearer "@ + token->0@
        },
{
    if token is Some && path@ != "/health"@ {
        only_the_token_passes(token->0@, path@, opt_text(*header));
    }
}

/// What is not found is answered with 404 and its own name, and every other error with 500; a request
/// that does not pass is answered with 401.
pub proof fn errors_are_answered_by_what_they_are(
    error: Error,
    answer: (u16, ErrorInfo),
    refusal: (u16, ErrorInfo),
    words: String,
    internal: (u16, ErrorInfo),
)
    requires
        call_ensures(store_error, (error,), answer),
        call_ensures(unauthorized, (), refusal),
        call_ensures(internal_server_error, (words,), internal),
    ensures
        error is StepNotFound ==> answer.0 == 404 && told_by_the_harness(
            answer.1@,
            "StepNotFound"@,
            "step not found"@,
        ),
        error is TaskNotFound ==> answer.0 == 404 && told_by_the_harness(
            answer.1@,
            "TaskNotFound"@,
            "task not found"@,
        ),
        error is TaskClaimLost ==> answer.0 == 500 && told_by_the_harness(
            answer.1@,
            "InternalServerError"@,
            "task claim no longer active"@,
        ),
        error matches Error::Sqlite(said) ==> answer.0 == 500 && told_by_the_harness(
            answer.1@,
            "InternalServerError"@,
            "sqlite error: "@ + said@,
        ),
        error matches Error::Postgres(said) ==> answer.0 == 500 && told_by_the_harness(
            answer.1@,
            "InternalServerError"@,
            "postgres error: "@ + said@,
        ),
        error matches Error::Json(said) ==> answer.0 == 500 && told_by_the_harness(
            answer.1@,
            "InternalServerError"@,
            "json error: "@ + said@,
        ),
        refusal.0 == 401,
        told_by_the_harness(refusal.1@, "Unauthorized"@, "missing or invalid bearer token"@),
        internal.0 == 500,
        told_by_the_harness(internal.1@, "InternalServerError"@, words@),
{
}

/// An error in words names the database or what is missing.
pub proof fn errors_are_told_in_words(error: &Error, text: String)
    requires
        call_ensures(Error::message, (error,), text),
    ensures
        error is StepNotFound ==> text@ == "step not found"@,
        error is TaskNotFound ==> text@ == "task not found"@,
        error is TaskClaimLost ==> text@ == "task claim no longer active"@,
        error matches Error::Sqlite(said) ==> text@ == "sqlite error: "@ + said@,
        error matches Error::Postgres(said) ==> text@ == "postgres error: "@ + said@,
        error matches Error::Json(said) ==> text@ == "json error: "@ + said@,
{
}

/// On Postgres a column that holds no JSON is told by what is wrong with it, any other fault of the
/// database as one of Postgres, and everything else unchanged.
pub proof fn errors_on_postgres_are_its_own(error: Error, told: Error, message: Seq<char>)
    requires
        call_ensures(Error::on_postgres, (error,), told),
    ensures
        !(error is Sqlite) ==> told@ == error@,
        error matches Error::Sqlite(words) ==> {
            &&& words@ == "Conversion error from type Text at index: 0, "@ + message ==> told@
                == Fault::Json(message)
            &&& told@ == Fault::Postgres(words@) || (told@ matches Fault::Json(left) && words@
                == "Conversion error from type Text at index: 0, "@ + left)
        },
{
    postgres_keeps_the_words(error@);
    postgres_tells_its_own_faults(error@, message);
}

/// The delay after an attempt is twice that after the attempt before, up to the cap of the policy and
/// to what a number of 64 bits holds, where no jitter is asked for; the first is the base delay.
pub proof fn delays_double(
    policy: &RetryPolicy,
    attempt: u32,
    seed: u64,
    other: u64,
    delay: u64,
    next: u64,
)
    requires
        !policy.jitter,
        attempt < u32::MAX,
        call_ensures(RetryPolicy::backoff_delay_ms, (policy, attempt, seed), delay),
        call_ensures(RetryPolicy::backoff_delay_ms, (policy, (attempt + 1) as u32, other), next),
    ensures
        attempt <= 1 ==> delay == capped_delay(policy, policy.base_delay_ms as int),
        attempt >= 1 ==> next == capped_delay(policy, 2 * delay),
{
    each_attempt_doubles_the_delay(policy@, attempt as nat);
    jitter_scales_where_it_is_asked_for(policy@, attempt as nat, seed as nat);
    jitter_scales_where_it_is_asked_for(policy@, (attempt + 1) as nat, other as nat);
}

/// The delay, or the largest that the policy and a number of 64 bits allow.
pub open spec fn capped_delay(policy: &RetryPolicy, delay: int) -> int {
    let most = if policy.max_delay_ms > 0 {
        policy.max_delay_ms as int
    } else {
        0xffff_ffff_ffff_ffff
    };
    if delay < most {
        delay
    } else {
        most
    }
}

/// With jitter a delay below 2^40 milliseconds is scaled by `0.5 + k / 2000`, where `k` is the seed's
/// last three digits, down to the whole millisecond.
pub proof fn jitter_scales_the_delay(
    policy: &RetryPolicy,
    plain: &RetryPolicy,
    attempt: u32,
    seed: u64,
    other: u64,
    delay: u64,
    whole: u64,
)
    requires
        policy.jitter,
        !plain.jitter,
        plain.base_delay_ms == policy.base_delay_ms,
        plain.max_delay_ms == policy.max_delay_ms,
        call_ensures(RetryPolicy::backoff_delay_ms, (policy, attempt, seed), delay),
        call_ensures(RetryPolicy::backoff_delay_ms, (plain, attempt, other), whole),
    ensures
        whole > 0 ==> delay < whole,
        whole == 0 ==> delay == 0,
        whole < 0x100_0000_0000 ==> 2000 * delay <= whole * (1000 + seed % 1000) <= 2000 * (delay
            + 1),
{
    jitter_scales_where_it_is_asked_for(policy@, attempt as nat, seed as nat);
    jitter_scales_where_it_is_asked_for(plain@, attempt as nat, other as nat);
    jitter_shortens_up_to_the_cap(policy@, attempt as nat, seed as nat);
    assert(plain_delay(policy@, attempt as nat) == plain_delay(plain@, attempt as nat));
}

/// A policy that names nothing allows two attempts, waits for none of them, and retries what is
/// transient or wants a resource.
pub proof fn policies_have_defaults(attempts: u32, classes: Vec<FailureClass>, class: FailureClass)
    requires
        call_ensures(default_max_attempts, (), attempts),
        call_ensures(default_retryable_classes, (), classes),
    ensures
        attempts == 2,
        classes@.contains(class) <==> class is Transient || class is ResourceUnavailable,
{
    assert(classes@[0] == FailureClass::Transient);
    assert(classes@[1] == FailureClass::ResourceUnavailable);
}

/// A field of CSV reads back as what it was written for, whatever that is; and it is quoted only
/// where it has to be.
pub proof fn written_fields_read_back(value: &str, text: String, rest: Seq<char>)
    requires
        call_ensures(csv_field, (value,), text),
        rest.len() == 0 || rest[0] == ',' || rest[0] == '\n',
    ensures
        read_field(text@ + rest) == Some((value@, rest)),
        (forall|i: int|
            0 <= i < value@.len() ==> #[trigger] value@[i] != ',' && value@[i] != '"' && value@[i]
                != '\n' && value@[i] != '\r') ==> text@ == value@,
{
    csv_field_reads_back(value@, rest);
    only_special_fields_are_quoted(value@);
}

/// Digests spell out the SHA-256 of the bytes, and of a value that of its text.
pub proof fn digests_are_of_the_bytes(
    bytes: &[u8],
    digest: String,
    value: &Json,
    of_value: String,
)
    requires
        call_ensures(digest_bytes, (bytes,), digest),
        call_ensures(digest_json, (value,), of_value),
    ensures
        spells(digest@, sha256_digest(bytes@)),
        spells(of_value@, sha256_digest(vstd::utf8::encode_utf8(value@))),
{
    digests_spell_sha_256(bytes@);
    digests_spell_sha_256(vstd::utf8::encode_utf8(value@));
}

/// A number is written with the digits that stand for it.
pub proof fn numbers_are_written_in_digits(n: u64, text: String)
    requires
        call_ensures(decimal_text, (n,), text),
    ensures
        number_of(text@) == n,
        text@.len() > 1 ==> text@[0] != '0',
        forall|i: int| 0 <= i < text@.len() ==> '0' <= #[trigger] text@[i] <= '9',
{
    decimals_stand_for_their_numbers(n as nat);
}

/// A timestamp is in the future, and a lease is active, exactly if what is stored can be read and
/// names a later time.
pub proof fn only_later_times_are_in_the_future(
    text: &str,
    lease: &Option<String>,
    now: Moment,
    ahead: bool,
    active: bool,
)
    requires
        call_ensures(in_future_at, (text, now), ahead),
        call_ensures(lease_active_at, (lease, now), active),
    ensures
        ahead <==> crate::laws::claims::still_to_come(Some(text@), now),
        active <==> crate::laws::claims::still_to_come(opt_text(*lease), now),
{
    later_times_lie_ahead(text@, now);
    if let Some(end) = lease {
        later_times_lie_ahead(end@, now);
    }
}

/// A time is written as the second that it falls in, and one that lies so many seconds later as that
/// second, up to the last of the year 9999.
pub proof fn times_are_written(
    now: Moment,
    seconds: u64,
    text: String,
    later: Option<String>,
)
    requires
        call_ensures(timestamp, (now,), text),
        call_ensures(timestamp_after, (now, seconds), later),
    ensures
        text@ == datetime_text(now.secs),
        opt_text(later) == crate::laws::claims::stored_after(now, seconds as int),
{
    times_are_written_up_to_the_last_year(now, seconds as nat);
}

/// Statuses, classes and decisions are written under their names, and statuses and classes are read
/// back from them.
pub proof fn names_are_read_back(
    status: &Status,
    name: &'static str,
    found: Option<Status>,
    class: &FailureClass,
    called: &'static str,
    said: String,
    read: FailureClass,
)
    requires
        call_ensures(status_to_str, (status,), name),
        call_ensures(parse_status, (name,), found),
        call_ensures(failure_class_to_str, (class,), called),
        said@ == called@,
        call_ensures(parse_failure_class, (said,), read),
    ensures
        found == Some(*status),
        read == *class,
        status is Pending ==> name@ == "pending"@,
        status is Running ==> name@ == "running"@,
        status is Succeeded ==> name@ == "succeeded"@,
        status is Failed ==> name@ == "failed"@,
        status is Terminal ==> name@ == "terminal"@,
        class is Transient ==> called@ == "transient"@,
        class is ResourceUnavailable ==> called@ == "resource_unavailable"@,
        class is EvalException ==> called@ == "eval_exception"@,
        class is DurableHarnessError ==> called@ == "durable_harness_error"@,
        class is ArtifactError ==> called@ == "artifact_error"@,
{
    if let Some(other) = found {
        status_names_differ(other, *status);
    }
    class_survives_storage(*class);
}

/// Decisions are written under their names, and classes in reports under theirs.
pub proof fn decisions_and_labels_are_written(
    decision: &ReviewDecision,
    name: &'static str,
    class: &FailureClass,
    label: &'static str,
)
    requires
        call_ensures(review_to_str, (decision,), name),
        call_ensures(failure_class_label, (class,), label),
    ensures
        decision is PendingReview ==> name@ == "pending_review"@,
        decision is ReviewedPass ==> name@ == "reviewed_pass"@,
        decision is ReviewedFail ==> name@ == "reviewed_fail"@,
        decision is ReviewedExcluded ==> name@ == "reviewed_excluded"@,
        class is Transient ==> label@ == "Transient"@,
        class is ResourceUnavailable ==> label@ == "ResourceUnavailable"@,
        class is EvalException ==> label@ == "EvalException"@,
        class is DurableHarnessError ==> label@ == "DurableHarnessError"@,
        class is ArtifactError ==> label@ == "ArtifactError"@,
{
}

/// A name that stands for no class is read as an exception of the eval.
pub proof fn unknown_names_are_read_as_exceptions(name: String, class: FailureClass)
    requires
        call_ensures(parse_failure_class, (name,), class),
        name@ != "transient"@,
        name@ != "resource_unavailable"@,
        name@ != "durable_harness_error"@,
        name@ != "artifact_error"@,
    ensures
        class is EvalException,
{
}

/// What a column of Postgres is read by, and what is stored of it: the date and the time of day.
pub proof fn columns_are_read_to_the_second(
    col: &str,
    sql: String,
    text: &str,
    stored: String,
)
    requires
        call_ensures(ts_text, (col,), sql),
        call_ensures(stored_time, (text,), stored),
    ensures
        sql@ == "to_char("@ + col@
            + " AT TIME ZONE 'UTC', 'YYYY-MM-DD\"T\"HH24:MI:SS.US\"+00:00\"') AS "@ + col@,
        text@.len() >= 19 ==> stored@.len() == 19 && forall|i: int|
            0 <= i < 19 ==> #[trigger] stored@[i] == if text@[i] == 'T' {
                ' '
            } else {
                text@[i]
            },
{
    let middle = " AT TIME ZONE 'UTC', 'YYYY-MM-DD\"T\"HH24:MI:SS.US\"+00:00\"') AS "@;
    columns_keep_their_names(col@);
    assert(sql@ =~= "to_char("@ + col@ + middle + col@);
    if text@.len() >= 19 {
        stored_times_are_cut_to_the_second(text@);
    }
}

/// Of two moments the later one is after the other, by seconds and then by nanoseconds; a moment is
/// held back only past the last second of the year 9999.
pub proof fn moments_are_in_order(one: Moment, two: Moment, after: bool, kept: Moment)
    requires
        call_ensures(Moment::is_after, (one, two), after),
        call_ensures(Moment::cap, (one,), kept),
    ensures
        after <==> one.secs > two.secs || (one.secs == two.secs && one.nanos > two.nanos),
        kept.nanos == one.nanos,
        one.secs <= 253_402_300_799 ==> kept.secs == one.secs,
        one.secs > 253_402_300_799 ==> kept.secs == 253_402_300_799,
{
}

/// An error of the harness has the type and the message that it was given, and is never retried.
pub proof fn harness_errors_say_what_they_are_given(
    error_type: String,
    message: String,
    error: ErrorInfo,
)
    requires
        call_ensures(ErrorInfo::harness, (error_type, message), error),
    ensures
        error.error_type@ == error_type@,
        error.message@ == message@,
        error.failure_class is DurableHarnessError,
        error.stack is None,
        error.retryable == Some(false),
{
    assert(opt_text(error.stack) is None);
}

/// A value is read as what its text reads as, or refused with what is wrong with it; stored texts are
/// read in the same way, and nothing stored is nothing read.
pub proof fn values_are_read(
    text: &str,
    json: Result<Json, String>,
    required: Result<Json, Error>,
    list: Result<Vec<String>, Error>,
    stored: &Option<String>,
    optional: Result<Option<Json>, Error>,
)
    requires
        call_ensures(Json::parse, (text,), json),
        call_ensures(parse_required, (text,), required),
        call_ensures(parse_list, (text,), list),
        call_ensures(parse_optional, (stored,), optional),
    ensures
        json_reading(text@) matches Ok(value) ==> {
            &&& json is Ok && json->Ok_0@ == value
            &&& required is Ok && required->Ok_0@ == value
        },
        json_reading(text@) matches Err(message) ==> {
            &&& json is Err && json->Err_0@ == message
            &&& required is Err && required->Err_0@ == Fault::Sqlite(
                "Conversion error from type Text at index: 0, "@ + message,
            )
        },
        list_reading(text@) matches Ok(read) ==> list is Ok && texts(list->Ok_0@) == read,
        list_reading(text@) matches Err(message) ==> list is Err && list->Err_0@ == Fault::Sqlite(
            "Conversion error from type Text at index: 0, "@ + message,
        ),
        stored is None ==> optional is Ok && optional->Ok_0 is None,
        stored is Some ==> match json_reading(stored->0@) {
            Ok(value) => optional is Ok && optional->Ok_0 is Some && optional->Ok_0->0@ == value,
            Err(message) => optional is Err && optional->Err_0@ == Fault::Sqlite(
                "Conversion error from type Text at index: 0, "@ + message,
            ),
        },
{
}

/// Whatever the clock shows, it is a time that can be stored; and a timestamp is in the future, a
/// lease active and a retry pending as for some time that it can show.
pub proof fn the_clock_decides_what_is_ahead(
    text: &str,
    ahead: bool,
    pending: bool,
    lease: &Option<String>,
    active: bool,
    now: Moment,
    written: String,
)
    requires
        call_ensures(in_future, (text,), ahead),
        call_ensures(retry_pending, (text,), pending),
        call_ensures(lease_active, (lease,), active),
        call_ensures(clock, (), now),
        call_ensures(crate::time::now, (), written),
    ensures
        exists|at: Moment| #[trigger]
            at.valid() && (ahead <==> crate::laws::claims::still_to_come(Some(text@), at)),
        exists|at: Moment| #[trigger]
            at.valid() && (pending <==> crate::laws::claims::still_to_come(Some(text@), at)),
        exists|at: Moment| #[trigger]
            at.valid() && (active <==> crate::laws::claims::still_to_come(opt_text(*lease), at)),
        0 <= now.secs <= 253_402_300_799,
        now.nanos < 1_000_000_000,
        exists|at: Moment| #[trigger] at.valid() && written@ == datetime_text(at.secs),
{
    let one = choose|at: Moment| at.valid() && ahead == #[trigger] ahead_of(text@, at);
    later_times_lie_ahead(text@, one);
    assert(one.valid());
    let two = choose|at: Moment| at.valid() && pending == #[trigger] ahead_of(text@, at);
    later_times_lie_ahead(text@, two);
    assert(two.valid());
    let three = choose|at: Moment|
        at.valid() && active == #[trigger] lease_holds(opt_text(*lease), at);
    if let Some(end) = lease {
        later_times_lie_ahead(end@, three);
    }
    assert(three.valid());
    let four = choose|at: Moment| at.valid() && written@ == #[trigger] datetime_text(at.secs);
    assert(four.valid());
}

/// Jitter is drawn from the nanoseconds past a second.
pub proof fn jitter_is_drawn_from_the_nanoseconds(now: Moment, seed: u64, drawn: u64)
    requires
        call_ensures(jitter_seed_at, (now,), seed),
        call_ensures(jitter_seed, (), drawn),
    ensures
        seed == now.nanos,
        drawn < 1_000_000_000,
{
}

/// A policy that was not given is that of a request that names none, and an error that names no class
/// is an exception of the eval.
pub proof fn defaults_are_as_told(policy: RetryPolicy, class: FailureClass)
    requires
        call_ensures(<RetryPolicy as Default>::default, (), policy),
        call_ensures(<FailureClass as Default>::default, (), class),
    ensures
        policy.max_attempts == 2,
        policy.base_delay_ms == 0,
        policy.max_delay_ms == 0,
        !policy.jitter,
        policy.retryable@ == seq![FailureClass::Transient, FailureClass::ResourceUnavailable],
        policy.terminal@.len() == 0,
        class is EvalException,
{
    assert(policy@.terminal.len() == 0);
}

/// Plain values have the text that JSON writes for them, and a value keeps its text.
pub proof fn values_have_their_texts(
    none: Json,
    object: Json,
    value: &Json,
    text: &str,
    copy: Json,
    whole: Json,
    taken: String,
)
    requires
        call_ensures(Json::null, (), none),
        call_ensures(Json::empty_object, (), object),
        call_ensures(Json::text, (value,), text),
        call_ensures(Json::copy, (value,), copy),
        call_ensures(Json::into_text, (whole,), taken),
    ensures
        none@ == "null"@,
        object@ == "{}"@,
        text@ == value@,
        copy@ == value@,
        taken@ == whole@,
{
    reveal_strlit("null");
    assert("null"@ =~= crate::json::null_text());
}

} // verus!
