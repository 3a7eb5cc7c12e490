//! What can go wrong, and how it is answered.
use vstd::prelude::*;

use crate::failure::{harness_failure, ErrorInfo, ErrorState};
use crate::json::conversion_failure;
use crate::text::{same_text, text_of};

verus! {

/// Why a request could not be served.
#[derive(Debug, Clone, PartialEq, Eq)]
pub enum Error {
    /// The SQLite database refused or could not be read; its own words.
    Sqlite(String),
    /// The Postgres database refused or could not be read; its own words.
    Postgres(String),
    /// A value could not be written as JSON, or read from it.
    Json(String),
    /// No step under that name and input.
    StepNotFound,
    /// No task under that name and input.
    TaskNotFound,
    /// The task has moved on: another attempt runs, or another worker holds it.
    TaskClaimLost,
}

/// What an `Error` says.
pub enum Fault {
    Sqlite(Seq<char>),
    Postgres(Seq<char>),
    Json(Seq<char>),
    StepNotFound,
    TaskNotFound,
    TaskClaimLost,
}

impl View for Error {
    type V = Fault;

    open spec fn view(&self) -> Fault {
        match self {
            Error::Sqlite(words) => Fault::Sqlite(words@),
            Error::Postgres(words) => Fault::Postgres(words@),
            Error::Json(words) => Fault::Json(words@),
            Error::StepNotFound => Fault::StepNotFound,
            Error::TaskNotFound => Fault::TaskNotFound,
            Error::TaskClaimLost => Fault::TaskClaimLost,
        }
    }
}

/// What a result says.
pub open spec fn result_view<T: View>(result: Result<T, Error>) -> Result<T::V, Fault> {
    match result {
        Ok(value) => Ok(value@),
        Err(error) => Err(error@),
    }
}

/// What a list says, item by item.
pub open spec fn views<T: View>(list: Seq<T>) -> Seq<T::V> {
    Seq::new(list.len(), |i: int| list[i]@)
}

/// What a result with a list says.
pub open spec fn list_view<T: View>(result: Result<Vec<T>, Error>) -> Result<Seq<T::V>, Fault> {
    match result {
        Ok(list) => Ok(views(list@)),
        Err(error) => Err(error@),
    }
}

/// The fault in words.
pub open spec fn fault_message(fault: Fault) -> Seq<char> {
    match fault {
        Fault::Sqlite(words) => "sqlite error: "@ + words,
        Fault::Postgres(words) => "postgres error: "@ + words,
        Fault::Json(words) => "json error: "@ + words,
        Fault::StepNotFound => "step not found"@,
        Fault::TaskNotFound => "task not found"@,
        Fault::TaskClaimLost => "task claim no longer active"@,
    }
}

/// How a fault is answered over HTTP: the status code and what is told of it. What is not there
/// is 404, all else 500.
pub open spec fn fault_answer(fault: Fault) -> (u16, ErrorState) {
    match fault {
        Fault::StepNotFound => (
            404,
            harness_failure("StepNotFound"@, fault_message(fault)),
        ),
        Fault::TaskNotFound => (
            404,
            harness_failure("TaskNotFound"@, fault_message(fault)),
        ),
        _ => (500, harness_failure("InternalServerError"@, fault_message(fault))),
    }
}

impl Error {
    /// The error in words.
    pub fn message(&self) -> (text: String)
        ensures
            text@ == fault_message(self@),
    {
        match self {
            Error::Sqlite(words) => text_of("sqlite error: ").concat(words.as_str()),
            Error::Postgres(words) => text_of("postgres error: ").concat(words.as_str()),
            Error::Json(words) => text_of("json error: ").concat(words.as_str()),
            Error::StepNotFound => text_of("step not found"),
            Error::TaskNotFound => text_of("task not found"),
            Error::TaskClaimLost => text_of("task claim no longer active"),
        }
    }
}

/// What the words with which a column is refused begin with.
pub open spec fn conversion_prefix() -> Seq<char> {
    "Conversion error from type Text at index: 0, "@
}

/// A fault as a store on Postgres tells it: a column that holds no JSON is a fault of the JSON, and
/// what the database refuses is a fault of Postgres.
pub open spec fn postgres_fault(fault: Fault) -> Fault {
    match fault {
        Fault::Sqlite(words) => if conversion_prefix().is_prefix_of(words) {
            Fault::Json(words.skip(conversion_prefix().len() as int))
        } else {
            Fault::Postgres(words)
        },
        _ => fault,
    }
}

impl Error {
    /// The error as a store on Postgres tells it.
    pub fn on_postgres(self) -> (error: Error)
        ensures
            error@ == postgres_fault(self@),
    {
        match self {
            Error::Sqlite(words) => {
                let text = words.as_str();
                let length: usize = text.unicode_len();
                proof {
                    reveal_strlit("Conversion error from type Text at index: 0, ");
                }
                if length >= 45 {
                    assert(text@.take(45) == text@.subrange(0, 45));
                    assert(text@.skip(45) == text@.subrange(45, length as int));
                    if same_text(
                        text.substring_char(0, 45),
                        "Conversion error from type Text at index: 0, ",
                    ) {
                        return Error::Json(text_of(text.substring_char(45, length)));
                    }
                }
                Error::Postgres(words)
            },
            _ => self,
        }
    }
}

/// On Postgres no fault is told as one of SQLite, and a column that holds no JSON is told by what
/// is wrong with it.
pub proof fn postgres_tells_its_own_faults(fault: Fault, message: Seq<char>)
    ensures
        !(postgres_fault(fault) is Sqlite),
        postgres_fault(Fault::Sqlite(conversion_failure(message))) == Fault::Json(message),
{
    let words = conversion_failure(message);
    assert(words.take(conversion_prefix().len() as int) =~= conversion_prefix());
    assert(words.skip(conversion_prefix().len() as int) =~= message);
}

/// The answer to a request that failed for a reason of the server's own.
pub fn internal_server_error(message: String) -> (answer: (u16, ErrorInfo))
    ensures
        answer.0 == 500,
        answer.1@ == harness_failure("InternalServerError"@, message@),
{
    (500, ErrorInfo::harness(text_of("InternalServerError"), message))
}

/// The answer to a request that failed with `error`.
pub fn store_error(error: Error) -> (answer: (u16, ErrorInfo))
    ensures
        answer.0 == fault_answer(error@).0,
        answer.1@ == fault_answer(error@).1,
{
    match error {
        Error::StepNotFound => (
            404,
            ErrorInfo::harness(text_of("StepNotFound"), error.message()),
        ),
        Error::TaskNotFound => (
            404,
            ErrorInfo::harness(text_of("TaskNotFound"), error.message()),
        ),
        _ => internal_server_error(error.message()),
    }
}

/// What follows `"Bearer "` in an authorization header.
pub open spec fn bearer_token(header: Seq<char>) -> Option<Seq<char>> {
    if header.len() >= 7 && header.take(7) == "Bearer "@ {
        Some(header.skip(7))
    } else {
        None
    }
}

/// The request may pass: no token is configured, or it asks for the health of the server, or it
/// carries that token.
pub open spec fn may_pass(
    token: Option<Seq<char>>,
    path: Seq<char>,
    header: Option<Seq<char>>,
) -> bool {
    match token {
        None => true,
        Some(expected) => path == "/health"@ || match header {
            Some(text) => bearer_token(text) == Some(expected),
            None => false,
        },
    }
}

/// Whether a request for `path` may pass, given the configured token and its authorization
/// header.
pub fn authorized(token: &Option<String>, path: &str, header: &Option<String>) -> (passes: bool)
    ensures
        passes == may_pass(
            crate::text::opt_text(*token),
            path@,
            crate::text::opt_text(*header),
        ),
{
    match token {
        None => true,
        Some(expected) => {
            if crate::text::same_text(path, "/health") {
                return true;
            }
            match header {
                None => false,
                Some(text) => {
                    let text = text.as_str();
                    let length: usize = text.unicode_len();
                    proof {
                        reveal_strlit("Bearer ");
                    }
                    if length < 7 || !crate::text::same_text(
                        text.substring_char(0, 7),
                        "Bearer ",
                    ) {
                        assert(text@.len() >= 7 ==> text@.take(7) == text@.subrange(0, 7));
                        return false;
                    }
                    assert(text@.take(7) == text@.subrange(0, 7));
                    assert(text@.skip(7) == text@.subrange(7, length as int));
                    crate::text::same_text(text.substring_char(7, length), expected.as_str())
                },
            }
        },
    }
}

/// What a request is told that may not pass; its status code is 401.
pub fn unauthorized() -> (answer: (u16, ErrorInfo))
    ensures
        answer.0 == 401,
        answer.1@ == harness_failure("Unauthorized"@, "missing or invalid bearer token"@),
{
    (401, ErrorInfo::harness(text_of("Unauthorized"), text_of("missing or invalid bearer token")))
}

/// Without a configured token every request passes, and the health of the server is never
/// guarded.
pub proof fn health_stays_open(
    token: Option<Seq<char>>,
    path: Seq<char>,
    header: Option<Seq<char>>,
)
    ensures
        token is None ==> may_pass(token, path, header),
        path == "/health"@ ==> may_pass(token, path, header),
{
}

/// With a token, a guarded request passes exactly if its header is `Bearer`, a blank and the
/// token.
pub proof fn only_the_token_passes(expected: Seq<char>, path: Seq<char>, header: Option<Seq<char>>)
    requires
        path != "/health"@,
    ensures
        may_pass(Some(expected), path, header) <==> header == Some("Bearer "@ + expected),
{
    reveal_strlit("Bearer ");
    if let Some(text) = header {
        if text == "Bearer "@ + expected {
            assert(text.take(7) =~= "Bearer "@);
            assert(text.skip(7) =~= expected);
        }
        if bearer_token(text) == Some(expected) {
            assert(text =~= text.take(7) + text.skip(7));
        }
    }
}

} // verus!
