//! A unit of work: its status, its attempts, its lease and how each of them changes.
use vstd::prelude::*;

use crate::error::{result_view, Error, Fault};
use crate::failure::{harness_failure, ErrorInfo, ErrorState};
use crate::json::{
    conversion_failure, list_json, list_text, null_text, parse_optional, stored_option, Json,
};
use crate::retry::{backoff_delay, default_policy, retries, PolicyState, RetryPolicy};
use crate::text::{opt_text, same_text, text_of, texts};
use crate::time::{
    ahead_of, datetime_after, datetime_text, in_future_at, lease_active_at, lease_holds, timestamp,
    timestamp_after, written_time, Moment, LAST_SECOND,
};

verus! {

/// How far a unit of work has come.
#[derive(Debug, Clone, Copy, PartialEq, Eq, Structural)]
pub enum Status {
    /// Registered, never begun.
    Pending,
    /// Begun, neither completed nor failed.
    Running,
    /// Completed; its output is kept.
    Succeeded,
    /// Failed, and may be begun again.
    Failed,
    /// Failed for good.
    Terminal,
}

/// The name under which a status is stored.
pub open spec fn status_name(status: Status) -> Seq<char> {
    match status {
        Status::Pending => "pending"@,
        Status::Running => "running"@,
        Status::Succeeded => "succeeded"@,
        Status::Failed => "failed"@,
        Status::Terminal => "terminal"@,
    }
}

/// Names the status.
pub fn status_to_str(status: &Status) -> (name: &'static str)
    ensures
        name@ == status_name(*status),
{
    match status {
        Status::Pending => "pending",
        Status::Running => "running",
        Status::Succeeded => "succeeded",
        Status::Failed => "failed",
        Status::Terminal => "terminal",
    }
}

/// The status with that name.
pub fn parse_status(name: &str) -> (status: Option<Status>)
    ensures
        match status {
            Some(found) => name@ == status_name(found),
            None => forall|other: Status| name@ != #[trigger] status_name(other),
        },
{
    if same_text(name, "pending") {
        Some(Status::Pending)
    } else if same_text(name, "running") {
        Some(Status::Running)
    } else if same_text(name, "succeeded") {
        Some(Status::Succeeded)
    } else if same_text(name, "failed") {
        Some(Status::Failed)
    } else if same_text(name, "terminal") {
        Some(Status::Terminal)
    } else {
        None
    }
}

/// No two statuses share a name.
pub proof fn status_names_differ(a: Status, b: Status)
    ensures
        status_name(a) == status_name(b) ==> a == b,
{
    reveal_strlit("pending");
    reveal_strlit("running");
    reveal_strlit("succeeded");
    reveal_strlit("failed");
    reveal_strlit("terminal");
    if a != b && status_name(a) == status_name(b) {
        assert(status_name(a).len() == status_name(b).len());
        assert(status_name(a)[0] == status_name(b)[0]);
    }
}

/// The error column of a unit of work.
#[derive(Debug, Clone, PartialEq, Eq)]
pub enum StoredError {
    Absent,
    Present(ErrorInfo),
    /// What is stored is no error report; the message says why.
    Damaged(String),
}

/// What a `StoredError` says.
pub enum StoredErrorState {
    Absent,
    Present(ErrorState),
    Damaged(Seq<char>),
}

impl View for StoredError {
    type V = StoredErrorState;

    open spec fn view(&self) -> StoredErrorState {
        match self {
            StoredError::Absent => StoredErrorState::Absent,
            StoredError::Present(error) => StoredErrorState::Present(error@),
            StoredError::Damaged(message) => StoredErrorState::Damaged(message@),
        }
    }
}

/// What is read from the error column.
pub open spec fn stored_error(stored: StoredErrorState) -> Result<Option<ErrorState>, Fault> {
    match stored {
        StoredErrorState::Absent => Ok(None),
        StoredErrorState::Present(error) => Ok(Some(error)),
        StoredErrorState::Damaged(message) => Err(Fault::Sqlite(conversion_failure(message))),
    }
}

impl StoredError {
    /// Reads the error column.
    pub fn read(&self) -> (error: Result<Option<ErrorInfo>, Error>)
        ensures
            match error {
                Ok(Some(info)) => stored_error(self@) == Ok::<Option<ErrorState>, Fault>(
                    Some(info@),
                ),
                Ok(None) => stored_error(self@) == Ok::<Option<ErrorState>, Fault>(None),
                Err(error) => stored_error(self@) == Err::<Option<ErrorState>, Fault>(error@),
            },
    {
        match self {
            StoredError::Absent => Ok(None),
            StoredError::Present(error) => Ok(Some(error.copy())),
            StoredError::Damaged(message) => Err(
                Error::Sqlite(
                    text_of("Conversion error from type Text at index: 0, ").concat(
                        message.as_str(),
                    ),
                ),
            ),
        }
    }
}

/// A unit of work, be it a step or a task of a dataset.
#[derive(Debug, Clone, PartialEq, Eq)]
pub struct Work {
    pub status: Status,
    /// How often it was begun, or failed before that was counted.
    pub attempt: u32,
    pub config_json: String,
    pub dependencies_json: String,
    pub variants_json: String,
    /// The policy of the latest attempt; nothing if what is stored is no policy.
    pub retry: Option<RetryPolicy>,
    pub output_json: Option<String>,
    pub error: StoredError,
    pub lease_owner: Option<String>,
    pub lease_acquired_at: Option<String>,
    pub lease_expires_at: Option<String>,
    pub heartbeat_at: Option<String>,
    pub retry_at: Option<String>,
    pub started_at: Option<String>,
    pub completed_at: Option<String>,
    pub updated_at: String,
}

/// What a `Work` says.
#[verifier::ext_equal]
pub struct WorkState {
    pub status: Status,
    pub attempt: u32,
    pub config_json: Seq<char>,
    pub dependencies_json: Seq<char>,
    pub variants_json: Seq<char>,
    pub retry: Option<PolicyState>,
    pub output_json: Option<Seq<char>>,
    pub error: StoredErrorState,
    pub lease_owner: Option<Seq<char>>,
    pub lease_acquired_at: Option<Seq<char>>,
    pub lease_expires_at: Option<Seq<char>>,
    pub heartbeat_at: Option<Seq<char>>,
    pub retry_at: Option<Seq<char>>,
    pub started_at: Option<Seq<char>>,
    pub completed_at: Option<Seq<char>>,
    pub updated_at: Seq<char>,
}

/// What an optional policy says.
pub open spec fn opt_policy(policy: Option<RetryPolicy>) -> Option<PolicyState> {
    match policy {
        Some(policy) => Some(policy@),
        None => None,
    }
}

impl View for Work {
    type V = WorkState;

    open spec fn view(&self) -> WorkState {
        WorkState {
            status: self.status,
            attempt: self.attempt,
            config_json: self.config_json@,
            dependencies_json: self.dependencies_json@,
            variants_json: self.variants_json@,
            retry: opt_policy(self.retry),
            output_json: opt_text(self.output_json),
            error: self.error@,
            lease_owner: opt_text(self.lease_owner),
            lease_acquired_at: opt_text(self.lease_acquired_at),
            lease_expires_at: opt_text(self.lease_expires_at),
            heartbeat_at: opt_text(self.heartbeat_at),
            retry_at: opt_text(self.retry_at),
            started_at: opt_text(self.started_at),
            completed_at: opt_text(self.completed_at),
            updated_at: self.updated_at@,
        }
    }
}

/// What a worker asks for when it begins a unit of work.
#[derive(Debug, Clone, PartialEq, Eq)]
pub struct Claim {
    pub config: Json,
    pub dependencies: Vec<String>,
    pub variants: Json,
    pub retry: RetryPolicy,
    pub worker_id: Option<String>,
    pub lease_seconds: Option<u32>,
}

/// What a `Claim` says.
#[verifier::ext_equal]
pub struct ClaimState {
    pub config: Seq<char>,
    pub dependencies: Seq<Seq<char>>,
    pub variants: Seq<char>,
    pub retry: PolicyState,
    pub worker_id: Option<Seq<char>>,
    pub lease_seconds: Option<u32>,
}

impl View for Claim {
    type V = ClaimState;

    open spec fn view(&self) -> ClaimState {
        ClaimState {
            config: self.config@,
            dependencies: texts(self.dependencies@),
            variants: self.variants@,
            retry: self.retry@,
            worker_id: opt_text(self.worker_id),
            lease_seconds: self.lease_seconds,
        }
    }
}

/// What a worker is told that wants to begin a unit of work.
#[derive(Debug, Clone, PartialEq, Eq)]
pub enum Outcome {
    /// Go ahead; this is the attempt.
    Execute { attempt: u32 },
    /// Done before; this is its output.
    SkipCompleted { output: Json },
    /// Another worker holds it.
    InProgress,
    /// It failed for good.
    FailedTerminal { error: ErrorInfo },
    /// It failed, and may be begun again from then on.
    RetryLater { retry_at: String },
}

/// What an `Outcome` says.
pub enum OutcomeState {
    Execute { attempt: u32 },
    SkipCompleted { output: Seq<char> },
    InProgress,
    FailedTerminal { error: ErrorState },
    RetryLater { retry_at: Seq<char> },
}

impl View for Outcome {
    type V = OutcomeState;

    open spec fn view(&self) -> OutcomeState {
        match self {
            Outcome::Execute { attempt } => OutcomeState::Execute { attempt: *attempt },
            Outcome::SkipCompleted { output } => OutcomeState::SkipCompleted { output: output@ },
            Outcome::InProgress => OutcomeState::InProgress,
            Outcome::FailedTerminal { error } => OutcomeState::FailedTerminal { error: error@ },
            Outcome::RetryLater { retry_at } => OutcomeState::RetryLater { retry_at: retry_at@ },
        }
    }
}

/// How long a lease is that does not say.
pub const DEFAULT_LEASE_SECONDS: u32 = 300;

/// Work that was registered and nothing more.
pub open spec fn fresh(now: Moment) -> WorkState {
    WorkState {
        status: Status::Pending,
        attempt: 0,
        config_json: "null"@,
        dependencies_json: "[]"@,
        variants_json: "{}"@,
        retry: Some(default_policy()),
        output_json: None,
        error: StoredErrorState::Absent,
        lease_owner: None,
        lease_acquired_at: None,
        lease_expires_at: None,
        heartbeat_at: None,
        retry_at: None,
        started_at: None,
        completed_at: None,
        updated_at: datetime_text(now.secs),
    }
}

/// How many seconds a claim holds the work.
pub open spec fn lease_of(claim: ClaimState) -> nat {
    match claim.lease_seconds {
        Some(seconds) => seconds as nat,
        None => DEFAULT_LEASE_SECONDS as nat,
    }
}

/// The work on its `attempt`, held under the claim from `now` on. The first start stays.
pub open spec fn claimed(
    work: WorkState,
    attempt: u32,
    claim: ClaimState,
    now: Moment,
) -> WorkState {
    WorkState {
        status: Status::Running,
        attempt,
        config_json: claim.config,
        dependencies_json: list_text(claim.dependencies),
        variants_json: claim.variants,
        retry: Some(claim.retry),
        lease_owner: claim.worker_id,
        lease_acquired_at: Some(datetime_text(now.secs)),
        lease_expires_at: datetime_after(now, lease_of(claim)),
        heartbeat_at: Some(datetime_text(now.secs)),
        retry_at: None,
        started_at: match work.started_at {
            Some(first) => Some(first),
            None => Some(datetime_text(now.secs)),
        },
        updated_at: datetime_text(now.secs),
        ..work
    }
}

/// What is told of work that failed for good without a report.
pub open spec fn unreported_failure() -> ErrorState {
    harness_failure("StepFailed"@, "step failed"@)
}

/// What is told of work that has no attempt left.
pub open spec fn attempts_exceeded() -> ErrorState {
    harness_failure("MaxAttemptsExceeded"@, "step exceeded retry policy max_attempts"@)
}

/// What is told of work that was completed.
pub open spec fn skipped(work: WorkState) -> Result<OutcomeState, Fault> {
    match stored_option(work.output_json) {
        Ok(Some(output)) => Ok(OutcomeState::SkipCompleted { output }),
        Ok(None) => Ok(OutcomeState::SkipCompleted { output: null_text() }),
        Err(fault) => Err(fault),
    }
}

/// What is told of work that failed for good.
pub open spec fn ended(work: WorkState) -> Result<OutcomeState, Fault> {
    match stored_error(work.error) {
        Ok(Some(error)) => Ok(OutcomeState::FailedTerminal { error }),
        Ok(None) => Ok(OutcomeState::FailedTerminal { error: unreported_failure() }),
        Err(fault) => Err(fault),
    }
}

/// Another worker's lease holds the work at `now`.
pub open spec fn held(work: WorkState, now: Moment) -> bool {
    work.status is Running && lease_holds(work.lease_expires_at, now)
}

/// The work failed and its backoff has not elapsed at `now`.
pub open spec fn waiting(work: WorkState, now: Moment) -> bool {
    &&& work.status is Failed
    &&& work.retry_at matches Some(retry_at) && ahead_of(retry_at, now)
}

/// What becomes of the work, and what the worker is told, when a claim is made at `now`.
pub open spec fn begun(work: WorkState, claim: ClaimState, now: Moment) -> (
    WorkState,
    Result<OutcomeState, Fault>,
) {
    if work.status is Succeeded {
        (work, skipped(work))
    } else if work.status is Terminal {
        (work, ended(work))
    } else if held(work, now) {
        (work, Ok(OutcomeState::InProgress))
    } else if work.attempt >= claim.retry.max_attempts {
        (
            WorkState {
                status: Status::Terminal,
                updated_at: datetime_text(now.secs),
                ..work
            },
            Ok(OutcomeState::FailedTerminal { error: attempts_exceeded() }),
        )
    } else if waiting(work, now) {
        (work, Ok(OutcomeState::RetryLater { retry_at: work.retry_at->0 }))
    } else {
        let attempt = (work.attempt + 1) as u32;
        (claimed(work, attempt, claim, now), Ok(OutcomeState::Execute { attempt }))
    }
}

/// The work with its output; the lease is given up.
pub open spec fn completed(work: WorkState, output: Seq<char>, now: Moment) -> WorkState {
    WorkState {
        status: Status::Succeeded,
        output_json: Some(output),
        error: StoredErrorState::Absent,
        lease_owner: None,
        lease_expires_at: None,
        completed_at: Some(datetime_text(now.secs)),
        updated_at: datetime_text(now.secs),
        ..work
    }
}

/// The policy that decides on a failure of the work.
pub open spec fn policy_of(work: WorkState) -> PolicyState {
    match work.retry {
        Some(policy) => policy,
        None => default_policy(),
    }
}

/// The seconds until a failure may be retried: the backoff in milliseconds, rounded up.
pub open spec fn backoff_seconds(work: WorkState, seed: nat) -> nat {
    (backoff_delay(policy_of(work), work.attempt as nat, seed) + 999) / 1000
}

/// When a retried failure may be begun again; nothing for at once.
pub open spec fn retry_time(work: WorkState, now: Moment, seed: nat) -> Option<Seq<char>> {
    if backoff_seconds(work, seed) > 0 {
        datetime_after(now, backoff_seconds(work, seed))
    } else {
        None
    }
}

/// The work with the failure reported; the lease is given up.
pub open spec fn failed(work: WorkState, error: ErrorState, now: Moment, seed: nat) -> WorkState {
    let retried = retries(policy_of(work), error);
    WorkState {
        status: if retried {
            Status::Failed
        } else {
            Status::Terminal
        },
        error: StoredErrorState::Present(error),
        lease_owner: None,
        lease_expires_at: None,
        retry_at: if retried {
            retry_time(work, now, seed)
        } else {
            None
        },
        completed_at: Some(datetime_text(now.secs)),
        updated_at: datetime_text(now.secs),
        ..work
    }
}

/// The worker holds the work: it is running, and the lease is the worker's.
pub open spec fn owned(work: WorkState, worker_id: Seq<char>) -> bool {
    work.status is Running && work.lease_owner == Some(worker_id)
}

/// The expiry of the claim's lease, if it lies before the end of the year 9999, reads back.
pub open spec fn lease_reads_back(claim: ClaimState, now: Moment) -> bool {
    now.secs + lease_of(claim) <= LAST_SECOND ==> written_time((now.secs + lease_of(claim)) as i64)
}

/// The time of the retry, if there is one before the end of the year 9999, reads back.
pub open spec fn retry_reads_back(work: WorkState, now: Moment, seed: nat) -> bool {
    0 < backoff_seconds(work, seed) <= LAST_SECOND - now.secs ==> written_time(
        (now.secs + backoff_seconds(work, seed)) as i64,
    )
}

/// The expiry of a lease that a heartbeat extends, if it lies before the end of the year 9999,
/// reads back.
pub open spec fn beat_reads_back(lease_seconds: nat, now: Moment) -> bool {
    now.secs + lease_seconds <= LAST_SECOND ==> written_time((now.secs + lease_seconds) as i64)
}

/// The work with its lease extended from `now` on.
pub open spec fn beaten(work: WorkState, lease_seconds: nat, now: Moment) -> WorkState {
    WorkState {
        heartbeat_at: Some(datetime_text(now.secs)),
        lease_expires_at: datetime_after(now, lease_seconds),
        ..work
    }
}

/// The claim that a request rests on is still good: the attempt it names is the work's, and the
/// worker it names holds the lease. A request that names neither rests on none.
pub open spec fn claim_stands(
    work: WorkState,
    attempt: Option<u32>,
    worker_id: Option<Seq<char>>,
) -> bool {
    &&& attempt matches Some(named) ==> named == work.attempt
    &&& worker_id matches Some(named) ==> work.lease_owner == Some(named)
}

impl Work {
    /// Work that was registered and nothing more.
    pub fn new(now: Moment) -> (work: Work)
        requires
            now.valid(),
        ensures
            work@ == fresh(now),
    {
        Work {
            status: Status::Pending,
            attempt: 0,
            config_json: text_of("null"),
            dependencies_json: text_of("[]"),
            variants_json: text_of("{}"),
            retry: Some(RetryPolicy::default()),
            output_json: None,
            error: StoredError::Absent,
            lease_owner: None,
            lease_acquired_at: None,
            lease_expires_at: None,
            heartbeat_at: None,
            retry_at: None,
            started_at: None,
            completed_at: None,
            updated_at: timestamp(now),
        }
    }

    /// Puts the work on its `attempt`, held under the claim from `now` on.
    pub fn claim(&mut self, attempt: u32, claim: Claim, now: Moment)
        requires
            now.valid(),
        ensures
            final(self)@ == claimed(old(self)@, attempt, claim@, now),
            lease_reads_back(claim@, now),
    {
        let seconds: u32 = match claim.lease_seconds {
            Some(seconds) => seconds,
            None => DEFAULT_LEASE_SECONDS,
        };
        self.status = Status::Running;
        self.attempt = attempt;
        self.config_json = claim.config.into_text();
        self.dependencies_json = list_json(&claim.dependencies);
        self.variants_json = claim.variants.into_text();
        self.retry = Some(claim.retry);
        self.lease_owner = claim.worker_id;
        self.lease_acquired_at = Some(timestamp(now));
        self.lease_expires_at = timestamp_after(now, seconds as u64);
        self.heartbeat_at = Some(timestamp(now));
        self.retry_at = None;
        if self.started_at.is_none() {
            self.started_at = Some(timestamp(now));
        }
        self.updated_at = timestamp(now);
    }

    /// Makes a claim at `now` and tells the worker what comes of it.
    pub fn begin(&mut self, claim: Claim, now: Moment) -> (outcome: Result<Outcome, Error>)
        requires
            now.valid(),
        ensures
            final(self)@ == begun(old(self)@, claim@, now).0,
            result_view(outcome) == begun(old(self)@, claim@, now).1,
            outcome matches Ok(Outcome::Execute { attempt }) ==> lease_reads_back(claim@, now),
    {
        match self.status {
            Status::Succeeded => {
                return match parse_optional(&self.output_json) {
                    Ok(Some(output)) => Ok(Outcome::SkipCompleted { output }),
                    Ok(None) => Ok(Outcome::SkipCompleted { output: Json::null() }),
                    Err(error) => Err(error),
                };
            },
            Status::Terminal => {
                return match self.error.read() {
                    Ok(Some(error)) => Ok(Outcome::FailedTerminal { error }),
                    Ok(None) => Ok(
                        Outcome::FailedTerminal {
                            error: ErrorInfo::harness(
                                text_of("StepFailed"),
                                text_of("step failed"),
                            ),
                        },
                    ),
                    Err(error) => Err(error),
                };
            },
            Status::Running => {
                if lease_active_at(&self.lease_expires_at, now) {
                    return Ok(Outcome::InProgress);
                }
            },
            _ => {},
        }
        if self.attempt >= claim.retry.max_attempts {
            self.status = Status::Terminal;
            self.updated_at = timestamp(now);
            return Ok(
                Outcome::FailedTerminal {
                    error: ErrorInfo::harness(
                        text_of("MaxAttemptsExceeded"),
                        text_of("step exceeded retry policy max_attempts"),
                    ),
                },
            );
        }
        // A failure whose backoff has not elapsed yet must wait.
        if let Status::Failed = self.status {
            if let Some(retry_at) = &self.retry_at {
                if in_future_at(retry_at.as_str(), now) {
                    return Ok(Outcome::RetryLater { retry_at: retry_at.clone() });
                }
            }
        }
        let attempt: u32 = self.attempt + 1;
        self.claim(attempt, claim, now);
        Ok(Outcome::Execute { attempt })
    }

    /// Keeps the output.
    pub fn complete(&mut self, output: Json, now: Moment)
        requires
            now.valid(),
        ensures
            final(self)@ == completed(old(self)@, output@, now),
    {
        self.status = Status::Succeeded;
        self.output_json = Some(output.into_text());
        self.error = StoredError::Absent;
        self.lease_owner = None;
        self.lease_expires_at = None;
        self.completed_at = Some(timestamp(now));
        self.updated_at = timestamp(now);
    }

    /// The policy that decides on a failure.
    pub fn policy(&self) -> (policy: RetryPolicy)
        ensures
            policy@ == policy_of(self@),
    {
        match &self.retry {
            Some(policy) => policy.copy(),
            None => RetryPolicy::default(),
        }
    }

    /// Reports a failure; returns whether it is retried.
    pub fn fail(&mut self, error: ErrorInfo, now: Moment, seed: u64) -> (retried: bool)
        requires
            now.valid(),
        ensures
            final(self)@ == failed(old(self)@, error@, now, seed as nat),
            retried == retries(policy_of(old(self)@), error@),
            retried ==> retry_reads_back(old(self)@, now, seed as nat),
    {
        let policy = self.policy();
        let retried = policy.retries(&error);
        self.retry_at = None;
        if retried {
            let delay: u64 = policy.backoff_delay_ms(self.attempt, seed);
            let seconds: u64 = delay / 1000 + if delay % 1000 > 0 {
                1
            } else {
                0
            };
            if seconds > 0 {
                self.retry_at = timestamp_after(now, seconds);
            }
            self.status = Status::Failed;
        } else {
            self.status = Status::Terminal;
        }
        self.error = StoredError::Present(error);
        self.lease_owner = None;
        self.lease_expires_at = None;
        self.completed_at = Some(timestamp(now));
        self.updated_at = timestamp(now);
        retried
    }

    /// Extends the lease if the worker holds the work; returns whether it does.
    pub fn heartbeat(&mut self, worker_id: &String, lease_seconds: u32, now: Moment) -> (kept: bool)
        requires
            now.valid(),
        ensures
            kept == owned(old(self)@, worker_id@),
            final(self)@ == if kept {
                beaten(old(self)@, lease_seconds as nat, now)
            } else {
                old(self)@
            },
            kept ==> beat_reads_back(lease_seconds as nat, now),
    {
        let kept = self.is_owned(worker_id);
        if kept {
            self.heartbeat_at = Some(timestamp(now));
            self.lease_expires_at = timestamp_after(now, lease_seconds as u64);
        }
        kept
    }

    fn is_owned(&self, worker_id: &String) -> (owns: bool)
        ensures
            owns == owned(self@, worker_id@),
    {
        if let Status::Running = self.status {
            if let Some(owner) = &self.lease_owner {
                return *owner == *worker_id;
            }
        }
        false
    }

    /// Whether the claim that a request rests on is still good.
    pub fn claim_holds(&self, attempt: Option<u32>, worker_id: &Option<String>) -> (stands: bool)
        ensures
            stands == claim_stands(self@, attempt, opt_text(*worker_id)),
    {
        if let Some(named) = attempt {
            if named != self.attempt {
                return false;
            }
        }
        if let Some(named) = worker_id {
            match &self.lease_owner {
                Some(owner) => {
                    if *owner != *named {
                        return false;
                    }
                },
                None => {
                    return false;
                },
            }
        }
        true
    }
}

} // verus!
