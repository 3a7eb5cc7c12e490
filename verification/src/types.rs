//! Requests and what is told in reply.
use vstd::prelude::*;

use crate::failure::{ErrorInfo, ErrorState};
use crate::json::{opt_json, Json};
use crate::retry::RetryPolicy;
use crate::rows::ReviewDecision;
use crate::text::{opt_text, texts};

verus! {

/// What an optional error report says.
pub open spec fn opt_error(error: Option<ErrorInfo>) -> Option<ErrorState> {
    match error {
        Some(error) => Some(error@),
        None => None,
    }
}

/// What a list of counts says.
pub open spec fn counted(counts: Seq<(String, u32)>) -> Seq<(Seq<char>, u32)> {
    Seq::new(counts.len(), |i: int| (counts[i].0@, counts[i].1))
}

/// What a request without an answer of its own is told.
#[derive(Debug, Clone, PartialEq, Eq)]
pub struct Health {
    pub ok: bool,
}

/// Register a run, or change its name and configuration.
#[derive(Debug, Clone, PartialEq, Eq)]
pub struct RegisterRunRequest {
    pub run_id: String,
    pub name: Option<String>,
    pub config: Json,
}

/// Begin a unit of work. It is found by `(run_id, kind, input_digest)`, where `kind` is the name of
/// a step (a group of one) or of a dataset (a registered set of tasks).
#[derive(Debug, Clone, PartialEq, Eq)]
pub struct BeginRequest {
    pub run_id: String,
    pub kind: String,
    pub input_digest: String,
    pub config: Json,
    pub dependencies: Vec<String>,
    pub retry: RetryPolicy,
    pub worker_id: Option<String>,
    pub lease_seconds: Option<u32>,
}

/// Complete a unit of work. Where it names an attempt or a worker, the claim must still be good.
#[derive(Debug, Clone, PartialEq, Eq)]
pub struct CompleteRequest {
    pub run_id: String,
    pub kind: String,
    pub input_digest: String,
    pub attempt: Option<u32>,
    pub worker_id: Option<String>,
    pub output: Json,
}

/// Report that a unit of work failed. Where it names an attempt or a worker, the claim must still
/// be good.
#[derive(Debug, Clone, PartialEq, Eq)]
pub struct FailRequest {
    pub run_id: String,
    pub kind: String,
    pub input_digest: String,
    pub attempt: Option<u32>,
    pub worker_id: Option<String>,
    pub error: ErrorInfo,
}

/// Extend the lease on a unit of work.
#[derive(Debug, Clone, PartialEq, Eq)]
pub struct HeartbeatRequest {
    pub run_id: String,
    pub kind: String,
    pub input_digest: String,
    pub worker_id: String,
    pub lease_seconds: u32,
}

/// Begin a step.
#[derive(Debug, Clone, PartialEq, Eq)]
pub struct BeginStepRequest {
    pub run_id: String,
    pub step_name: String,
    pub input_digest: String,
    pub config: Json,
    pub dependencies: Vec<String>,
    pub variants: Json,
    pub retry: RetryPolicy,
    pub worker_id: Option<String>,
    pub lease_seconds: Option<u32>,
}

/// Complete a step, with what it made.
#[derive(Debug, Clone, PartialEq, Eq)]
pub struct CompleteStepRequest {
    pub run_id: String,
    pub step_name: String,
    pub input_digest: String,
    pub output: Json,
    pub artifacts: Vec<Artifact>,
}

/// Report that a step failed.
#[derive(Debug, Clone, PartialEq, Eq)]
pub struct FailStepRequest {
    pub run_id: String,
    pub step_name: String,
    pub input_digest: String,
    pub error: ErrorInfo,
}

/// Extend the lease on a step.
#[derive(Debug, Clone, PartialEq, Eq)]
pub struct HeartbeatStepRequest {
    pub run_id: String,
    pub step_name: String,
    pub input_digest: String,
    pub worker_id: String,
    pub lease_seconds: u32,
}

/// Register the tasks of a dataset. Steps skip this and let `begin` insert their single row.
#[derive(Debug, Clone, PartialEq, Eq)]
pub struct RegisterDatasetRequest {
    pub run_id: String,
    pub kind: String,
    pub tasks: Vec<TaskInput>,
}

/// List the tasks of a dataset; an empty filter passes every task.
#[derive(Debug, Clone, PartialEq, Eq)]
pub struct ListRequest {
    pub run_id: String,
    pub kind: String,
    pub statuses: Vec<String>,
    pub categories: Vec<String>,
}

/// Complete a task of a dataset.
#[derive(Debug, Clone, PartialEq, Eq)]
pub struct CompleteTaskRequest {
    pub run_id: String,
    pub kind: String,
    pub input_digest: String,
    pub output: Json,
}

/// Report that a task of a dataset failed, and how often it may.
#[derive(Debug, Clone, PartialEq, Eq)]
pub struct FailTaskRequest {
    pub run_id: String,
    pub kind: String,
    pub input_digest: String,
    pub error: ErrorInfo,
    pub max_attempts: u32,
}

/// Report that a started task of a dataset failed.
#[derive(Debug, Clone, PartialEq, Eq)]
pub struct FailCaseRequest {
    pub run_id: String,
    pub kind: String,
    pub input_digest: String,
    pub error: ErrorInfo,
}

/// Replace the variants of a run along one dimension.
#[derive(Debug, Clone, PartialEq, Eq)]
pub struct RegisterVariantsRequest {
    pub run_id: String,
    pub dimension: String,
    pub variants: Vec<VariantInput>,
}

/// Make a worker known.
#[derive(Debug, Clone, PartialEq, Eq)]
pub struct RegisterWorkerRequest {
    pub worker_id: String,
    pub hostname: Option<String>,
    pub process_id: Option<u32>,
    pub resources: Json,
}

/// Record a decision on a task.
#[derive(Debug, Clone, PartialEq, Eq)]
pub struct ReviewRequest {
    pub run_id: String,
    pub kind: String,
    pub task_id: String,
    pub reviewer: String,
    pub decision: ReviewDecision,
    pub note: Option<String>,
}

/// List trace events of a run. Every other field narrows the result; without them it is every event
/// of the run.
#[derive(Debug, Clone, PartialEq, Eq)]
pub struct ListTraceEventsRequest {
    pub run_id: String,
    pub kind: Option<String>,
    pub task_id: Option<String>,
    pub attempt: Option<u32>,
    pub event_type: Vec<String>,
}

/// Read a memo.
#[derive(Debug, Clone, PartialEq, Eq)]
pub struct MemoGetRequest {
    pub run_id: String,
    pub key_digest: String,
}

/// Write a memo.
#[derive(Debug, Clone, PartialEq, Eq)]
pub struct MemoPutRequest {
    pub run_id: String,
    pub key_digest: String,
    pub key: Json,
    pub value: Json,
}

/// Sum up a run.
#[derive(Debug, Clone, PartialEq, Eq)]
pub struct SummaryRequest {
    pub run_id: String,
}

/// Export a run.
#[derive(Debug, Clone, PartialEq, Eq)]
pub struct ExportRequest {
    pub run_id: String,
    pub kind: ExportKind,
}

/// An artifact that a step made.
#[derive(Debug, Clone, PartialEq, Eq)]
pub struct Artifact {
    pub artifact_id: String,
    pub name: String,
    pub kind: String,
    pub path: Option<String>,
    pub inline_json: Option<Json>,
    pub sha256: String,
    pub size: u64,
    pub valid: bool,
}

/// What an `Artifact` says.
#[verifier::ext_equal]
pub struct ArtifactInput {
    pub artifact_id: Seq<char>,
    pub name: Seq<char>,
    pub kind: Seq<char>,
    pub path: Option<Seq<char>>,
    pub inline_json: Option<Seq<char>>,
    pub sha256: Seq<char>,
    pub size: u64,
    pub valid: bool,
}

impl View for Artifact {
    type V = ArtifactInput;

    open spec fn view(&self) -> ArtifactInput {
        ArtifactInput {
            artifact_id: self.artifact_id@,
            name: self.name@,
            kind: self.kind@,
            path: opt_text(self.path),
            inline_json: opt_json(self.inline_json),
            sha256: self.sha256@,
            size: self.size,
            valid: self.valid,
        }
    }
}

/// A task to register.
#[derive(Debug, Clone, PartialEq, Eq)]
pub struct TaskInput {
    pub input_digest: String,
    pub input: Json,
    pub label: Option<String>,
    pub category: Option<String>,
}

/// What a `TaskInput` says.
#[verifier::ext_equal]
pub struct TaskInputState {
    pub input_digest: Seq<char>,
    pub input: Seq<char>,
    pub label: Option<Seq<char>>,
    pub category: Option<Seq<char>>,
}

impl View for TaskInput {
    type V = TaskInputState;

    open spec fn view(&self) -> TaskInputState {
        TaskInputState {
            input_digest: self.input_digest@,
            input: self.input@,
            label: opt_text(self.label),
            category: opt_text(self.category),
        }
    }
}

/// A variant to register.
#[derive(Debug, Clone, PartialEq, Eq)]
pub struct VariantInput {
    pub name: String,
    pub config: Json,
    pub digest: String,
}

/// What a `VariantInput` says.
#[verifier::ext_equal]
pub struct VariantInputState {
    pub name: Seq<char>,
    pub config: Seq<char>,
    pub digest: Seq<char>,
}

impl View for VariantInput {
    type V = VariantInputState;

    open spec fn view(&self) -> VariantInputState {
        VariantInputState {
            name: self.name@,
            config: self.config@,
            digest: self.digest@,
        }
    }
}

/// Add an event to the trace of a task.
#[derive(Debug, Clone, PartialEq, Eq)]
pub struct TraceEventRequest {
    pub run_id: String,
    pub kind: String,
    pub task_id: String,
    pub attempt: u32,
    pub event_type: String,
    pub payload: Json,
    pub artifact_ids: Vec<String>,
}

/// What a `TraceEventRequest` says.
#[verifier::ext_equal]
pub struct TraceEventState {
    pub run_id: Seq<char>,
    pub kind: Seq<char>,
    pub task_id: Seq<char>,
    pub attempt: u32,
    pub event_type: Seq<char>,
    pub payload: Seq<char>,
    pub artifact_ids: Seq<Seq<char>>,
}

impl View for TraceEventRequest {
    type V = TraceEventState;

    open spec fn view(&self) -> TraceEventState {
        TraceEventState {
            run_id: self.run_id@,
            kind: self.kind@,
            task_id: self.task_id@,
            attempt: self.attempt,
            event_type: self.event_type@,
            payload: self.payload@,
            artifact_ids: texts(self.artifact_ids@),
        }
    }
}

/// A task of a dataset as it is told.
#[derive(Debug, Clone, PartialEq, Eq)]
pub struct TaskRecord {
    pub run_id: String,
    pub kind: String,
    pub input_digest: String,
    pub label: Option<String>,
    pub category: Option<String>,
    pub status: String,
    pub attempt: u32,
    pub input: Json,
    pub output: Option<Json>,
    pub error: Option<ErrorInfo>,
    pub started_at: Option<String>,
    pub completed_at: Option<String>,
}

/// What a `TaskRecord` says.
#[verifier::ext_equal]
pub struct TaskRecordState {
    pub run_id: Seq<char>,
    pub kind: Seq<char>,
    pub input_digest: Seq<char>,
    pub label: Option<Seq<char>>,
    pub category: Option<Seq<char>>,
    pub status: Seq<char>,
    pub attempt: u32,
    pub input: Seq<char>,
    pub output: Option<Seq<char>>,
    pub error: Option<ErrorState>,
    pub started_at: Option<Seq<char>>,
    pub completed_at: Option<Seq<char>>,
}

impl View for TaskRecord {
    type V = TaskRecordState;

    open spec fn view(&self) -> TaskRecordState {
        TaskRecordState {
            run_id: self.run_id@,
            kind: self.kind@,
            input_digest: self.input_digest@,
            label: opt_text(self.label),
            category: opt_text(self.category),
            status: self.status@,
            attempt: self.attempt,
            input: self.input@,
            output: opt_json(self.output),
            error: opt_error(self.error),
            started_at: opt_text(self.started_at),
            completed_at: opt_text(self.completed_at),
        }
    }
}

/// An event in the trace of a task as it is told.
#[derive(Debug, Clone, PartialEq, Eq)]
pub struct TraceEventRecord {
    pub id: i64,
    pub run_id: String,
    pub kind: String,
    pub task_id: String,
    pub attempt: u32,
    pub event_index: u32,
    pub event_type: String,
    pub payload: Json,
    pub artifact_ids: Vec<String>,
    pub created_at: String,
}

/// What a `TraceEventRecord` says.
#[verifier::ext_equal]
pub struct TraceRecordState {
    pub id: i64,
    pub run_id: Seq<char>,
    pub kind: Seq<char>,
    pub task_id: Seq<char>,
    pub attempt: u32,
    pub event_index: u32,
    pub event_type: Seq<char>,
    pub payload: Seq<char>,
    pub artifact_ids: Seq<Seq<char>>,
    pub created_at: Seq<char>,
}

impl View for TraceEventRecord {
    type V = TraceRecordState;

    open spec fn view(&self) -> TraceRecordState {
        TraceRecordState {
            id: self.id,
            run_id: self.run_id@,
            kind: self.kind@,
            task_id: self.task_id@,
            attempt: self.attempt,
            event_index: self.event_index,
            event_type: self.event_type@,
            payload: self.payload@,
            artifact_ids: texts(self.artifact_ids@),
            created_at: self.created_at@,
        }
    }
}

/// A variant as it is told.
#[derive(Debug, Clone, PartialEq, Eq)]
pub struct VariantRecord {
    pub run_id: String,
    pub dimension: String,
    pub name: String,
    pub config: Json,
    pub digest: String,
}

/// What a `VariantRecord` says.
#[verifier::ext_equal]
pub struct VariantRecordState {
    pub run_id: Seq<char>,
    pub dimension: Seq<char>,
    pub name: Seq<char>,
    pub config: Seq<char>,
    pub digest: Seq<char>,
}

impl View for VariantRecord {
    type V = VariantRecordState;

    open spec fn view(&self) -> VariantRecordState {
        VariantRecordState {
            run_id: self.run_id@,
            dimension: self.dimension@,
            name: self.name@,
            config: self.config@,
            digest: self.digest@,
        }
    }
}

/// A worker as it is told.
#[derive(Debug, Clone, PartialEq, Eq)]
pub struct WorkerRecord {
    pub worker_id: String,
    pub hostname: Option<String>,
    pub process_id: Option<u32>,
    pub resources: Json,
    pub heartbeat_at: String,
}

/// What a `WorkerRecord` says.
#[verifier::ext_equal]
pub struct WorkerRecordState {
    pub worker_id: Seq<char>,
    pub hostname: Option<Seq<char>>,
    pub process_id: Option<u32>,
    pub resources: Seq<char>,
    pub heartbeat_at: Seq<char>,
}

impl View for WorkerRecord {
    type V = WorkerRecordState;

    open spec fn view(&self) -> WorkerRecordState {
        WorkerRecordState {
            worker_id: self.worker_id@,
            hostname: opt_text(self.hostname),
            process_id: self.process_id,
            resources: self.resources@,
            heartbeat_at: self.heartbeat_at@,
        }
    }
}

/// What is known of a memo.
#[derive(Debug, Clone, PartialEq, Eq)]
pub struct MemoGetResponse {
    pub found: bool,
    pub value: Option<Json>,
}

/// What a `MemoGetResponse` says.
#[verifier::ext_equal]
pub struct MemoReply {
    pub found: bool,
    pub value: Option<Seq<char>>,
}

impl View for MemoGetResponse {
    type V = MemoReply;

    open spec fn view(&self) -> MemoReply {
        MemoReply {
            found: self.found,
            value: opt_json(self.value),
        }
    }
}

/// A run in numbers. Each list of counts is sorted by name and leaves out what does not occur.
#[derive(Debug, Clone, PartialEq, Eq)]
pub struct RunSummary {
    pub run_id: String,
    pub name: Option<String>,
    pub config: Json,
    pub config_digest: String,
    pub step_counts: Vec<(String, u32)>,
    pub task_counts: Vec<(String, u32)>,
    pub artifact_count: u32,
    pub failure_counts: Vec<(String, u32)>,
    pub started_at: Option<String>,
    pub completed_at: Option<String>,
}

/// What a `RunSummary` says.
#[verifier::ext_equal]
pub struct RunSummaryState {
    pub run_id: Seq<char>,
    pub name: Option<Seq<char>>,
    pub config: Seq<char>,
    pub config_digest: Seq<char>,
    pub step_counts: Seq<(Seq<char>, u32)>,
    pub task_counts: Seq<(Seq<char>, u32)>,
    pub artifact_count: u32,
    pub failure_counts: Seq<(Seq<char>, u32)>,
    pub started_at: Option<Seq<char>>,
    pub completed_at: Option<Seq<char>>,
}

impl View for RunSummary {
    type V = RunSummaryState;

    open spec fn view(&self) -> RunSummaryState {
        RunSummaryState {
            run_id: self.run_id@,
            name: opt_text(self.name),
            config: self.config@,
            config_digest: self.config_digest@,
            step_counts: counted(self.step_counts@),
            task_counts: counted(self.task_counts@),
            artifact_count: self.artifact_count,
            failure_counts: counted(self.failure_counts@),
            started_at: opt_text(self.started_at),
            completed_at: opt_text(self.completed_at),
        }
    }
}

/// An export: what kind of text it is, and the text.
#[derive(Debug, Clone, PartialEq, Eq)]
pub struct ExportResponse {
    pub content_type: String,
    pub body: String,
}

/// What an `ExportResponse` says.
#[verifier::ext_equal]
pub struct ExportState {
    pub content_type: Seq<char>,
    pub body: Seq<char>,
}

impl View for ExportResponse {
    type V = ExportState;

    open spec fn view(&self) -> ExportState {
        ExportState {
            content_type: self.content_type@,
            body: self.body@,
        }
    }
}

/// A dataset in numbers.
#[derive(Debug, Clone, Copy, PartialEq, Eq, Structural)]
pub struct DatasetSummary {
    pub total: u32,
    pub pending: u32,
    pub running: u32,
    pub succeeded: u32,
    pub failed: u32,
    pub terminal: u32,
}

impl View for DatasetSummary {
    type V = DatasetSummary;

    open spec fn view(&self) -> DatasetSummary {
        *self
    }
}

/// What to export.
#[derive(Debug, Clone, Copy, PartialEq, Eq, Structural)]
pub enum ExportKind {
    ManifestJson,
    TaskResultsJsonl,
    FailureReportJson,
    FailureReportCsv,
    AggregateMetricsJson,
    AggregateMetricsCsv,
}

} // verus!
