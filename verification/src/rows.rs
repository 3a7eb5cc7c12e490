//! What the store holds: its rows, and the order they are listed in.
use vstd::prelude::*;

use crate::failure::FailureClass;
use crate::order::{Listed, Logged, Ranked};
use crate::table::{ref_texts, Row};
use crate::text::{
    is_before, lemma_text_before_irreflexive, lemma_text_before_total, lemma_text_before_transitive,
    opt_text, text_before,
};
use crate::work::{Work, WorkState};

verus! {

/// What can be decided on a task.
#[derive(Debug, Clone, Copy, PartialEq, Eq, Structural)]
pub enum ReviewDecision {
    PendingReview,
    ReviewedPass,
    ReviewedFail,
    ReviewedExcluded,
}

/// The name under which a decision is stored.
pub open spec fn decision_name(decision: ReviewDecision) -> Seq<char> {
    match decision {
        ReviewDecision::PendingReview => "pending_review"@,
        ReviewDecision::ReviewedPass => "reviewed_pass"@,
        ReviewDecision::ReviewedFail => "reviewed_fail"@,
        ReviewDecision::ReviewedExcluded => "reviewed_excluded"@,
    }
}

/// Names the decision.
pub fn review_to_str(decision: &ReviewDecision) -> (name: &'static str)
    ensures
        name@ == decision_name(*decision),
{
    match decision {
        ReviewDecision::PendingReview => "pending_review",
        ReviewDecision::ReviewedPass => "reviewed_pass",
        ReviewDecision::ReviewedFail => "reviewed_fail",
        ReviewDecision::ReviewedExcluded => "reviewed_excluded",
    }
}

/// A registered run.
#[derive(Debug, Clone, PartialEq, Eq)]
pub struct RunRow {
    pub run_id: String,
    pub name: Option<String>,
    pub config_json: String,
    pub config_digest: String,
    pub created_at: String,
    pub updated_at: String,
}

/// What a `RunRow` says under its key.
#[verifier::ext_equal]
pub struct RunState {
    pub name: Option<Seq<char>>,
    pub config_json: Seq<char>,
    pub config_digest: Seq<char>,
    pub created_at: Seq<char>,
    pub updated_at: Seq<char>,
}

impl View for RunRow {
    type V = RunState;

    open spec fn view(&self) -> RunState {
        RunState {
            name: opt_text(self.name),
            config_json: self.config_json@,
            config_digest: self.config_digest@,
            created_at: self.created_at@,
            updated_at: self.updated_at@,
        }
    }
}

impl Row for RunRow {
    open spec fn key(&self) -> Seq<Seq<char>> {
        seq![self.run_id@]
    }

    fn key_columns(&self) -> (columns: Vec<&String>) {
        let columns = vec![&self.run_id];
        assert(ref_texts(columns@) =~= self.key());
        columns
    }
}

/// An artifact of a completed step.
#[derive(Debug, Clone, PartialEq, Eq)]
pub struct ArtifactRow {
    pub artifact_id: String,
    pub run_id: String,
    pub step_name: String,
    pub input_digest: String,
    pub name: String,
    pub kind: String,
    pub path: Option<String>,
    pub inline_json: Option<String>,
    pub sha256: String,
    pub size: u64,
    pub valid: bool,
    pub created_at: String,
}

/// What a `ArtifactRow` says under its key.
#[verifier::ext_equal]
pub struct ArtifactState {
    pub run_id: Seq<char>,
    pub step_name: Seq<char>,
    pub input_digest: Seq<char>,
    pub name: Seq<char>,
    pub kind: Seq<char>,
    pub path: Option<Seq<char>>,
    pub inline_json: Option<Seq<char>>,
    pub sha256: Seq<char>,
    pub size: u64,
    pub valid: bool,
    pub created_at: Seq<char>,
}

impl View for ArtifactRow {
    type V = ArtifactState;

    open spec fn view(&self) -> ArtifactState {
        ArtifactState {
            run_id: self.run_id@,
            step_name: self.step_name@,
            input_digest: self.input_digest@,
            name: self.name@,
            kind: self.kind@,
            path: opt_text(self.path),
            inline_json: opt_text(self.inline_json),
            sha256: self.sha256@,
            size: self.size,
            valid: self.valid,
            created_at: self.created_at@,
        }
    }
}

impl Row for ArtifactRow {
    open spec fn key(&self) -> Seq<Seq<char>> {
        seq![self.artifact_id@]
    }

    fn key_columns(&self) -> (columns: Vec<&String>) {
        let columns = vec![&self.artifact_id];
        assert(ref_texts(columns@) =~= self.key());
        columns
    }
}

/// A task of a dataset.
#[derive(Debug, Clone, PartialEq, Eq)]
pub struct TaskRow {
    pub run_id: String,
    pub kind: String,
    pub input_digest: String,
    pub label: Option<String>,
    pub category: Option<String>,
    pub position: u32,
    pub generation: u32,
    pub input_json: String,
    pub created_at: String,
    pub work: Work,
}

/// What a `TaskRow` says under its key.
#[verifier::ext_equal]
pub struct TaskState {
    pub label: Option<Seq<char>>,
    pub category: Option<Seq<char>>,
    pub position: u32,
    pub generation: u32,
    pub input_json: Seq<char>,
    pub created_at: Seq<char>,
    pub work: WorkState,
}

impl View for TaskRow {
    type V = TaskState;

    open spec fn view(&self) -> TaskState {
        TaskState {
            label: opt_text(self.label),
            category: opt_text(self.category),
            position: self.position,
            generation: self.generation,
            input_json: self.input_json@,
            created_at: self.created_at@,
            work: self.work@,
        }
    }
}

impl Row for TaskRow {
    open spec fn key(&self) -> Seq<Seq<char>> {
        seq![self.run_id@, self.kind@, self.input_digest@]
    }

    fn key_columns(&self) -> (columns: Vec<&String>) {
        let columns = vec![&self.run_id, &self.kind, &self.input_digest];
        assert(ref_texts(columns@) =~= self.key());
        columns
    }
}

/// A memoized value.
#[derive(Debug, Clone, PartialEq, Eq)]
pub struct MemoRow {
    pub run_id: String,
    pub key_digest: String,
    pub key_json: String,
    pub value_json: String,
    pub created_at: String,
}

/// What a `MemoRow` says under its key.
#[verifier::ext_equal]
pub struct MemoState {
    pub key_json: Seq<char>,
    pub value_json: Seq<char>,
    pub created_at: Seq<char>,
}

impl View for MemoRow {
    type V = MemoState;

    open spec fn view(&self) -> MemoState {
        MemoState {
            key_json: self.key_json@,
            value_json: self.value_json@,
            created_at: self.created_at@,
        }
    }
}

impl Row for MemoRow {
    open spec fn key(&self) -> Seq<Seq<char>> {
        seq![self.run_id@, self.key_digest@]
    }

    fn key_columns(&self) -> (columns: Vec<&String>) {
        let columns = vec![&self.run_id, &self.key_digest];
        assert(ref_texts(columns@) =~= self.key());
        columns
    }
}

/// A variant of a run along one dimension.
#[derive(Debug, Clone, PartialEq, Eq)]
pub struct VariantRow {
    pub run_id: String,
    pub dimension: String,
    pub name: String,
    pub config_json: String,
    pub digest: String,
}

/// What a `VariantRow` says under its key.
#[verifier::ext_equal]
pub struct VariantState {
    pub config_json: Seq<char>,
    pub digest: Seq<char>,
}

impl View for VariantRow {
    type V = VariantState;

    open spec fn view(&self) -> VariantState {
        VariantState {
            config_json: self.config_json@,
            digest: self.digest@,
        }
    }
}

impl Row for VariantRow {
    open spec fn key(&self) -> Seq<Seq<char>> {
        seq![self.run_id@, self.dimension@, self.name@]
    }

    fn key_columns(&self) -> (columns: Vec<&String>) {
        let columns = vec![&self.run_id, &self.dimension, &self.name];
        assert(ref_texts(columns@) =~= self.key());
        columns
    }
}

/// A worker and when it was last heard of.
#[derive(Debug, Clone, PartialEq, Eq)]
pub struct WorkerRow {
    pub worker_id: String,
    pub hostname: Option<String>,
    pub process_id: Option<u32>,
    pub resources_json: String,
    pub heartbeat_at: String,
}

/// What a `WorkerRow` says under its key.
#[verifier::ext_equal]
pub struct WorkerState {
    pub hostname: Option<Seq<char>>,
    pub process_id: Option<u32>,
    pub resources_json: Seq<char>,
    pub heartbeat_at: Seq<char>,
}

impl View for WorkerRow {
    type V = WorkerState;

    open spec fn view(&self) -> WorkerState {
        WorkerState {
            hostname: opt_text(self.hostname),
            process_id: self.process_id,
            resources_json: self.resources_json@,
            heartbeat_at: self.heartbeat_at@,
        }
    }
}

impl Row for WorkerRow {
    open spec fn key(&self) -> Seq<Seq<char>> {
        seq![self.worker_id@]
    }

    fn key_columns(&self) -> (columns: Vec<&String>) {
        let columns = vec![&self.worker_id];
        assert(ref_texts(columns@) =~= self.key());
        columns
    }
}

/// A step.
#[derive(Debug, Clone, PartialEq, Eq)]
pub struct StepRow {
    pub run_id: String,
    pub step_name: String,
    pub input_digest: String,
    pub work: Work,
}

impl View for StepRow {
    type V = WorkState;

    open spec fn view(&self) -> WorkState {
        self.work@
    }
}

impl Row for StepRow {
    open spec fn key(&self) -> Seq<Seq<char>> {
        seq![self.run_id@, self.step_name@, self.input_digest@]
    }

    fn key_columns(&self) -> (columns: Vec<&String>) {
        let columns = vec![&self.run_id, &self.step_name, &self.input_digest];
        assert(ref_texts(columns@) =~= self.key());
        columns
    }
}

/// A dataset and which registration of it counts.
#[derive(Debug, Clone, PartialEq, Eq)]
pub struct DatasetRow {
    pub run_id: String,
    pub kind: String,
    pub generation: u32,
}

impl View for DatasetRow {
    type V = u32;

    open spec fn view(&self) -> u32 {
        self.generation
    }
}

impl Row for DatasetRow {
    open spec fn key(&self) -> Seq<Seq<char>> {
        seq![self.run_id@, self.kind@]
    }

    fn key_columns(&self) -> (columns: Vec<&String>) {
        let columns = vec![&self.run_id, &self.kind];
        assert(ref_texts(columns@) =~= self.key());
        columns
    }
}

/// A failure of a step, as it was reported.
#[derive(Debug, Clone, PartialEq, Eq)]
pub struct FailureRecord {
    pub run_id: String,
    pub step_name: String,
    pub input_digest: String,
    pub attempt: u32,
    pub failure_class: FailureClass,
    pub error_type: String,
    pub message: String,
    pub stack: Option<String>,
    pub retryable: bool,
    pub timestamp: String,
}

/// What a `FailureRecord` says.
#[verifier::ext_equal]
pub struct FailureState {
    pub run_id: Seq<char>,
    pub step_name: Seq<char>,
    pub input_digest: Seq<char>,
    pub attempt: u32,
    pub failure_class: FailureClass,
    pub error_type: Seq<char>,
    pub message: Seq<char>,
    pub stack: Option<Seq<char>>,
    pub retryable: bool,
    pub timestamp: Seq<char>,
}

impl View for FailureRecord {
    type V = FailureState;

    open spec fn view(&self) -> FailureState {
        FailureState {
            run_id: self.run_id@,
            step_name: self.step_name@,
            input_digest: self.input_digest@,
            attempt: self.attempt,
            failure_class: self.failure_class,
            error_type: self.error_type@,
            message: self.message@,
            stack: opt_text(self.stack),
            retryable: self.retryable,
            timestamp: self.timestamp@,
        }
    }
}

/// An event in the trace of a task.
#[derive(Debug, Clone, PartialEq, Eq)]
pub struct TraceRow {
    pub id: i64,
    pub run_id: String,
    pub kind: String,
    pub task_id: String,
    pub attempt: u32,
    pub event_index: u32,
    pub event_type: String,
    pub payload_json: String,
    pub artifact_ids_json: String,
    pub created_at: String,
}

/// What a `TraceRow` says.
#[verifier::ext_equal]
pub struct TraceState {
    pub id: i64,
    pub run_id: Seq<char>,
    pub kind: Seq<char>,
    pub task_id: Seq<char>,
    pub attempt: u32,
    pub event_index: u32,
    pub event_type: Seq<char>,
    pub payload_json: Seq<char>,
    pub artifact_ids_json: Seq<char>,
    pub created_at: Seq<char>,
}

impl View for TraceRow {
    type V = TraceState;

    open spec fn view(&self) -> TraceState {
        TraceState {
            id: self.id,
            run_id: self.run_id@,
            kind: self.kind@,
            task_id: self.task_id@,
            attempt: self.attempt,
            event_index: self.event_index,
            event_type: self.event_type@,
            payload_json: self.payload_json@,
            artifact_ids_json: self.artifact_ids_json@,
            created_at: self.created_at@,
        }
    }
}

/// A decision on a task, and who took it.
#[derive(Debug, Clone, PartialEq, Eq)]
pub struct ReviewRecord {
    pub run_id: String,
    pub kind: String,
    pub task_id: String,
    pub reviewer: String,
    pub decision: ReviewDecision,
    pub note: Option<String>,
    pub timestamp: String,
}

/// What a `ReviewRecord` says.
#[verifier::ext_equal]
pub struct ReviewState {
    pub run_id: Seq<char>,
    pub kind: Seq<char>,
    pub task_id: Seq<char>,
    pub reviewer: Seq<char>,
    pub decision: ReviewDecision,
    pub note: Option<Seq<char>>,
    pub timestamp: Seq<char>,
}

impl View for ReviewRecord {
    type V = ReviewState;

    open spec fn view(&self) -> ReviewState {
        ReviewState {
            run_id: self.run_id@,
            kind: self.kind@,
            task_id: self.task_id@,
            reviewer: self.reviewer@,
            decision: self.decision,
            note: opt_text(self.note),
            timestamp: self.timestamp@,
        }
    }
}

/// The order by text is strict, total, and comparable.
proof fn lemma_text_order(a: Seq<char>, b: Seq<char>, c: Seq<char>)
    ensures
        !text_before(a, a),
        !(text_before(a, b) && text_before(b, a)),
        text_before(a, b) && text_before(b, c) ==> text_before(a, c),
        a == b || text_before(a, b) || text_before(b, a),
        text_before(a, c) ==> text_before(a, b) || text_before(b, c),
{
    lemma_text_before_irreflexive(a);
    lemma_text_before_total(a, b);
    if text_before(a, b) && text_before(b, a) {
        lemma_text_before_transitive(a, b, a);
    }
    if text_before(a, b) && text_before(b, c) {
        lemma_text_before_transitive(a, b, c);
    }
    if text_before(a, c) && text_before(b, a) {
        lemma_text_before_transitive(b, a, c);
    }
}

/// Tasks are listed by run, kind and position, and at the same position by digest.
pub open spec fn task_precedes(
    ka: Seq<Seq<char>>,
    a: u32,
    kb: Seq<Seq<char>>,
    b: u32,
) -> bool {
    text_before(ka[0], kb[0]) || (ka[0] == kb[0] && (text_before(ka[1], kb[1]) || (ka[1] == kb[1]
        && (a < b || (a == b && text_before(ka[2], kb[2]))))))
}

proof fn lemma_task_order(
    ka: Seq<Seq<char>>,
    a: u32,
    kb: Seq<Seq<char>>,
    b: u32,
    kc: Seq<Seq<char>>,
    c: u32,
)
    ensures
        !task_precedes(ka, a, ka, a),
        task_precedes(ka, a, kb, b) && task_precedes(kb, b, kc, c) ==> task_precedes(ka, a, kc, c),
        task_precedes(ka, a, kc, c) ==> task_precedes(ka, a, kb, b) || task_precedes(kb, b, kc, c),
        task_precedes(ka, a, kb, b) || task_precedes(kb, b, ka, a) || (ka[0] == kb[0] && ka[1]
            == kb[1] && ka[2] == kb[2]),
{
    lemma_text_order(ka[0], kb[0], kc[0]);
    lemma_text_order(ka[1], kb[1], kc[1]);
    lemma_text_order(ka[2], kb[2], kc[2]);
}

impl Ranked for TaskRow {
    open spec fn ahead(&self, other: &Self) -> bool {
        task_precedes(self.key(), self.position, other.key(), other.position)
    }

    proof fn ahead_is_an_order(a: &Self, b: &Self, c: &Self) {
        lemma_task_order(a.key(), a.position, b.key(), b.position, c.key(), c.position);
    }

    fn is_ahead(&self, other: &Self) -> (first: bool) {
        if self.run_id != other.run_id {
            return is_before(self.run_id.as_str(), other.run_id.as_str());
        }
        proof {
            lemma_text_before_irreflexive(self.run_id@);
        }
        if self.kind != other.kind {
            return is_before(self.kind.as_str(), other.kind.as_str());
        }
        proof {
            lemma_text_before_irreflexive(self.kind@);
        }
        self.position < other.position || (self.position == other.position && is_before(
            self.input_digest.as_str(),
            other.input_digest.as_str(),
        ))
    }
}

impl Listed for TaskRow {
    open spec fn precedes(
        ka: Seq<Seq<char>>,
        a: TaskState,
        kb: Seq<Seq<char>>,
        b: TaskState,
    ) -> bool {
        task_precedes(ka, a.position, kb, b.position)
    }

    proof fn precedes_is_an_order(
        ka: Seq<Seq<char>>,
        a: TaskState,
        kb: Seq<Seq<char>>,
        b: TaskState,
        kc: Seq<Seq<char>>,
        c: TaskState,
    ) {
        lemma_task_order(ka, a.position, kb, b.position, kc, c.position);
    }

    proof fn ahead_is_precedes(one: &Self, two: &Self) {
        lemma_task_order(one.key(), one.position, two.key(), two.position, two.key(), two.position);
        if one.key()[0] == two.key()[0] && one.key()[1] == two.key()[1] && one.key()[2]
            == two.key()[2] {
            assert(one.key() =~= two.key());
        }
    }
}

/// Variants are listed by run, dimension and name.
pub open spec fn variant_precedes(ka: Seq<Seq<char>>, kb: Seq<Seq<char>>) -> bool {
    text_before(ka[0], kb[0]) || (ka[0] == kb[0] && (text_before(ka[1], kb[1]) || (ka[1] == kb[1]
        && text_before(ka[2], kb[2]))))
}

proof fn lemma_variant_order(ka: Seq<Seq<char>>, kb: Seq<Seq<char>>, kc: Seq<Seq<char>>)
    ensures
        !variant_precedes(ka, ka),
        variant_precedes(ka, kb) && variant_precedes(kb, kc) ==> variant_precedes(ka, kc),
        variant_precedes(ka, kc) ==> variant_precedes(ka, kb) || variant_precedes(kb, kc),
        variant_precedes(ka, kb) || variant_precedes(kb, ka) || (ka[0] == kb[0] && ka[1] == kb[1]
            && ka[2] == kb[2]),
{
    lemma_text_order(ka[0], kb[0], kc[0]);
    lemma_text_order(ka[1], kb[1], kc[1]);
    lemma_text_order(ka[2], kb[2], kc[2]);
}

impl Ranked for VariantRow {
    open spec fn ahead(&self, other: &Self) -> bool {
        variant_precedes(self.key(), other.key())
    }

    proof fn ahead_is_an_order(a: &Self, b: &Self, c: &Self) {
        lemma_variant_order(a.key(), b.key(), c.key());
    }

    fn is_ahead(&self, other: &Self) -> (first: bool) {
        if self.run_id != other.run_id {
            return is_before(self.run_id.as_str(), other.run_id.as_str());
        }
        proof {
            lemma_text_before_irreflexive(self.run_id@);
        }
        if self.dimension != other.dimension {
            return is_before(self.dimension.as_str(), other.dimension.as_str());
        }
        proof {
            lemma_text_before_irreflexive(self.dimension@);
        }
        is_before(self.name.as_str(), other.name.as_str())
    }
}

impl Listed for VariantRow {
    open spec fn precedes(
        ka: Seq<Seq<char>>,
        a: VariantState,
        kb: Seq<Seq<char>>,
        b: VariantState,
    ) -> bool {
        variant_precedes(ka, kb)
    }

    proof fn precedes_is_an_order(
        ka: Seq<Seq<char>>,
        a: VariantState,
        kb: Seq<Seq<char>>,
        b: VariantState,
        kc: Seq<Seq<char>>,
        c: VariantState,
    ) {
        lemma_variant_order(ka, kb, kc);
    }

    proof fn ahead_is_precedes(one: &Self, two: &Self) {
        lemma_variant_order(one.key(), two.key(), two.key());
        if one.key()[0] == two.key()[0] && one.key()[1] == two.key()[1] && one.key()[2]
            == two.key()[2] {
            assert(one.key() =~= two.key());
        }
    }
}

impl Ranked for WorkerRow {
    open spec fn ahead(&self, other: &Self) -> bool {
        text_before(self.key()[0], other.key()[0])
    }

    proof fn ahead_is_an_order(a: &Self, b: &Self, c: &Self) {
        lemma_text_order(a.worker_id@, b.worker_id@, c.worker_id@);
    }

    fn is_ahead(&self, other: &Self) -> (first: bool) {
        is_before(self.worker_id.as_str(), other.worker_id.as_str())
    }
}

impl Listed for WorkerRow {
    /// Workers are listed by their ids.
    open spec fn precedes(
        ka: Seq<Seq<char>>,
        a: WorkerState,
        kb: Seq<Seq<char>>,
        b: WorkerState,
    ) -> bool {
        text_before(ka[0], kb[0])
    }

    proof fn precedes_is_an_order(
        ka: Seq<Seq<char>>,
        a: WorkerState,
        kb: Seq<Seq<char>>,
        b: WorkerState,
        kc: Seq<Seq<char>>,
        c: WorkerState,
    ) {
        lemma_text_order(ka[0], kb[0], kc[0]);
    }

    proof fn ahead_is_precedes(one: &Self, two: &Self) {
        lemma_text_order(one.worker_id@, two.worker_id@, two.worker_id@);
        if one.worker_id@ == two.worker_id@ {
            assert(one.key() =~= two.key());
        }
    }
}

impl Logged for FailureRecord {
    /// Failures are listed by when they were reported.
    open spec fn precedes(a: FailureState, b: FailureState) -> bool {
        text_before(a.timestamp, b.timestamp)
    }

    proof fn ahead_is_precedes(one: &Self, two: &Self) {
    }
}

impl Ranked for FailureRecord {
    open spec fn ahead(&self, other: &Self) -> bool {
        text_before(self@.timestamp, other@.timestamp)
    }

    proof fn ahead_is_an_order(a: &Self, b: &Self, c: &Self) {
        lemma_text_order(a.timestamp@, b.timestamp@, c.timestamp@);
    }

    fn is_ahead(&self, other: &Self) -> (first: bool) {
        is_before(self.timestamp.as_str(), other.timestamp.as_str())
    }
}

/// Trace events are listed by attempt and then by their number within it.
pub open spec fn trace_precedes(a: TraceState, b: TraceState) -> bool {
    a.attempt < b.attempt || (a.attempt == b.attempt && a.event_index < b.event_index)
}

impl Logged for TraceRow {
    open spec fn precedes(a: TraceState, b: TraceState) -> bool {
        trace_precedes(a, b)
    }

    proof fn ahead_is_precedes(one: &Self, two: &Self) {
    }
}

impl Ranked for TraceRow {
    open spec fn ahead(&self, other: &Self) -> bool {
        trace_precedes(self@, other@)
    }

    proof fn ahead_is_an_order(a: &Self, b: &Self, c: &Self) {
    }

    fn is_ahead(&self, other: &Self) -> (first: bool) {
        self.attempt < other.attempt || (self.attempt == other.attempt && self.event_index
            < other.event_index)
    }
}

} // verus!
