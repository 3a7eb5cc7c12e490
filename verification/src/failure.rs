//! Failures: their classes and what is told of them.
use vstd::prelude::*;

use crate::text::{copy_opt, opt_text, same_text};

verus! {

/// What kind of failure an error is.
#[derive(Debug, Clone, Copy, PartialEq, Eq, Structural)]
pub enum FailureClass {
    /// An ephemeral hiccup (network blip, HTTP 500). Retrying will likely succeed.
    Transient,
    /// A dependency is temporarily down or exhausted (store unreachable, quota hit, filesystem
    /// unavailable). Retry later.
    ResourceUnavailable,
    /// An exception raised inside the user's eval or step callback.
    EvalException,
    /// A failure in the harness itself (runtime, server, serialization, orchestration). Not the
    /// eval's fault; terminal by default.
    DurableHarnessError,
    /// A deterministic artifact failure such as a hash mismatch or corrupt content. Transient
    /// storage outages are `ResourceUnavailable` instead.
    ArtifactError,
}

impl Default for FailureClass {
    fn default() -> (class: Self)
        ensures
            class == FailureClass::EvalException,
    {
        FailureClass::EvalException
    }
}

/// The name under which a class is stored.
pub open spec fn class_name(class: FailureClass) -> Seq<char> {
    match class {
        FailureClass::Transient => "transient"@,
        FailureClass::ResourceUnavailable => "resource_unavailable"@,
        FailureClass::EvalException => "eval_exception"@,
        FailureClass::DurableHarnessError => "durable_harness_error"@,
        FailureClass::ArtifactError => "artifact_error"@,
    }
}

/// Names the class.
pub fn failure_class_to_str(class: &FailureClass) -> (name: &'static str)
    ensures
        name@ == class_name(*class),
{
    match class {
        FailureClass::Transient => "transient",
        FailureClass::ResourceUnavailable => "resource_unavailable",
        FailureClass::EvalException => "eval_exception",
        FailureClass::DurableHarnessError => "durable_harness_error",
        FailureClass::ArtifactError => "artifact_error",
    }
}

/// The class with that name; a name that no class has stands for `EvalException`.
pub open spec fn class_named(name: Seq<char>) -> FailureClass {
    if name == class_name(FailureClass::Transient) {
        FailureClass::Transient
    } else if name == class_name(FailureClass::ResourceUnavailable) {
        FailureClass::ResourceUnavailable
    } else if name == class_name(FailureClass::DurableHarnessError) {
        FailureClass::DurableHarnessError
    } else if name == class_name(FailureClass::ArtifactError) {
        FailureClass::ArtifactError
    } else {
        FailureClass::EvalException
    }
}

/// The class that a stored name stands for.
pub fn parse_failure_class(value: String) -> (class: FailureClass)
    ensures
        class == class_named(value@),
{
    let name = value.as_str();
    if same_text(name, "transient") {
        FailureClass::Transient
    } else if same_text(name, "resource_unavailable") {
        FailureClass::ResourceUnavailable
    } else if same_text(name, "durable_harness_error") {
        FailureClass::DurableHarnessError
    } else if same_text(name, "artifact_error") {
        FailureClass::ArtifactError
    } else {
        FailureClass::EvalException
    }
}

/// No two classes share a name.
pub proof fn class_names_differ(a: FailureClass, b: FailureClass)
    ensures
        class_name(a) == class_name(b) ==> a == b,
{
    reveal_strlit("transient");
    reveal_strlit("resource_unavailable");
    reveal_strlit("eval_exception");
    reveal_strlit("durable_harness_error");
    reveal_strlit("artifact_error");
    if a != b && class_name(a) == class_name(b) {
        assert(class_name(a).len() == class_name(b).len());
        assert(class_name(a)[0] == class_name(b)[0]);
    }
}

/// A class is found again under the name it is stored under.
pub proof fn class_survives_storage(class: FailureClass)
    ensures
        class_named(class_name(class)) == class,
{
    class_names_differ(class, FailureClass::Transient);
    class_names_differ(class, FailureClass::ResourceUnavailable);
    class_names_differ(class, FailureClass::DurableHarnessError);
    class_names_differ(class, FailureClass::ArtifactError);
}

/// The name of a class in a report.
pub open spec fn class_label(class: FailureClass) -> Seq<char> {
    match class {
        FailureClass::Transient => "Transient"@,
        FailureClass::ResourceUnavailable => "ResourceUnavailable"@,
        FailureClass::EvalException => "EvalException"@,
        FailureClass::DurableHarnessError => "DurableHarnessError"@,
        FailureClass::ArtifactError => "ArtifactError"@,
    }
}

/// Names the class in a report.
pub fn failure_class_label(class: &FailureClass) -> (label: &'static str)
    ensures
        label@ == class_label(*class),
{
    match class {
        FailureClass::Transient => "Transient",
        FailureClass::ResourceUnavailable => "ResourceUnavailable",
        FailureClass::EvalException => "EvalException",
        FailureClass::DurableHarnessError => "DurableHarnessError",
        FailureClass::ArtifactError => "ArtifactError",
    }
}

/// What is told of a failure.
#[derive(Debug, Clone, PartialEq, Eq)]
pub struct ErrorInfo {
    pub error_type: String,
    pub message: String,
    pub failure_class: FailureClass,
    pub stack: Option<String>,
    /// Overrides what the class and the retry policy say.
    pub retryable: Option<bool>,
}

/// What an `ErrorInfo` says.
#[verifier::ext_equal]
pub struct ErrorState {
    pub error_type: Seq<char>,
    pub message: Seq<char>,
    pub failure_class: FailureClass,
    pub stack: Option<Seq<char>>,
    pub retryable: Option<bool>,
}

impl View for ErrorInfo {
    type V = ErrorState;

    open spec fn view(&self) -> ErrorState {
        ErrorState {
            error_type: self.error_type@,
            message: self.message@,
            failure_class: self.failure_class,
            stack: opt_text(self.stack),
            retryable: self.retryable,
        }
    }
}

/// A failure of the harness itself, never retried.
pub open spec fn harness_failure(error_type: Seq<char>, message: Seq<char>) -> ErrorState {
    ErrorState {
        error_type,
        message,
        failure_class: FailureClass::DurableHarnessError,
        stack: None,
        retryable: Some(false),
    }
}

impl ErrorInfo {
    /// A failure of the harness itself, never retried.
    pub fn harness(error_type: String, message: String) -> (error: ErrorInfo)
        ensures
            error@ == harness_failure(error_type@, message@),
    {
        ErrorInfo {
            error_type,
            message,
            failure_class: FailureClass::DurableHarnessError,
            stack: None,
            retryable: Some(false),
        }
    }

    /// The same report again.
    pub fn copy(&self) -> (error: ErrorInfo)
        ensures
            error@ == self@,
    {
        ErrorInfo {
            error_type: self.error_type.clone(),
            message: self.message.clone(),
            failure_class: self.failure_class,
            stack: copy_opt(&self.stack),
            retryable: self.retryable,
        }
    }
}

} // verus!
