//! Core types for durable execution: identifiers, step keys and records,
//! and the execution status state machine.

use vstd::prelude::*;
use crate::error::{DurableError, SuspendReason};
use crate::text::{dec_text, hex_text, push_decimal, push_hex};
use crate::uuid::{hyphenated, Uuid};

verus! {

/// Unique identifier for an execution (an agent run).
#[derive(Clone, Copy, PartialEq, Eq, Hash, Debug)]
pub struct ExecutionId(pub Uuid);

impl ExecutionId {
    /// A fresh random identifier.
    pub fn new() -> (id: ExecutionId)
        ensures
            id.0@.len() == 16,
            id.0@[6] & 0xf0 == 0x40,
            id.0@[8] & 0xc0 == 0x80,
    {
        ExecutionId(Uuid::new_v4())
    }

    /// The identifier wrapping a given UUID.
    pub fn from_uuid(id: Uuid) -> (r: ExecutionId)
        ensures
            r.0 == id,
    {
        ExecutionId(id)
    }

    /// Whether two identifiers are the same.
    pub fn same(&self, other: &ExecutionId) -> (r: bool)
        ensures
            r == (*self == *other),
    {
        self.0.same(&other.0)
    }

    /// The hyphenated text of the identifier.
    pub fn to_text(&self) -> (s: String)
        ensures
            s@ == hyphenated(self.0@),
    {
        self.0.to_hyphenated()
    }
}

impl Default for ExecutionId {
    fn default() -> (id: ExecutionId)
        ensures
            id.0@.len() == 16,
            id.0@[6] & 0xf0 == 0x40,
            id.0@[8] & 0xc0 == 0x80,
    {
        Self::new()
    }
}

/// Composite key for step memoization: (execution_id, step_number, name, param_hash).
#[derive(Clone, Debug)]
pub struct StepKey {
    pub execution_id: ExecutionId,
    pub step_number: u64,
    pub step_name: String,
    pub param_hash: u64,
}

/// The text form of a step key: `id:number:name:hash` with the hash as 16
/// lowercase hex digits.
pub open spec fn step_key_text(k: StepKey) -> Seq<char> {
    hyphenated(k.execution_id.0@) + seq![':'] + dec_text(k.step_number as nat) + seq![':']
        + k.step_name@ + seq![':'] + hex_text(k.param_hash as nat, 16)
}

impl StepKey {
    /// The text form of the key.
    pub fn key_text(&self) -> (s: String)
        ensures
            s@ == step_key_text(*self),
    {
        let mut s = self.execution_id.to_text();
        s.push(':');
        push_decimal(&mut s, self.step_number);
        s.push(':');
        s.push_str(self.step_name.as_str());
        s.push(':');
        push_hex(&mut s, self.param_hash, 16);
        s
    }

    /// A copy of the key.
    pub fn copy(&self) -> (r: StepKey)
        ensures
            r == *self,
    {
        StepKey {
            execution_id: self.execution_id,
            step_number: self.step_number,
            step_name: self.step_name.clone(),
            param_hash: self.param_hash,
        }
    }
}

/// Status of a step execution.
#[derive(Clone, Copy, Debug, PartialEq, Eq)]
pub enum StepStatus {
    Pending,
    Running,
    Completed,
    Failed,
    Suspended,
}

/// The wire name of a step status.
pub open spec fn step_status_name(s: StepStatus) -> Seq<char> {
    match s {
        StepStatus::Pending => "pending"@,
        StepStatus::Running => "running"@,
        StepStatus::Completed => "completed"@,
        StepStatus::Failed => "failed"@,
        StepStatus::Suspended => "suspended"@,
    }
}

impl StepStatus {
    /// The wire name of the status.
    pub fn as_str(&self) -> (r: &'static str)
        ensures
            r@ == step_status_name(*self),
    {
        match self {
            StepStatus::Pending => "pending",
            StepStatus::Running => "running",
            StepStatus::Completed => "completed",
            StepStatus::Failed => "failed",
            StepStatus::Suspended => "suspended",
        }
    }

    /// Whether two statuses are the same.
    pub fn same(&self, other: &StepStatus) -> (r: bool)
        ensures
            r == (*self == *other),
    {
        match (self, other) {
            (StepStatus::Pending, StepStatus::Pending) => true,
            (StepStatus::Running, StepStatus::Running) => true,
            (StepStatus::Completed, StepStatus::Completed) => true,
            (StepStatus::Failed, StepStatus::Failed) => true,
            (StepStatus::Suspended, StepStatus::Suspended) => true,
            _ => false,
        }
    }
}

/// A persisted record of a step's execution.
#[derive(Clone, Debug)]
pub struct StepRecord {
    pub key: StepKey,
    pub status: StepStatus,
    /// The step's return value (JSON-serialized).
    pub result: Option<String>,
    /// Error message if the step failed.
    pub error: Option<String>,
    /// Whether the error is retryable.
    pub retryable: bool,
    /// Number of attempts made.
    pub attempts: u32,
    /// Timestamp when the step started (millis since epoch).
    pub started_at: u64,
    /// Timestamp when the step completed (millis since epoch).
    pub completed_at: Option<u64>,
}

/// A copy of an optional text.
pub fn copy_text(t: &Option<String>) -> (r: Option<String>)
    ensures
        r == *t,
{
    match t {
        Some(s) => Some(s.clone()),
        None => None,
    }
}

impl StepRecord {
    /// A copy of the record.
    pub fn copy(&self) -> (r: StepRecord)
        ensures
            r == *self,
    {
        StepRecord {
            key: self.key.copy(),
            status: self.status,
            result: copy_text(&self.result),
            error: copy_text(&self.error),
            retryable: self.retryable,
            attempts: self.attempts,
            started_at: self.started_at,
            completed_at: self.completed_at,
        }
    }
}

/// Overall status of an execution.
///
/// Valid transitions (enforced by `transition_to`):
/// ```text
/// Running -> Suspended | Completed | Failed | Compensating
/// Suspended -> Running | Failed
/// Compensating -> Compensated | CompensationFailed
/// ```
#[derive(Clone, Copy, Debug, PartialEq, Eq)]
pub enum ExecutionStatus {
    Running,
    Completed,
    Failed,
    Suspended,
    /// Running compensation handlers after a failure.
    Compensating,
    /// All compensation handlers completed successfully.
    Compensated,
    /// One or more compensation handlers failed.
    CompensationFailed,
}

/// The transitions an execution may make.
pub open spec fn valid_transition(from: ExecutionStatus, to: ExecutionStatus) -> bool {
    match (from, to) {
        (ExecutionStatus::Running, ExecutionStatus::Suspended) => true,
        (ExecutionStatus::Running, ExecutionStatus::Completed) => true,
        (ExecutionStatus::Running, ExecutionStatus::Failed) => true,
        (ExecutionStatus::Running, ExecutionStatus::Compensating) => true,
        (ExecutionStatus::Suspended, ExecutionStatus::Running) => true,
        (ExecutionStatus::Suspended, ExecutionStatus::Failed) => true,
        (ExecutionStatus::Compensating, ExecutionStatus::Compensated) => true,
        (ExecutionStatus::Compensating, ExecutionStatus::CompensationFailed) => true,
        _ => false,
    }
}

/// The variant name of a status (as `Debug` prints it).
pub open spec fn execution_status_debug(s: ExecutionStatus) -> Seq<char> {
    match s {
        ExecutionStatus::Running => "Running"@,
        ExecutionStatus::Completed => "Completed"@,
        ExecutionStatus::Failed => "Failed"@,
        ExecutionStatus::Suspended => "Suspended"@,
        ExecutionStatus::Compensating => "Compensating"@,
        ExecutionStatus::Compensated => "Compensated"@,
        ExecutionStatus::CompensationFailed => "CompensationFailed"@,
    }
}

/// The wire name of an execution status.
pub open spec fn execution_status_name(s: ExecutionStatus) -> Seq<char> {
    match s {
        ExecutionStatus::Running => "running"@,
        ExecutionStatus::Completed => "completed"@,
        ExecutionStatus::Failed => "failed"@,
        ExecutionStatus::Suspended => "suspended"@,
        ExecutionStatus::Compensating => "compensating"@,
        ExecutionStatus::Compensated => "compensated"@,
        ExecutionStatus::CompensationFailed => "compensation_failed"@,
    }
}

/// The message of a refused transition.
pub open spec fn transition_message(from: ExecutionStatus, to: ExecutionStatus) -> Seq<char> {
    "invalid transition: "@ + execution_status_debug(from) + " -> "@ + execution_status_debug(to)
}

impl ExecutionStatus {
    /// Validate a state transition: `Ok(())` if it is valid, otherwise an
    /// `InvalidState` error naming both states.
    pub fn transition_to(&self, target: &ExecutionStatus) -> (r: Result<(), DurableError>)
        ensures
            r is Ok <==> valid_transition(*self, *target),
            r matches Err(e) ==> e matches DurableError::InvalidState(m) && m@ == transition_message(*self, *target),
    {
        let valid = match (self, target) {
            (ExecutionStatus::Running, ExecutionStatus::Suspended) => true,
            (ExecutionStatus::Running, ExecutionStatus::Completed) => true,
            (ExecutionStatus::Running, ExecutionStatus::Failed) => true,
            (ExecutionStatus::Running, ExecutionStatus::Compensating) => true,
            (ExecutionStatus::Suspended, ExecutionStatus::Running) => true,
            (ExecutionStatus::Suspended, ExecutionStatus::Failed) => true,
            (ExecutionStatus::Compensating, ExecutionStatus::Compensated) => true,
            (ExecutionStatus::Compensating, ExecutionStatus::CompensationFailed) => true,
            _ => false,
        };
        if valid {
            Ok(())
        } else {
            let mut m = "invalid transition: ".to_owned();
            m.push_str(self.debug_name());
            m.push_str(" -> ");
            m.push_str(target.debug_name());
            Err(DurableError::InvalidState(m))
        }
    }

    /// The variant name of the status.
    pub fn debug_name(&self) -> (r: &'static str)
        ensures
            r@ == execution_status_debug(*self),
    {
        match self {
            ExecutionStatus::Running => "Running",
            ExecutionStatus::Completed => "Completed",
            ExecutionStatus::Failed => "Failed",
            ExecutionStatus::Suspended => "Suspended",
            ExecutionStatus::Compensating => "Compensating",
            ExecutionStatus::Compensated => "Compensated",
            ExecutionStatus::CompensationFailed => "CompensationFailed",
        }
    }

    /// The wire name of the status.
    pub fn as_str(&self) -> (r: &'static str)
        ensures
            r@ == execution_status_name(*self),
    {
        match self {
            ExecutionStatus::Running => "running",
            ExecutionStatus::Completed => "completed",
            ExecutionStatus::Failed => "failed",
            ExecutionStatus::Suspended => "suspended",
            ExecutionStatus::Compensating => "compensating",
            ExecutionStatus::Compensated => "compensated",
            ExecutionStatus::CompensationFailed => "compensation_failed",
        }
    }

    /// Whether two statuses are the same.
    pub fn same(&self, other: &ExecutionStatus) -> (r: bool)
        ensures
            r == (*self == *other),
    {
        match (self, other) {
            (ExecutionStatus::Running, ExecutionStatus::Running) => true,
            (ExecutionStatus::Completed, ExecutionStatus::Completed) => true,
            (ExecutionStatus::Failed, ExecutionStatus::Failed) => true,
            (ExecutionStatus::Suspended, ExecutionStatus::Suspended) => true,
            (ExecutionStatus::Compensating, ExecutionStatus::Compensating) => true,
            (ExecutionStatus::Compensated, ExecutionStatus::Compensated) => true,
            (ExecutionStatus::CompensationFailed, ExecutionStatus::CompensationFailed) => true,
            _ => false,
        }
    }
}

/// Law: the terminal states (completed, failed, compensated, compensation
/// failed) admit no transition, and no state may move to itself.
pub proof fn law_terminal_states_are_final(to: ExecutionStatus)
    ensures
        !valid_transition(ExecutionStatus::Completed, to),
        !valid_transition(ExecutionStatus::Failed, to),
        !valid_transition(ExecutionStatus::Compensated, to),
        !valid_transition(ExecutionStatus::CompensationFailed, to),
        !valid_transition(to, to),
{
}

/// Law: an execution can only reach a compensation outcome through
/// `Compensating`, and only the running state may start compensating.
pub proof fn law_compensation_path(from: ExecutionStatus)
    ensures
        valid_transition(from, ExecutionStatus::Compensated) ==> from == ExecutionStatus::Compensating,
        valid_transition(from, ExecutionStatus::CompensationFailed) ==> from == ExecutionStatus::Compensating,
        valid_transition(from, ExecutionStatus::Compensating) ==> from == ExecutionStatus::Running,
{
}

/// Metadata for an execution.
#[derive(Clone, Debug)]
pub struct ExecutionMetadata {
    pub id: ExecutionId,
    pub status: ExecutionStatus,
    pub created_at: u64,
    pub updated_at: u64,
    pub step_count: u64,
    pub suspend_reason: Option<SuspendReason>,
    /// Arbitrary user-provided metadata, one entry per key.
    pub tags: Vec<(String, String)>,
}


} // verus!
