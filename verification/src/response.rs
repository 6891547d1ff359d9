//! The result of running or resuming an agent execution.

use vstd::prelude::*;
use crate::error::{push_reason_text, reason_text, DurableError, SuspendReason};
use crate::types::{ExecutionId, ExecutionStatus};

verus! {

/// What an agent run ended with.
#[derive(Debug, Clone)]
pub enum AgentOutcome {
    /// The agent produced a final text response.
    Complete { response: String },
    /// The agent is suspended waiting for something.
    Suspended { reason: SuspendReason },
    /// The agent hit the iteration limit.
    MaxIterations { last_response: String },
    /// The agent encountered a fatal error.
    Error { error: DurableError },
}

/// The result of running or resuming an agent execution. Suspension is a
/// valid response, not an error.
#[derive(Debug, Clone)]
pub struct AgentResponse {
    text: Option<String>,
    execution_id: ExecutionId,
    status: ExecutionStatus,
    suspend_reason: Option<SuspendReason>,
}

impl AgentResponse {
    /// The text, if any.
    pub closed spec fn text_view(&self) -> Option<String> {
        self.text
    }

    /// The execution.
    pub closed spec fn id_view(&self) -> ExecutionId {
        self.execution_id
    }

    /// The status.
    pub closed spec fn status_view(&self) -> ExecutionStatus {
        self.status
    }

    /// The suspension, if any.
    pub closed spec fn reason_view(&self) -> Option<SuspendReason> {
        self.suspend_reason
    }

    /// A completed response with its text.
    pub fn completed(execution_id: ExecutionId, text: String) -> (r: Self)
        ensures
            r.text_view() == Some(text),
            r.id_view() == execution_id,
            r.status_view() == ExecutionStatus::Completed,
            r.reason_view() is None,
    {
        AgentResponse { text: Some(text), execution_id, status: ExecutionStatus::Completed, suspend_reason: None }
    }

    /// A suspended response with its reason.
    pub fn suspended(execution_id: ExecutionId, reason: SuspendReason) -> (r: Self)
        ensures
            r.text_view() is None,
            r.id_view() == execution_id,
            r.status_view() == ExecutionStatus::Suspended,
            r.reason_view() == Some(reason),
    {
        AgentResponse { text: None, execution_id, status: ExecutionStatus::Suspended, suspend_reason: Some(reason) }
    }

    /// A response at the iteration limit: still running, with the last
    /// response as text unless it is empty.
    pub fn max_iterations(execution_id: ExecutionId, last_response: String) -> (r: Self)
        ensures
            r.text_view() == (if last_response@.len() == 0 { None } else { Some(last_response) }),
            r.id_view() == execution_id,
            r.status_view() == ExecutionStatus::Running,
            r.reason_view() is None,
    {
        let text = if last_response.as_str().unicode_len() == 0 {
            None
        } else {
            Some(last_response)
        };
        AgentResponse { text, execution_id, status: ExecutionStatus::Running, suspend_reason: None }
    }

    /// The response for how a run of an execution ended: an error stays
    /// an error; completion, suspension and the iteration limit become the
    /// response of that kind.
    pub fn from_outcome(execution_id: ExecutionId, outcome: AgentOutcome) -> (r: Result<Self, DurableError>)
        ensures
            match outcome {
                AgentOutcome::Complete { response } => r matches Ok(a) && a.text_view() == Some(response)
                    && a.id_view() == execution_id && a.status_view() == ExecutionStatus::Completed && a.reason_view() is None,
                AgentOutcome::Suspended { reason } => r matches Ok(a) && a.text_view() is None && a.id_view() == execution_id
                    && a.status_view() == ExecutionStatus::Suspended && a.reason_view() == Some(reason),
                AgentOutcome::MaxIterations { last_response } => r matches Ok(a) && a.text_view() == (if last_response@.len()
                    == 0 { None } else { Some(last_response) }) && a.id_view() == execution_id && a.status_view()
                    == ExecutionStatus::Running && a.reason_view() is None,
                AgentOutcome::Error { error } => r == Err::<AgentResponse, DurableError>(error),
            },
    {
        match outcome {
            AgentOutcome::Complete { response } => Ok(AgentResponse::completed(execution_id, response)),
            AgentOutcome::Suspended { reason } => Ok(AgentResponse::suspended(execution_id, reason)),
            AgentOutcome::MaxIterations { last_response } => Ok(AgentResponse::max_iterations(execution_id, last_response)),
            AgentOutcome::Error { error } => Err(error),
        }
    }

    /// The text output, if the agent completed.
    pub fn text(&self) -> (r: Option<&str>)
        ensures
            r is Some <==> self.text_view() is Some,
            r matches Some(t) ==> t@ == self.text_view()->0@,
    {
        match &self.text {
            Some(t) => Some(t.as_str()),
            None => None,
        }
    }

    /// The execution, for resumption and inspection.
    pub fn execution_id(&self) -> (r: ExecutionId)
        ensures
            r == self.id_view(),
    {
        self.execution_id
    }

    /// The current execution status.
    pub fn status(&self) -> (r: &ExecutionStatus)
        ensures
            *r == self.status_view(),
    {
        &self.status
    }

    /// Whether the agent is suspended.
    pub fn is_suspended(&self) -> (r: bool)
        ensures
            r == (self.status_view() == ExecutionStatus::Suspended),
    {
        self.status.same(&ExecutionStatus::Suspended)
    }

    /// Whether the agent completed.
    pub fn is_completed(&self) -> (r: bool)
        ensures
            r == (self.status_view() == ExecutionStatus::Completed),
    {
        self.status.same(&ExecutionStatus::Completed)
    }

    /// The suspension reason, if suspended.
    pub fn suspend_reason(&self) -> (r: Option<&SuspendReason>)
        ensures
            r is Some <==> self.reason_view() is Some,
            r matches Some(x) ==> *x == self.reason_view()->0,
    {
        match &self.suspend_reason {
            Some(x) => Some(x),
            None => None,
        }
    }

    /// The text shown for the response: its text; for a suspension
    /// without text, `[suspended: ...]` with the reason's debug text (or
    /// `[suspended]`); otherwise nothing.
    pub fn display_text(&self) -> (s: String)
        ensures
            self.text_view() matches Some(t) ==> s@ == t@,
            self.text_view() is None && self.status_view() == ExecutionStatus::Suspended && self.reason_view() is None
                ==> s@ == "[suspended]"@,
            self.text_view() is None && self.status_view() == ExecutionStatus::Suspended && self.reason_view() is Some
                ==> s@ == "[suspended: "@ + reason_text(self.reason_view()->0) + "]"@,
            self.text_view() is None && self.status_view() != ExecutionStatus::Suspended ==> s@.len() == 0,
    {
        match &self.text {
            Some(t) => t.clone(),
            None => {
                if self.is_suspended() {
                    match &self.suspend_reason {
                        Some(reason) => {
                            let mut s = "[suspended: ".to_string();
                            push_reason_text(&mut s, reason);
                            s.push_str("]");
                            s
                        },
                        None => "[suspended]".to_string(),
                    }
                } else {
                    String::new()
                }
            },
        }
    }
}

} // verus!
