//! When a failed step is tried again.

use vstd::prelude::*;
use crate::error::{retryable_spec, DurableError, Retryable};

verus! {

/// Whether the step executor retries an error: the errors that carry a
/// flag follow it, an I/O error is retried, others are not.
pub open spec fn executor_retries(e: DurableError) -> bool {
    match e {
        DurableError::StepFailed { retryable, .. } => retryable,
        DurableError::ToolError { retryable, .. } => retryable,
        DurableError::LlmError { retryable, .. } => retryable,
        DurableError::Io(_) => true,
        _ => false,
    }
}

/// How a step's retry policy is chosen.
#[derive(Clone, Copy, Debug, PartialEq, Eq, Structural)]
pub enum RetryMode {
    /// The default policy, for retryable errors.
    UseDefault,
    /// A policy of the step's own, for every error.
    ForceRetry,
    /// Never retry.
    NeverRetry,
}

/// Executes steps with retries; the waiting between attempts is the
/// caller's.
pub struct StepExecutor;

impl StepExecutor {
    /// Whether to try again after the `attempt`-th failed attempt with an
    /// error, under a policy of at most `max_attempts` attempts. A
    /// suspension is never retried.
    pub fn should_retry(err: &DurableError, attempt: u32, max_attempts: u32) -> (r: bool)
        ensures
            r == (!(err is Suspended) && executor_retries(*err) && attempt < max_attempts),
    {
        let retryable = match err {
            DurableError::Suspended(_) => false,
            DurableError::StepFailed { retryable, .. } => *retryable,
            DurableError::ToolError { retryable, .. } => *retryable,
            DurableError::LlmError { retryable, .. } => *retryable,
            DurableError::Io(m) => m.is_retryable(),
            _ => false,
        };
        retryable && attempt < max_attempts
    }

    /// Whether a replayed step with a retry mode is tried again after the
    /// `attempt`-th failed attempt: never for a suspension or under
    /// `NeverRetry`; for every error under `ForceRetry`, for retryable
    /// errors otherwise; while attempts remain under the policy in force.
    pub fn should_retry_replayed(err: &DurableError, attempt: u32, mode: RetryMode, max_attempts: u32) -> (r: bool)
        ensures
            r == (!(err is Suspended) && mode != RetryMode::NeverRetry && (mode == RetryMode::ForceRetry
                || retryable_spec(*err)) && attempt < max_attempts),
    {
        if let DurableError::Suspended(_) = err {
            return false;
        }
        match mode {
            RetryMode::NeverRetry => false,
            RetryMode::ForceRetry => attempt < max_attempts,
            RetryMode::UseDefault => err.is_retryable() && attempt < max_attempts,
        }
    }
}

} // verus!
