//! Error types for the durable runtime.

use vstd::prelude::*;
use crate::text::{dec_text, hex_text, push_decimal, push_hex};
use crate::types::ExecutionId;
use crate::uuid::hyphenated;

verus! {

/// Top-level error type for the runtime.
#[derive(Debug, Clone)]
pub enum DurableError {
    /// Storage backend error.
    Storage(String),
    /// Storage error with file path context.
    StorageAt { message: String, path: String },
    /// Serialization error (JSON parse/format).
    Serialization(String),
    /// Step execution failed.
    StepFailed {
        step_name: String,
        message: String,
        retryable: bool,
        execution_id: Option<String>,
        step_number: Option<u64>,
    },
    /// Execution was suspended (not an error — control flow).
    Suspended(SuspendReason),
    /// Tool execution error.
    ToolError { tool_name: String, message: String, retryable: bool },
    /// LLM call error.
    LlmError { message: String, retryable: bool },
    /// Execution not found.
    NotFound(String),
    /// Invalid state transition.
    InvalidState(String),
    /// I/O error (as text).
    Io(String),
    /// Protocol error (wire protocol).
    Protocol(String),
    /// Human rejected a confirmation gate.
    Rejected { tool_name: String, reason: String },
    /// Execution was cancelled via CancellationToken.
    Cancelled,
    /// Replay detected non-determinism (step mismatch between code and history).
    NonDeterminismDetected { step_number: u64, expected_name: String, actual_name: String },
    /// System prompt changed between execution and resume.
    PromptDrift { stored_hash: u64, current_hash: u64 },
    /// Fencing violation — a stale worker tried to write.
    StaleGeneration { expected: u64, actual: u64 },
    /// Work queue is full — caller should retry later.
    QueueFull,
}

/// Why an execution was suspended.
#[derive(Debug, Clone)]
pub enum SuspendReason {
    /// Waiting for user/human input.
    WaitingForInput { prompt: String },
    /// Waiting for an external signal by name.
    WaitingForSignal { signal_name: String },
    /// Waiting for a timer to fire.
    WaitingForTimer { fire_at_millis: u64, timer_name: String },
    /// Waiting for human confirmation of a tool call (arguments as JSON text).
    WaitingForConfirmation { tool_name: String, arguments: String, confirmation_id: String },
    /// Waiting for a child flow to complete.
    WaitingForChild { child_id: ExecutionId },
    /// An agent contract was violated. Suspended for human review.
    ContractViolation { contract_name: String, step_name: String, reason: String },
    /// Execution budget exhausted.
    BudgetExhausted { dimension: String, limit: String, used: String },
    /// Graceful shutdown requested.
    GracefulShutdown,
}

impl SuspendReason {
    /// A copy of the reason.
    pub fn copy(&self) -> (r: SuspendReason)
        ensures
            r == *self,
    {
        match self {
            SuspendReason::WaitingForInput { prompt } => SuspendReason::WaitingForInput { prompt: prompt.clone() },
            SuspendReason::WaitingForSignal { signal_name } => SuspendReason::WaitingForSignal {
                signal_name: signal_name.clone(),
            },
            SuspendReason::WaitingForTimer { fire_at_millis, timer_name } => SuspendReason::WaitingForTimer {
                fire_at_millis: *fire_at_millis,
                timer_name: timer_name.clone(),
            },
            SuspendReason::WaitingForConfirmation { tool_name, arguments, confirmation_id } =>
                SuspendReason::WaitingForConfirmation {
                tool_name: tool_name.clone(),
                arguments: arguments.clone(),
                confirmation_id: confirmation_id.clone(),
            },
            SuspendReason::WaitingForChild { child_id } => SuspendReason::WaitingForChild { child_id: *child_id },
            SuspendReason::ContractViolation { contract_name, step_name, reason } =>
                SuspendReason::ContractViolation {
                contract_name: contract_name.clone(),
                step_name: step_name.clone(),
                reason: reason.clone(),
            },
            SuspendReason::BudgetExhausted { dimension, limit, used } => SuspendReason::BudgetExhausted {
                dimension: dimension.clone(),
                limit: limit.clone(),
                used: used.clone(),
            },
            SuspendReason::GracefulShutdown => SuspendReason::GracefulShutdown,
        }
    }
}

/// Whether an error is worth retrying. Permanent errors never are; errors
/// that carry a flag follow it; I/O, storage and queue errors are.
pub open spec fn retryable_spec(e: DurableError) -> bool {
    match e {
        DurableError::Serialization(_) => false,
        DurableError::NotFound(_) => false,
        DurableError::InvalidState(_) => false,
        DurableError::Protocol(_) => false,
        DurableError::Rejected { .. } => false,
        DurableError::Cancelled => false,
        DurableError::NonDeterminismDetected { .. } => false,
        DurableError::PromptDrift { .. } => false,
        DurableError::StaleGeneration { .. } => false,
        DurableError::Suspended(_) => false,
        DurableError::StepFailed { retryable, .. } => retryable,
        DurableError::ToolError { retryable, .. } => retryable,
        DurableError::LlmError { retryable, .. } => retryable,
        DurableError::Io(_) => true,
        DurableError::Storage(_) => true,
        DurableError::StorageAt { .. } => true,
        DurableError::QueueFull => true,
    }
}

/// Errors that know whether they are transient (retryable) or permanent.
pub trait Retryable {
    fn is_retryable(&self) -> bool;
}

impl Retryable for DurableError {
    fn is_retryable(&self) -> (r: bool)
        ensures
            r == retryable_spec(*self),
    {
        match self {
            DurableError::Serialization(_) => false,
            DurableError::NotFound(_) => false,
            DurableError::InvalidState(_) => false,
            DurableError::Protocol(_) => false,
            DurableError::Rejected { .. } => false,
            DurableError::Cancelled => false,
            DurableError::NonDeterminismDetected { .. } => false,
            DurableError::PromptDrift { .. } => false,
            DurableError::StaleGeneration { .. } => false,
            DurableError::Suspended(_) => false,
            DurableError::StepFailed { retryable, .. } => *retryable,
            DurableError::ToolError { retryable, .. } => *retryable,
            DurableError::LlmError { retryable, .. } => *retryable,
            DurableError::Io(_) => true,
            DurableError::Storage(_) => true,
            DurableError::StorageAt { .. } => true,
            DurableError::QueueFull => true,
        }
    }
}

impl Retryable for String {
    /// Plain messages are treated as retryable (the safe default).
    fn is_retryable(&self) -> (r: bool)
        ensures
            r,
    {
        true
    }
}

/// How a character stands inside a quoted string of a reason's text:
/// quotes, backslashes, and newline, carriage return, tab and nul get
/// their short escapes, other ASCII control characters `\u{..}` with
/// lowercase hex digits, and every other character stands as it is.
pub open spec fn debug_char(c: char) -> Seq<char> {
    if c == '"' {
        seq!['\\', '"']
    } else if c == '\\' {
        seq!['\\', '\\']
    } else if c == '\n' {
        seq!['\\', 'n']
    } else if c == '\r' {
        seq!['\\', 'r']
    } else if c == '\t' {
        seq!['\\', 't']
    } else if c == '\0' {
        seq!['\\', '0']
    } else if (c as u32) < 0x20 || c as u32 == 0x7f {
        seq!['\\', 'u', '{'] + hex_text(c as u32 as nat, if (c as u32) < 16 { 1 } else { 2 }) + seq!['}']
    } else {
        seq![c]
    }
}

/// A text with each character as `debug_char` writes it.
pub open spec fn debug_escaped(s: Seq<char>) -> Seq<char>
    decreases s.len(),
{
    if s.len() == 0 {
        Seq::empty()
    } else {
        debug_escaped(s.drop_last()) + debug_char(s.last())
    }
}

/// A text in double quotes, escaped.
pub open spec fn debug_quoted(s: Seq<char>) -> Seq<char> {
    seq!['"'] + debug_escaped(s) + seq!['"']
}

fn push_debug_char(out: &mut String, c: char)
    ensures
        final(out)@ == old(out)@ + debug_char(c),
{
    if c == '"' {
        out.push('\\');
        out.push('"');
    } else if c == '\\' {
        out.push('\\');
        out.push('\\');
    } else if c == '\n' {
        out.push('\\');
        out.push('n');
    } else if c == '\r' {
        out.push('\\');
        out.push('r');
    } else if c == '\t' {
        out.push('\\');
        out.push('t');
    } else if c == '\0' {
        out.push('\\');
        out.push('0');
    } else if (c as u32) < 0x20 || c as u32 == 0x7f {
        out.push('\\');
        out.push('u');
        out.push('{');
        let k: usize = if (c as u32) < 16 { 1 } else { 2 };
        push_hex(out, c as u32 as u64, k);
        out.push('}');
    } else {
        out.push(c);
    }
    assert(final(out)@ =~= old(out)@ + debug_char(c));
}

/// Append a text in double quotes, escaped.
fn push_debug_quoted(out: &mut String, s: &str)
    ensures
        final(out)@ == old(out)@ + debug_quoted(s@),
{
    out.push('"');
    let ghost start = out@;
    let n = s.unicode_len();
    let mut i: usize = 0;
    while i < n
        invariant
            n == s@.len(),
            i <= n,
            out@ == start + debug_escaped(s@.subrange(0, i as int)),
        decreases n - i,
    {
        let c = s.get_char(i);
        push_debug_char(out, c);
        proof {
            assert(s@.subrange(0, i + 1).drop_last() =~= s@.subrange(0, i as int));
            assert(s@.subrange(0, i + 1).last() == c);
            assert(out@ =~= start + debug_escaped(s@.subrange(0, i + 1)));
        }
        i += 1;
    }
    out.push('"');
    assert(s@.subrange(0, n as int) =~= s@);
    assert(out@ =~= old(out)@ + debug_quoted(s@));
}

/// The text of a suspend reason: its variant and fields as Rust's `Debug`
/// writes them, the child's id as its hyphenated text and a
/// confirmation's arguments as their JSON text.
pub open spec fn reason_text(r: SuspendReason) -> Seq<char> {
    match r {
        SuspendReason::WaitingForInput { prompt } => "WaitingForInput { prompt: "@ + debug_quoted(prompt@) + " }"@,
        SuspendReason::WaitingForSignal { signal_name } => "WaitingForSignal { signal_name: "@ + debug_quoted(
            signal_name@,
        ) + " }"@,
        SuspendReason::WaitingForTimer { fire_at_millis, timer_name } => "WaitingForTimer { fire_at_millis: "@
            + dec_text(fire_at_millis as nat) + ", timer_name: "@ + debug_quoted(timer_name@) + " }"@,
        SuspendReason::WaitingForConfirmation { tool_name, arguments, confirmation_id } =>
            "WaitingForConfirmation { tool_name: "@ + debug_quoted(tool_name@) + ", arguments: "@ + arguments@
            + ", confirmation_id: "@ + debug_quoted(confirmation_id@) + " }"@,
        SuspendReason::WaitingForChild { child_id } => "WaitingForChild { child_id: ExecutionId(Uuid("@
            + hyphenated(child_id.0@) + ")) }"@,
        SuspendReason::ContractViolation { contract_name, step_name, reason } =>
            "ContractViolation { contract_name: "@ + debug_quoted(contract_name@) + ", step_name: "@
            + debug_quoted(step_name@) + ", reason: "@ + debug_quoted(reason@) + " }"@,
        SuspendReason::BudgetExhausted { dimension, limit, used } => "BudgetExhausted { dimension: "@
            + debug_quoted(dimension@) + ", limit: "@ + debug_quoted(limit@) + ", used: "@ + debug_quoted(used@)
            + " }"@,
        SuspendReason::GracefulShutdown => "GracefulShutdown"@,
    }
}

/// Append the text of a suspend reason.
pub fn push_reason_text(out: &mut String, r: &SuspendReason)
    ensures
        final(out)@ == old(out)@ + reason_text(*r),
{
    let ghost start = out@;
    match r {
        SuspendReason::WaitingForInput { prompt } => {
            out.push_str("WaitingForInput { prompt: ");
            push_debug_quoted(out, prompt.as_str());
            out.push_str(" }");
        },
        SuspendReason::WaitingForSignal { signal_name } => {
            out.push_str("WaitingForSignal { signal_name: ");
            push_debug_quoted(out, signal_name.as_str());
            out.push_str(" }");
        },
        SuspendReason::WaitingForTimer { fire_at_millis, timer_name } => {
            out.push_str("WaitingForTimer { fire_at_millis: ");
            push_decimal(out, *fire_at_millis);
            out.push_str(", timer_name: ");
            push_debug_quoted(out, timer_name.as_str());
            out.push_str(" }");
        },
        SuspendReason::WaitingForConfirmation { tool_name, arguments, confirmation_id } => {
            out.push_str("WaitingForConfirmation { tool_name: ");
            push_debug_quoted(out, tool_name.as_str());
            out.push_str(", arguments: ");
            out.push_str(arguments.as_str());
            out.push_str(", confirmation_id: ");
            push_debug_quoted(out, confirmation_id.as_str());
            out.push_str(" }");
        },
        SuspendReason::WaitingForChild { child_id } => {
            out.push_str("WaitingForChild { child_id: ExecutionId(Uuid(");
            out.push_str(child_id.to_text().as_str());
            out.push_str(")) }");
        },
        SuspendReason::ContractViolation { contract_name, step_name, reason } => {
            out.push_str("ContractViolation { contract_name: ");
            push_debug_quoted(out, contract_name.as_str());
            out.push_str(", step_name: ");
            push_debug_quoted(out, step_name.as_str());
            out.push_str(", reason: ");
            push_debug_quoted(out, reason.as_str());
            out.push_str(" }");
        },
        SuspendReason::BudgetExhausted { dimension, limit, used } => {
            out.push_str("BudgetExhausted { dimension: ");
            push_debug_quoted(out, dimension.as_str());
            out.push_str(", limit: ");
            push_debug_quoted(out, limit.as_str());
            out.push_str(", used: ");
            push_debug_quoted(out, used.as_str());
            out.push_str(" }");
        },
        SuspendReason::GracefulShutdown => {
            out.push_str("GracefulShutdown");
        },
    }
    assert(out@ =~= start + reason_text(*r));
}

/// The context of a step failure: the quoted name, then the step number
/// and the execution when known.
pub open spec fn step_context(
    step_name: Seq<char>,
    execution_id: Option<String>,
    step_number: Option<u64>,
) -> Seq<char> {
    "step '"@ + step_name + "'"@ + (match step_number {
        Some(n) => " (#"@ + dec_text(n as nat) + ")"@,
        None => Seq::empty(),
    }) + (match execution_id {
        Some(id) => " in exec "@ + id@,
        None => Seq::empty(),
    })
}

/// The human-readable message of an error. For a suspension the message
/// starts with "suspended: " followed by the reason's debug text.
pub open spec fn message_spec(e: DurableError) -> Seq<char> {
    match e {
        DurableError::Storage(m) => "storage error: "@ + m@,
        DurableError::StorageAt { message, path } => "storage error at "@ + path@ + ": "@ + message@,
        DurableError::Serialization(m) => "serialization error: "@ + m@,
        DurableError::StepFailed { step_name, message, execution_id, step_number, .. } => step_context(
            step_name@,
            execution_id,
            step_number,
        ) + " failed: "@ + message@,
        DurableError::Suspended(r) => "suspended: "@ + reason_text(r),
        DurableError::ToolError { tool_name, message, .. } => "tool '"@ + tool_name@ + "' error: "@
            + message@,
        DurableError::LlmError { message, .. } => "LLM error: "@ + message@,
        DurableError::NotFound(m) => "not found: "@ + m@,
        DurableError::InvalidState(m) => "invalid state: "@ + m@,
        DurableError::Io(m) => "I/O error: "@ + m@,
        DurableError::Protocol(m) => "protocol error: "@ + m@,
        DurableError::Rejected { tool_name, reason } => "rejected tool '"@ + tool_name@ + "': "@
            + reason@,
        DurableError::Cancelled => "execution cancelled"@,
        DurableError::NonDeterminismDetected { step_number, expected_name, actual_name } =>
            "non-determinism detected at step "@ + dec_text(step_number as nat)
            + ": expected '"@ + expected_name@ + "', got '"@ + actual_name@ + "'"@,
        DurableError::PromptDrift { stored_hash, current_hash } =>
            "system prompt changed between execution and resume (stored "@ + hex_text(
            stored_hash as nat,
            16,
        ) + ", current "@ + hex_text(current_hash as nat, 16)
            + ") — replay determinism violation (Invariant I)"@,
        DurableError::StaleGeneration { expected, actual } => "stale generation: expected "@
            + dec_text(expected as nat) + ", got "@ + dec_text(actual as nat),
        DurableError::QueueFull => "work queue is full — retry later"@,
    }
}

impl DurableError {
    /// The human-readable message of the error.
    pub fn message(&self) -> (s: String)
        ensures
            s@ == message_spec(*self),
    {
        match self {
            DurableError::Storage(m) => {
                let mut s = "storage error: ".to_owned();
                s.push_str(m.as_str());
                s
            },
            DurableError::StorageAt { message, path } => {
                let mut s = "storage error at ".to_owned();
                s.push_str(path.as_str());
                s.push_str(": ");
                s.push_str(message.as_str());
                s
            },
            DurableError::Serialization(m) => {
                let mut s = "serialization error: ".to_owned();
                s.push_str(m.as_str());
                s
            },
            DurableError::StepFailed { step_name, message, execution_id, step_number, .. } => {
                let mut s = "step '".to_owned();
                s.push_str(step_name.as_str());
                s.push_str("'");
                match step_number {
                    Some(n) => {
                        s.push_str(" (#");
                        push_decimal(&mut s, *n);
                        s.push_str(")");
                    },
                    None => {},
                }
                match execution_id {
                    Some(id) => {
                        s.push_str(" in exec ");
                        s.push_str(id.as_str());
                    },
                    None => {},
                }
                s.push_str(" failed: ");
                s.push_str(message.as_str());
                s
            },
            DurableError::Suspended(reason) => {
                let mut s = "suspended: ".to_owned();
                push_reason_text(&mut s, reason);
                s
            },
            DurableError::ToolError { tool_name, message, .. } => {
                let mut s = "tool '".to_owned();
                s.push_str(tool_name.as_str());
                s.push_str("' error: ");
                s.push_str(message.as_str());
                s
            },
            DurableError::LlmError { message, .. } => {
                let mut s = "LLM error: ".to_owned();
                s.push_str(message.as_str());
                s
            },
            DurableError::NotFound(m) => {
                let mut s = "not found: ".to_owned();
                s.push_str(m.as_str());
                s
            },
            DurableError::InvalidState(m) => {
                let mut s = "invalid state: ".to_owned();
                s.push_str(m.as_str());
                s
            },
            DurableError::Io(m) => {
                let mut s = "I/O error: ".to_owned();
                s.push_str(m.as_str());
                s
            },
            DurableError::Protocol(m) => {
                let mut s = "protocol error: ".to_owned();
                s.push_str(m.as_str());
                s
            },
            DurableError::Rejected { tool_name, reason } => {
                let mut s = "rejected tool '".to_owned();
                s.push_str(tool_name.as_str());
                s.push_str("': ");
                s.push_str(reason.as_str());
                s
            },
            DurableError::Cancelled => "execution cancelled".to_owned(),
            DurableError::NonDeterminismDetected { step_number, expected_name, actual_name } => {
                let mut s = "non-determinism detected at step ".to_owned();
                push_decimal(&mut s, *step_number);
                s.push_str(": expected '");
                s.push_str(expected_name.as_str());
                s.push_str("', got '");
                s.push_str(actual_name.as_str());
                s.push_str("'");
                s
            },
            DurableError::PromptDrift { stored_hash, current_hash } => {
                let mut s = "system prompt changed between execution and resume (stored ".to_owned();
                push_hex(&mut s, *stored_hash, 16);
                s.push_str(", current ");
                push_hex(&mut s, *current_hash, 16);
                s.push_str(") — replay determinism violation (Invariant I)");
                s
            },
            DurableError::StaleGeneration { expected, actual } => {
                let mut s = "stale generation: expected ".to_owned();
                push_decimal(&mut s, *expected);
                s.push_str(", got ");
                push_decimal(&mut s, *actual);
                s
            },
            DurableError::QueueFull => "work queue is full — retry later".to_owned(),
        }
    }
}

/// The result type used throughout the runtime.
pub type DurableResult<T> = Result<T, DurableError>;

} // verus!
