//! The decisions of the agent runtime: status transitions, error
//! handling, what an LLM reply leads to, budget limits, step bookkeeping,
//! and when a suspended execution is due to resume.

use vstd::prelude::*;
use crate::error::{message_spec, DurableError, DurableResult, SuspendReason};
use crate::context::{confirmation_name, Verdict};
use crate::conversation::{truncated, Conversation};
use crate::event::EventType;
use crate::jsontext::{push_quoted, quoted};
use crate::hash::{fnv1a_spec, hash_params};
use crate::llm::{Message, MessageContent, Role};
use crate::tool::{ToolCall, ToolResult};
use crate::memory::step_key_view;
use crate::replay::str_eq;
use crate::response::AgentOutcome;
use crate::storage::ExecutionLog;
use crate::text::{dec_text, push_decimal};
use crate::uuid::hyphenated;
use crate::types::{transition_message, valid_transition, ExecutionId, ExecutionMetadata, ExecutionStatus, StepKey, StepStatus};
use vstd::string::StringSliceAdditionalSpecFns;

verus! {

/// What an error hook decides.
#[derive(Debug, Clone)]
pub enum ErrorAction {
    /// Retry the failed operation.
    Retry,
    /// Fail the execution with this error.
    Fail(DurableError),
    /// Suspend the execution for external intervention.
    Suspend(SuspendReason),
}

/// Move an execution from one status to another: refused unless the
/// state machine allows it, then stored.
pub fn transition_status<S: ExecutionLog>(storage: &mut S, exec_id: ExecutionId, from: ExecutionStatus, to: ExecutionStatus) -> (r:
    DurableResult<()>)
    requires
        old(storage).log_wf(),
    ensures
        final(storage).log_wf(),
        final(storage).log_reliable() == old(storage).log_reliable(),
        !valid_transition(from, to) ==> (r matches Err(DurableError::InvalidState(m)) && m@ == transition_message(from, to))
            && *final(storage) == *old(storage),
        valid_transition(from, to) && old(storage).log_reliable() && old(storage).log_executions().dom().contains(exec_id)
            ==> r is Ok,
        r is Ok ==> valid_transition(from, to) && final(storage).log_executions().dom().contains(exec_id)
            && final(storage).log_executions()[exec_id].status == to
            && final(storage).log_executions()[exec_id].suspend_reason == old(storage).log_executions()[exec_id].suspend_reason,
        final(storage).log_steps() == old(storage).log_steps(),
        final(storage).log_signals() == old(storage).log_signals(),
        final(storage).log_timers() == old(storage).log_timers(),
        valid_transition(from, to) && r is Err ==> r matches Err(DurableError::Storage(_)),
{
    match from.transition_to(&to) {
        Ok(()) => {},
        Err(e) => return Err(e),
    }
    match storage.update_execution_status(exec_id, to) {
        Ok(()) => Ok(()),
        Err(e) => Err(DurableError::Storage(e)),
    }
}

/// What handling an error comes to: an outcome now, or winding the
/// execution down (compensating, or failing it) and then the error.
#[derive(Debug, Clone)]
pub enum ErrorPlan {
    Outcome(AgentOutcome),
    WindDown(DurableError),
}

/// How an error of the agent loop is handled, given what the error hook
/// (if any) decided: a suspension stays one; a hook may fail with another
/// error or suspend; otherwise the execution winds down with the error.
pub fn error_plan(error: DurableError, hook: Option<ErrorAction>) -> (p: ErrorPlan)
    ensures
        error matches DurableError::Suspended(reason) ==> p == ErrorPlan::Outcome(AgentOutcome::Suspended { reason }),
        !(error is Suspended) ==> match hook {
            Some(ErrorAction::Fail(e)) => p == ErrorPlan::Outcome(AgentOutcome::Error { error: e }),
            Some(ErrorAction::Suspend(reason)) => p == ErrorPlan::Outcome(AgentOutcome::Suspended { reason }),
            _ => p == ErrorPlan::WindDown(error),
        },
{
    match error {
        DurableError::Suspended(reason) => ErrorPlan::Outcome(AgentOutcome::Suspended { reason }),
        _ => match hook {
            Some(ErrorAction::Fail(e)) => ErrorPlan::Outcome(AgentOutcome::Error { error: e }),
            Some(ErrorAction::Suspend(reason)) => ErrorPlan::Outcome(AgentOutcome::Suspended { reason }),
            _ => ErrorPlan::WindDown(error),
        },
    }
}

/// The status after compensation: compensated when every compensation
/// succeeded, otherwise compensation failed.
pub fn compensation_status(all_ok: bool) -> (s: ExecutionStatus)
    ensures
        s == if all_ok { ExecutionStatus::Compensated } else { ExecutionStatus::CompensationFailed },
{
    if all_ok {
        ExecutionStatus::Compensated
    } else {
        ExecutionStatus::CompensationFailed
    }
}

/// A suspension for an exhausted budget dimension.
pub open spec fn exhausted(r: SuspendReason, dimension: Seq<char>, limit: Seq<char>, used: Seq<char>) -> bool {
    r matches SuspendReason::BudgetExhausted { dimension: d, limit: l, used: u } && d@ == dimension && l@ == limit
        && u@ == used
}

fn budget_reason(dimension: &str, limit: String, used: String) -> (r: SuspendReason)
    ensures
        exhausted(r, dimension@, limit@, used@),
{
    SuspendReason::BudgetExhausted { dimension: dimension.to_string(), limit, used }
}

fn millis_text(n: u64) -> (s: String)
    ensures
        s@ == dec_text(n as nat) + "ms"@,
{
    let mut s = String::new();
    push_decimal(&mut s, n);
    s.push_str("ms");
    s
}

fn decimal_text(n: u64) -> (s: String)
    ensures
        s@ == dec_text(n as nat),
{
    let mut s = String::new();
    push_decimal(&mut s, n);
    s
}

/// The wall-clock limit of a run: once `elapsed` reaches the timeout the
/// run suspends with the wall-time budget exhausted.
pub fn wall_time_check(timeout_millis: Option<u64>, elapsed_millis: u64) -> (r: Option<SuspendReason>)
    ensures
        match timeout_millis {
            Some(t) => if elapsed_millis >= t {
                r matches Some(x) && exhausted(x, "wall_time"@, dec_text(t as nat) + "ms"@, dec_text(elapsed_millis as nat) + "ms"@)
            } else {
                r is None
            },
            None => r is None,
        },
{
    match timeout_millis {
        Some(t) => {
            if elapsed_millis >= t {
                Some(budget_reason("wall_time", millis_text(t), millis_text(elapsed_millis)))
            } else {
                None
            }
        },
        None => None,
    }
}

/// The counted budget dimensions, checked in order: LLM calls, tool
/// calls, then wall time since the first recorded use (when there was
/// one). The first one reached suspends the run.
pub fn call_budget_check(
    max_llm_calls: Option<u64>,
    llm_calls_used: u64,
    max_tool_calls: Option<u64>,
    tool_calls_used: u64,
    max_wall_time_millis: Option<u64>,
    start_time_millis: u64,
    now_millis: u64,
) -> (r: Option<SuspendReason>)
    ensures
        ({
            let elapsed = if now_millis >= start_time_millis { now_millis - start_time_millis } else { 0 };
            if max_llm_calls matches Some(m) && llm_calls_used >= m {
                r matches Some(x) && exhausted(x, "llm_calls"@, dec_text(max_llm_calls->0 as nat), dec_text(llm_calls_used as nat))
            } else if max_tool_calls matches Some(m) && tool_calls_used >= m {
                r matches Some(x) && exhausted(x, "tool_calls"@, dec_text(max_tool_calls->0 as nat), dec_text(tool_calls_used as nat))
            } else if max_wall_time_millis matches Some(m) && start_time_millis > 0 && elapsed >= m {
                r matches Some(x) && exhausted(x, "wall_time"@, dec_text(max_wall_time_millis->0 as nat) + "ms"@, dec_text(elapsed as nat) + "ms"@)
            } else {
                r is None
            }
        }),
{
    if let Some(m) = max_llm_calls {
        if llm_calls_used >= m {
            return Some(budget_reason("llm_calls", decimal_text(m), decimal_text(llm_calls_used)));
        }
    }
    if let Some(m) = max_tool_calls {
        if tool_calls_used >= m {
            return Some(budget_reason("tool_calls", decimal_text(m), decimal_text(tool_calls_used)));
        }
    }
    if let Some(m) = max_wall_time_millis {
        let elapsed = now_millis.saturating_sub(start_time_millis);
        if start_time_millis > 0 && elapsed >= m {
            return Some(budget_reason("wall_time", millis_text(m), millis_text(elapsed)));
        }
    }
    None
}

/// What the agent loop does with an LLM reply.
#[derive(Debug, Clone)]
pub enum ReplyAction {
    /// Finish with this text.
    Complete(String),
    /// Run the tool calls and ask the LLM again.
    RunTools,
    /// Fail the run.
    Fail(DurableError),
}

/// The action for a reply of a kind (`text` or `tool_calls`), with its
/// text and the number of tool calls it holds: a text completes the run,
/// an empty list of calls completes it with no text, calls are run, and
/// any other kind fails the run.
pub fn reply_action(kind: &str, text: &str, n_calls: usize) -> (a: ReplyAction)
    ensures
        kind@ == "text"@ ==> (a matches ReplyAction::Complete(t) && t@ == text@),
        kind@ == "tool_calls"@ && n_calls == 0 ==> (a matches ReplyAction::Complete(t) && t@.len() == 0),
        kind@ == "tool_calls"@ && n_calls > 0 ==> a is RunTools,
        kind@ != "text"@ && kind@ != "tool_calls"@ ==> (a matches ReplyAction::Fail(DurableError::InvalidState(m))
            && m@ == "unknown LLM response type: "@ + kind@),
{
    proof {
        reveal_strlit("text");
        reveal_strlit("tool_calls");
        assert("text"@.len() == 4);
        assert("tool_calls"@.len() == 10);
        assert("text"@ != "tool_calls"@);
    }
    if str_eq(kind, "text") {
        ReplyAction::Complete(text.to_string())
    } else if str_eq(kind, "tool_calls") {
        if n_calls == 0 {
            ReplyAction::Complete(String::new())
        } else {
            ReplyAction::RunTools
        }
    } else {
        let mut m = "unknown LLM response type: ".to_string();
        m.push_str(kind);
        ReplyAction::Fail(DurableError::InvalidState(m))
    }
}

/// The message an LLM reply adds to the conversation: the assistant's
/// text, or its tool calls when there are some; nothing otherwise.
pub open spec fn reply_message(kind: Seq<char>, text: String, calls: Vec<ToolCall>) -> Option<Message> {
    if kind == "text"@ {
        Some(Message { role: Role::Assistant, content: MessageContent::Text(text) })
    } else if kind == "tool_calls"@ && calls@.len() > 0 {
        Some(Message { role: Role::Assistant, content: MessageContent::ToolCalls(calls) })
    } else {
        None
    }
}

/// The conversation after a message that may be absent.
pub open spec fn with_message(s: Seq<Message>, m: Option<Message>) -> Seq<Message> {
    match m {
        Some(m) => s.push(m),
        None => s,
    }
}

/// Takes an LLM reply (its kind, text and tool calls) into the
/// conversation and says what the agent loop does next.
pub fn take_reply(conversation: &mut Conversation, kind: &str, text: String, calls: Vec<ToolCall>) -> (a: ReplyAction)
    ensures
        final(conversation)@ == with_message(old(conversation)@, reply_message(kind@, text, calls)),
        kind@ == "text"@ ==> (a matches ReplyAction::Complete(t) && t@ == text@),
        kind@ == "tool_calls"@ && calls@.len() == 0 ==> (a matches ReplyAction::Complete(t) && t@.len() == 0),
        kind@ == "tool_calls"@ && calls@.len() > 0 ==> a is RunTools,
        kind@ != "text"@ && kind@ != "tool_calls"@ ==> (a matches ReplyAction::Fail(DurableError::InvalidState(m))
            && m@ == "unknown LLM response type: "@ + kind@),
{
    let action = reply_action(kind, text.as_str(), calls.len());
    if str_eq(kind, "text") {
        conversation.push(Message::assistant_text(text));
    } else if str_eq(kind, "tool_calls") && calls.len() > 0 {
        conversation.push(Message::assistant_tool_calls(calls));
    }
    action
}

/// The tool message that carries a tool's result.
pub open spec fn result_message(r: ToolResult) -> Message {
    Message {
        role: Role::Tool,
        content: MessageContent::ToolResult { call_id: r.call_id, output: r.output, is_error: r.is_error },
    }
}

/// The tool messages for a batch of results, in order.
pub open spec fn result_messages(rs: Seq<ToolResult>) -> Seq<Message>
    decreases rs.len(),
{
    if rs.len() == 0 {
        Seq::empty()
    } else {
        result_messages(rs.drop_last()).push(result_message(rs.last()))
    }
}

/// Adds the results of the tool calls to the conversation, in order.
pub fn add_tool_results(conversation: &mut Conversation, results: Vec<ToolResult>)
    ensures
        final(conversation)@ == old(conversation)@ + result_messages(results@),
{
    let ghost orig = results@;
    let n = results.len();
    let mut rest = results;
    let mut k: usize = 0;
    while rest.len() > 0
        invariant
            orig.len() == n,
            k + rest@.len() == orig.len(),
            rest@ == orig.subrange(k as int, orig.len() as int),
            conversation@ == old(conversation)@ + result_messages(orig.take(k as int)),
        decreases rest@.len(),
    {
        let r = rest.remove(0);
        proof {
            assert(r == orig[k as int]);
            assert(orig.take(k + 1).drop_last() =~= orig.take(k as int));
            assert(orig.take(k + 1).last() == orig[k as int]);
        }
        conversation.push(Message::tool_result(r.call_id, r.output, r.is_error));
        proof {
            assert(rest@ =~= orig.subrange(k + 1, orig.len() as int));
        }
        k += 1;
    }
    assert(orig.take(k as int) =~= orig);
}

/// What a recorded step left, as the conversation is rebuilt from it: its
/// name, whether it completed, and the fields of its result (for an LLM
/// call the reply's kind, text and tool calls, if it holds them; for a
/// tool the call's id, output and error flag).
#[derive(Debug, Clone)]
pub struct StepOutcome {
    pub name: String,
    pub completed: bool,
    pub kind: Option<String>,
    pub content: String,
    pub tool_calls: Option<Vec<ToolCall>>,
    pub call_id: String,
    pub output: String,
    pub is_error: bool,
}

/// A step named `llm_call` or `llm_call_...`.
pub open spec fn is_llm_step(name: Seq<char>) -> bool {
    name == "llm_call"@ || (9 <= name.len() && name.subrange(0, 9) == "llm_call_"@)
}

/// A step named `tool_...`.
pub open spec fn is_tool_step(name: Seq<char>) -> bool {
    5 <= name.len() && name.subrange(0, 5) == "tool_"@
}

/// The message a completed step gives back: an LLM call its reply (a
/// text, or tool calls when the result holds them), a tool its result.
pub open spec fn step_message(s: StepOutcome) -> Option<Message> {
    if !s.completed {
        None
    } else if is_llm_step(s.name@) {
        match s.kind {
            Some(k) => if k@ == "text"@ {
                Some(Message { role: Role::Assistant, content: MessageContent::Text(s.content) })
            } else if k@ == "tool_calls"@ {
                match s.tool_calls {
                    Some(c) => Some(Message { role: Role::Assistant, content: MessageContent::ToolCalls(c) }),
                    None => None,
                }
            } else {
                None
            },
            None => None,
        }
    } else if is_tool_step(s.name@) {
        Some(Message {
            role: Role::Tool,
            content: MessageContent::ToolResult { call_id: s.call_id, output: s.output, is_error: s.is_error },
        })
    } else {
        None
    }
}

/// The messages the recorded steps give back, in order.
pub open spec fn rebuilt(steps: Seq<StepOutcome>) -> Seq<Message>
    decreases steps.len(),
{
    if steps.len() == 0 {
        Seq::empty()
    } else {
        with_message(rebuilt(steps.drop_last()), step_message(steps.last()))
    }
}

/// The message of one recorded step, if it gives one.
fn outcome_message(s: StepOutcome) -> (m: Option<Message>)
    ensures
        m == step_message(s),
{
    if !s.completed {
        return None;
    }
    let (llm, tool) = step_usage(s.name.as_str());
    proof {
        reveal_strlit("llm_call");
        reveal_strlit("text");
        reveal_strlit("tool_calls");
        assert("text"@.len() == 4);
        assert("tool_calls"@.len() == 10);
    }
    if llm == 1 {
        match s.kind {
            Some(k) => {
                if str_eq(k.as_str(), "text") {
                    Some(Message::assistant_text(s.content))
                } else if str_eq(k.as_str(), "tool_calls") {
                    match s.tool_calls {
                        Some(c) => Some(Message::assistant_tool_calls(c)),
                        None => None,
                    }
                } else {
                    None
                }
            },
            None => None,
        }
    } else if tool == 1 {
        Some(Message::tool_result(s.call_id, s.output, s.is_error))
    } else {
        None
    }
}

/// Rebuilds the conversation from the recorded steps, in order: each
/// completed LLM call adds its reply and each completed tool its result.
pub fn rebuild_conversation(conversation: &mut Conversation, steps: Vec<StepOutcome>)
    ensures
        final(conversation)@ == old(conversation)@ + rebuilt(steps@),
{
    let ghost orig = steps@;
    let n = steps.len();
    let mut rest = steps;
    let mut k: usize = 0;
    while rest.len() > 0
        invariant
            orig.len() == n,
            k + rest@.len() == orig.len(),
            rest@ == orig.subrange(k as int, orig.len() as int),
            conversation@ == old(conversation)@ + rebuilt(orig.take(k as int)),
        decreases rest@.len(),
    {
        let s = rest.remove(0);
        proof {
            assert(s == orig[k as int]);
            assert(orig.take(k + 1).drop_last() =~= orig.take(k as int));
            assert(orig.take(k + 1).last() == orig[k as int]);
        }
        let ghost before = conversation@;
        match outcome_message(s) {
            Some(m) => {
                conversation.push(m);
                proof {
                    assert(conversation@ =~= old(conversation)@ + rebuilt(orig.take(k as int)).push(m));
                }
            },
            None => {},
        }
        proof {
            assert(rest@ =~= orig.subrange(k + 1, orig.len() as int));
        }
        k += 1;
    }
    assert(orig.take(k as int) =~= orig);
}

/// A recorded LLM step gives back, on rebuilding, the message the live
/// loop added for the same reply: its text, or its tool calls. (A reply
/// with an empty list of tool calls is left out: the live loop ends the
/// run on it without adding a message.)
pub proof fn law_recorded_reply_rebuilds(s: StepOutcome, kind: String, text: String, calls: Vec<ToolCall>)
    requires
        s.completed,
        is_llm_step(s.name@),
        s.kind == Some(kind),
        s.content == text,
        s.tool_calls == Some(calls),
        !(kind@ == "tool_calls"@ && calls@.len() == 0),
    ensures
        step_message(s) == reply_message(kind@, text, calls),
{
    reveal_strlit("text");
    reveal_strlit("tool_calls");
    assert("text"@.len() == 4);
    assert("tool_calls"@.len() == 10);
}

/// A recorded tool step gives back, on rebuilding, the tool message the
/// live loop added for the same result.
pub proof fn law_recorded_result_rebuilds(s: StepOutcome, r: ToolResult)
    requires
        s.completed,
        is_tool_step(s.name@),
        s.call_id == r.call_id,
        s.output == r.output,
        s.is_error == r.is_error,
    ensures
        step_message(s) == Some(result_message(r)),
{
    reveal_strlit("llm_call");
    reveal_strlit("llm_call_");
    reveal_strlit("tool_");
    assert("tool_"@[0] == 't');
    assert(s.name@.subrange(0, 5)[0] == s.name@[0]);
    assert(s.name@[0] == 't');
    if s.name@ == "llm_call"@ {
        assert("llm_call"@[0] == 'l');
    }
    if 9 <= s.name@.len() && s.name@.subrange(0, 9) == "llm_call_"@ {
        assert(s.name@.subrange(0, 9)[0] == s.name@[0]);
        assert("llm_call_"@[0] == 'l');
    }
}

/// Rebuilding goes step by step: the messages of a record made of two
/// parts are those of the first part followed by those of the second.
pub proof fn law_rebuilt_concat(a: Seq<StepOutcome>, b: Seq<StepOutcome>)
    ensures
        rebuilt(a + b) == rebuilt(a) + rebuilt(b),
    decreases b.len(),
{
    if b.len() == 0 {
        assert(a + b =~= a);
        assert(rebuilt(a) + rebuilt(b) =~= rebuilt(a));
    } else {
        law_rebuilt_concat(a, b.drop_last());
        assert((a + b).drop_last() =~= a + b.drop_last());
        assert((a + b).last() == b.last());
        match step_message(b.last()) {
            Some(m) => {
                assert(rebuilt(a) + rebuilt(b.drop_last()).push(m) =~= (rebuilt(a) + rebuilt(b.drop_last())).push(m));
            },
            None => {},
        }
    }
}

/// The signal that carries user input to a suspended execution: the one
/// it waits for, or else `__user_input`.
pub open spec fn input_signal(reason: Option<SuspendReason>) -> Seq<char> {
    match reason {
        Some(SuspendReason::WaitingForSignal { signal_name }) => signal_name@,
        _ => "__user_input"@,
    }
}

/// The name of the signal that carries user input.
pub fn input_signal_name(reason: &Option<SuspendReason>) -> (r: String)
    ensures
        r@ == input_signal(*reason),
{
    match reason {
        Some(SuspendReason::WaitingForSignal { signal_name }) => signal_name.clone(),
        _ => "__user_input".to_string(),
    }
}

/// Store user input, as a JSON string, under the signal the execution
/// waits for: `NotFound` when the execution does not exist.
pub fn store_input<S: ExecutionLog>(storage: &mut S, exec_id: ExecutionId, input: &str) -> (r: DurableResult<()>)
    requires
        old(storage).log_wf(),
    ensures
        final(storage).log_wf(),
        final(storage).log_reliable() == old(storage).log_reliable(),
        final(storage).log_executions() == old(storage).log_executions(),
        final(storage).log_steps() == old(storage).log_steps(),
        final(storage).log_timers() == old(storage).log_timers(),
        old(storage).log_reliable() ==> (r is Ok <==> old(storage).log_executions().dom().contains(exec_id)),
        !old(storage).log_executions().dom().contains(exec_id) ==> r is Err,
        r matches Err(DurableError::NotFound(m)) ==> !old(storage).log_executions().dom().contains(exec_id)
            && m@ == "execution "@ + hyphenated(exec_id.0@),
        r is Err ==> (r matches Err(DurableError::NotFound(_))) || (r matches Err(DurableError::Storage(_))),
        r is Ok ==> ({
            let k = (exec_id, input_signal(old(storage).log_executions()[exec_id].suspend_reason));
            &&& final(storage).log_signals().dom().contains(k)
            &&& final(storage).log_signals()[k]@ == quoted(input@)
            &&& forall|j| j != k ==> (#[trigger] final(storage).log_signals().dom().contains(j)
                <==> old(storage).log_signals().dom().contains(j)) && (old(storage).log_signals().dom().contains(j)
                ==> final(storage).log_signals()[j] == old(storage).log_signals()[j])
        }),
{
    let meta = match storage.get_execution(exec_id) {
        Ok(Some(m)) => m,
        Ok(None) => {
            let mut m = "execution ".to_string();
            m.push_str(exec_id.to_text().as_str());
            return Err(DurableError::NotFound(m));
        },
        Err(e) => return Err(DurableError::Storage(e)),
    };
    let name = input_signal_name(&meta.suspend_reason);
    let mut data = String::new();
    push_quoted(&mut data, input);
    proof {
        assert(data@ =~= quoted(input@));
    }
    match storage.store_signal(exec_id, name.as_str(), data.as_str()) {
        Ok(()) => Ok(()),
        Err(e) => Err(DurableError::Storage(e)),
    }
}

/// Clear an execution's suspension: no reason stored, and running again.
pub fn clear_suspension<S: ExecutionLog>(storage: &mut S, exec_id: ExecutionId) -> (r: DurableResult<()>)
    requires
        old(storage).log_wf(),
    ensures
        !old(storage).log_executions().dom().contains(exec_id) ==> r is Err,
        final(storage).log_executions().dom() == old(storage).log_executions().dom(),
        final(storage).log_wf(),
        final(storage).log_reliable() == old(storage).log_reliable(),
        final(storage).log_steps() == old(storage).log_steps(),
        final(storage).log_signals() == old(storage).log_signals(),
        final(storage).log_timers() == old(storage).log_timers(),
        old(storage).log_reliable() && old(storage).log_executions().dom().contains(exec_id) ==> r is Ok,
        r is Ok ==> final(storage).log_executions().dom().contains(exec_id)
            && final(storage).log_executions()[exec_id].suspend_reason is None
            && final(storage).log_executions()[exec_id].status == ExecutionStatus::Running,
        r matches Err(e) ==> e is Storage,
{
    match storage.set_suspend_reason(exec_id, None) {
        Ok(()) => {},
        Err(e) => return Err(DurableError::Storage(e)),
    }
    match storage.update_execution_status(exec_id, ExecutionStatus::Running) {
        Ok(()) => Ok(()),
        Err(e) => Err(DurableError::Storage(e)),
    }
}

/// What the confirmation gate of a tool answers for the reading of the
/// confirmation's payload: go ahead when approved or unreadable; a
/// rejection of the tool, with the given reason or a default, otherwise.
pub open spec fn gate_answer(tool: Seq<char>, v: Option<Verdict>, r: DurableResult<()>) -> bool {
    match v {
        Some(Verdict::Rejected(reason)) => r matches Err(DurableError::Rejected { tool_name, reason: why })
            && tool_name@ == tool && why@ == (match reason {
            Some(t) => t@,
            None => "rejected by human"@,
        }),
        _ => r == Ok::<(), DurableError>(()),
    }
}

/// The signal that confirms a tool call: `confirm_<tool>_<id>_<count>`.
pub open spec fn gate_key(exec_id: ExecutionId, tool: Seq<char>, step_count: u64) -> (ExecutionId, Seq<char>) {
    (exec_id, confirmation_name(tool, exec_id, step_count))
}

/// The confirmation gate of a tool that needs one, at a step count: when
/// its confirmation signal has arrived it is consumed and `read` judges
/// the payload (`None` when it cannot be read); otherwise the execution
/// is suspended waiting for it.
pub fn confirmation_gate<S: ExecutionLog, J>(
    storage: &mut S,
    exec_id: ExecutionId,
    tool_name: &str,
    arguments_json: &str,
    step_count: u64,
    read: J,
) -> (r: DurableResult<()>) where J: FnOnce(String) -> Option<Verdict>,
    requires
        old(storage).log_wf(),
        forall|d: String| read.requires((d,)),
    ensures
        final(storage).log_wf(),
        final(storage).log_reliable() == old(storage).log_reliable(),
        final(storage).log_steps() == old(storage).log_steps(),
        final(storage).log_timers() == old(storage).log_timers(),
        r is Ok ==> old(storage).log_signals().dom().contains(gate_key(exec_id, tool_name@, step_count)),
        old(storage).log_reliable() && old(storage).log_signals().dom().contains(gate_key(exec_id, tool_name@, step_count))
            ==> final(storage).log_signals() == old(storage).log_signals().remove(gate_key(exec_id, tool_name@, step_count)),
        old(storage).log_reliable() && old(storage).log_signals().dom().contains(gate_key(exec_id, tool_name@, step_count))
            ==> exists|v: Option<Verdict>| read.ensures((old(storage).log_signals()[gate_key(exec_id, tool_name@, step_count)],), v)
            && #[trigger] gate_answer(tool_name@, v, r),
        !old(storage).log_signals().dom().contains(gate_key(exec_id, tool_name@, step_count)) ==> r is Err,
        r matches Err(DurableError::Suspended(reason)) ==> !old(storage).log_signals().dom().contains(gate_key(exec_id, tool_name@, step_count))
            && (reason matches SuspendReason::WaitingForConfirmation { tool_name: t, arguments, confirmation_id }
            && t@ == tool_name@ && arguments@ == arguments_json@ && confirmation_id@ == gate_key(exec_id, tool_name@, step_count).1),
        old(storage).log_reliable() && !old(storage).log_signals().dom().contains(gate_key(exec_id, tool_name@, step_count))
            ==> (r matches Err(DurableError::Suspended(_))),
        old(storage).log_reliable() && !old(storage).log_signals().dom().contains(gate_key(exec_id, tool_name@, step_count))
            && old(storage).log_executions().dom().contains(exec_id) ==> (r matches Err(DurableError::Suspended(reason))
            && final(storage).log_executions()[exec_id].suspend_reason == Some(reason)
            && final(storage).log_executions()[exec_id].status == ExecutionStatus::Suspended),
{
    let mut confirmation_id = "confirm_".to_string();
    confirmation_id.push_str(tool_name);
    confirmation_id.push_str("_");
    confirmation_id.push_str(exec_id.to_text().as_str());
    confirmation_id.push_str("_");
    push_decimal(&mut confirmation_id, step_count);
    proof {
        assert(confirmation_id@ =~= confirmation_name(tool_name@, exec_id, step_count));
    }
    match storage.peek_signal(exec_id, confirmation_id.as_str()) {
        Ok(Some(data)) => {
            let _ = storage.consume_signal(exec_id, confirmation_id.as_str());
            let v = read(data);
            let ghost v0 = v;
            let out = match v {
                Some(Verdict::Rejected(reason)) => {
                    let why = match reason {
                        Some(t) => t,
                        None => "rejected by human".to_string(),
                    };
                    Err(DurableError::Rejected { tool_name: tool_name.to_string(), reason: why })
                },
                _ => Ok(()),
            };
            proof {
                assert(gate_answer(tool_name@, v0, out));
            }
            out
        },
        Ok(None) => {
            let reason = SuspendReason::WaitingForConfirmation {
                tool_name: tool_name.to_string(),
                arguments: arguments_json.to_string(),
                confirmation_id,
            };
            let _ = storage.set_suspend_reason(exec_id, Some(reason.copy()));
            let _ = transition_status(storage, exec_id, ExecutionStatus::Running, ExecutionStatus::Suspended);
            Err(DurableError::Suspended(reason))
        },
        Err(e) => Err(DurableError::Storage(e)),
    }
}

/// Where the agent loop stands: the rounds done and the rounds allowed.
#[derive(Debug, Clone, Copy)]
pub struct LoopState {
    pub iteration: u32,
    pub max_iterations: u32,
}

/// What happened since the loop last decided.
#[derive(Debug, Clone)]
pub enum LoopEvent {
    /// A round is about to start: the time since the run began, the
    /// run's time limit and the conversation's length limit.
    Begin { elapsed_millis: u64, timeout_millis: Option<u64>, max_messages: Option<usize> },
    /// The LLM replied (its kind, text and tool calls).
    Reply { kind: String, text: String, calls: Vec<ToolCall> },
    /// The tool calls of the round gave these results, in order.
    ToolResults(Vec<ToolResult>),
}

/// What the loop does next.
#[derive(Debug, Clone)]
pub enum LoopAction {
    /// Ask the LLM, with the conversation as it stands.
    CallLlm,
    /// Run these tool calls.
    RunTools(Vec<ToolCall>),
    /// Start the next round.
    NextRound,
    /// Complete the execution with this text, storing the conversation
    /// first where the reply was a text.
    Complete { text: String, save_conversation: bool },
    /// End the run with this outcome.
    Finish(AgentOutcome),
}

/// A copy of a list of tool calls.
fn copy_calls(v: &Vec<ToolCall>) -> (r: Vec<ToolCall>)
    ensures
        r@ == v@,
{
    let mut r: Vec<ToolCall> = Vec::new();
    let mut i: usize = 0;
    while i < v.len()
        invariant
            i <= v@.len(),
            r@ == v@.take(i as int),
        decreases v@.len() - i,
    {
        let c = &v[i];
        r.push(ToolCall { id: c.id.clone(), name: c.name.clone(), arguments: c.arguments.clone() });
        proof {
            assert(r@ =~= v@.take(i + 1));
        }
        i += 1;
    }
    assert(v@.take(v@.len() as int) =~= v@);
    r
}

/// One decision of the agent loop. A round begins by checking the round
/// limit, then the time limit, then trimming the conversation; the LLM's
/// reply is taken into the conversation and decides the rest; the tool
/// results end the round.
pub fn loop_step(state: LoopState, conversation: &mut Conversation, event: LoopEvent) -> (r: (LoopState, LoopAction))
    ensures
        match event {
            LoopEvent::Begin { elapsed_millis, timeout_millis, max_messages } => {
                &&& r.0 == state
                &&& state.iteration >= state.max_iterations ==> (r.1 matches LoopAction::Finish(
                    AgentOutcome::MaxIterations { last_response },
                ) && last_response@.len() == 0) && final(conversation)@ == old(conversation)@
                &&& state.iteration < state.max_iterations && (timeout_millis matches Some(t) && elapsed_millis >= t)
                    ==> (r.1 matches LoopAction::Finish(AgentOutcome::Suspended { reason }) && exhausted(
                    reason,
                    "wall_time"@,
                    dec_text(timeout_millis->0 as nat) + "ms"@,
                    dec_text(elapsed_millis as nat) + "ms"@,
                )) && final(conversation)@ == old(conversation)@
                &&& state.iteration < state.max_iterations && !(timeout_millis matches Some(t) && elapsed_millis >= t)
                    ==> r.1 is CallLlm && final(conversation)@ == match max_messages {
                    Some(m) => truncated(old(conversation)@, m as int),
                    None => old(conversation)@,
                }
            },
            LoopEvent::Reply { kind, text, calls } => {
                &&& r.0 == state
                &&& final(conversation)@ == with_message(old(conversation)@, reply_message(kind@, text, calls))
                &&& kind@ == "text"@ ==> (r.1 matches LoopAction::Complete { text: t, save_conversation } && t@ == text@
                    && save_conversation)
                &&& kind@ == "tool_calls"@ && calls@.len() == 0 ==> (r.1 matches LoopAction::Complete {
                    text: t,
                    save_conversation,
                } && t@.len() == 0 && !save_conversation)
                &&& kind@ == "tool_calls"@ && calls@.len() > 0 ==> (r.1 matches LoopAction::RunTools(c) && c@ == calls@)
                &&& kind@ != "text"@ && kind@ != "tool_calls"@ ==> (r.1 matches LoopAction::Finish(
                    AgentOutcome::Error { error: DurableError::InvalidState(m) },
                ) && m@ == "unknown LLM response type: "@ + kind@)
            },
            LoopEvent::ToolResults(results) => {
                &&& final(conversation)@ == old(conversation)@ + result_messages(results@)
                &&& r.1 is NextRound
                &&& r.0.max_iterations == state.max_iterations
                &&& r.0.iteration == if state.iteration < u32::MAX { state.iteration + 1 } else { state.iteration as int }
            },
        },
{
    match event {
        LoopEvent::Begin { elapsed_millis, timeout_millis, max_messages } => {
            if state.iteration >= state.max_iterations {
                return (state, LoopAction::Finish(AgentOutcome::MaxIterations { last_response: String::new() }));
            }
            match wall_time_check(timeout_millis, elapsed_millis) {
                Some(reason) => {
                    proof {
                        assert(timeout_millis matches Some(t) && elapsed_millis >= t);
                    }
                    (state, LoopAction::Finish(AgentOutcome::Suspended { reason }))
                },
                None => {
                    match max_messages {
                        Some(m) => conversation.truncate(m),
                        None => {},
                    }
                    (state, LoopAction::CallLlm)
                },
            }
        },
        LoopEvent::Reply { kind, text, calls } => {
            let is_text = str_eq(kind.as_str(), "text");
            let run = copy_calls(&calls);
            proof {
                reveal_strlit("text");
                reveal_strlit("tool_calls");
                assert("text"@.len() == 4);
                assert("tool_calls"@.len() == 10);
            }
            match take_reply(conversation, kind.as_str(), text, calls) {
                ReplyAction::Complete(t) => (state, LoopAction::Complete { text: t, save_conversation: is_text }),
                ReplyAction::RunTools => (state, LoopAction::RunTools(run)),
                ReplyAction::Fail(error) => (state, LoopAction::Finish(AgentOutcome::Error { error })),
            }
        },
        LoopEvent::ToolResults(results) => {
            add_tool_results(conversation, results);
            let next = LoopState {
                iteration: if state.iteration < u32::MAX { state.iteration + 1 } else { state.iteration },
                max_iterations: state.max_iterations,
            };
            (next, LoopAction::NextRound)
        },
    }
}

/// What one contract check of a tool step comes to: the event that
/// records it, and a suspension for review when the contract is violated
/// (the checks stop at the first violation).
pub fn contract_outcome(contract_name: &str, step_name: &str, outcome: Result<(), String>) -> (r: (EventType, DurableResult<()>))
    ensures
        r.0 matches EventType::ContractChecked { step_name: s, contract_name: c, passed, reason } && s@ == step_name@
            && c@ == contract_name@ && passed == (outcome is Ok) && reason == match outcome {
            Ok(()) => None,
            Err(why) => Some(why),
        },
        outcome is Ok ==> r.1 is Ok,
        outcome matches Err(why) ==> (r.1 matches Err(DurableError::Suspended(SuspendReason::ContractViolation {
            contract_name: c,
            step_name: s,
            reason,
        })) && c@ == contract_name@ && s@ == step_name@ && reason == why),
{
    match outcome {
        Ok(()) => (
            EventType::ContractChecked {
                step_name: step_name.to_string(),
                contract_name: contract_name.to_string(),
                passed: true,
                reason: None,
            },
            Ok(()),
        ),
        Err(why) => (
            EventType::ContractChecked {
                step_name: step_name.to_string(),
                contract_name: contract_name.to_string(),
                passed: false,
                reason: Some(why.clone()),
            },
            Err(DurableError::Suspended(SuspendReason::ContractViolation {
                contract_name: contract_name.to_string(),
                step_name: step_name.to_string(),
                reason: why,
            })),
        ),
    }
}

/// Whether a text starts with a prefix.
pub fn starts_with(s: &str, prefix: &str) -> (r: bool)
    ensures
        r == (prefix@.len() <= s@.len() && s@.subrange(0, prefix@.len() as int) == prefix@),
{
    let n = s.unicode_len();
    let m = prefix.unicode_len();
    if m > n {
        return false;
    }
    let head = s.substring_char(0, m);
    str_eq(head, prefix)
}

/// The calls a live step counts against the budget: an LLM call for a
/// step named `llm_call` or `llm_call_...`, a tool call for `tool_...`.
pub fn step_usage(name: &str) -> (r: (u64, u64))
    ensures
        r.0 == (if name@ == "llm_call"@ || (9 <= name@.len() && name@.subrange(0, 9) == "llm_call_"@) { 1u64 } else { 0u64 }),
        r.1 == (if 5 <= name@.len() && name@.subrange(0, 5) == "tool_"@ { 1u64 } else { 0u64 }),
{
    proof {
        reveal_strlit("llm_call_");
        reveal_strlit("tool_");
    }
    let is_llm = str_eq(name, "llm_call") || starts_with(name, "llm_call_");
    let is_tool = starts_with(name, "tool_");
    (if is_llm { 1 } else { 0 }, if is_tool { 1 } else { 0 })
}

/// Mirror a step's outcome into the execution log for observability: the
/// step numbered one below the count is started, then completed with its
/// result or failed with the error's message (a suspension records only
/// the start). Failures to write are ignored.
pub fn mirror_step<S: ExecutionLog>(storage: &mut S, exec_id: ExecutionId, step_count: u64, name: &str, params_json: &str, result: &DurableResult<String>)
    requires
        old(storage).log_wf(),
    ensures
        final(storage).log_wf(),
        final(storage).log_reliable() == old(storage).log_reliable(),
        ({
            let n = if step_count > 0 { (step_count - 1) as u64 } else { 0u64 };
            let k = (exec_id, (n, name@, fnv1a_spec(params_json.spec_bytes())));
            old(storage).log_reliable() && n < u64::MAX ==> final(storage).log_steps().dom().contains(k) && match result {
                Ok(v) => final(storage).log_steps()[k].status == StepStatus::Completed && final(storage).log_steps()[k].result == Some(*v),
                Err(DurableError::Suspended(_)) => final(storage).log_steps()[k].status == StepStatus::Running,
                Err(e) => final(storage).log_steps()[k].status == StepStatus::Failed && (final(storage).log_steps()[k].error matches Some(m) && m@ == message_spec(*e)),
            }
        }),
{
    let step_number = step_count.saturating_sub(1);
    if step_number == u64::MAX {
        return;
    }
    let key = StepKey {
        execution_id: exec_id,
        step_number,
        step_name: name.to_string(),
        param_hash: hash_params(params_json),
    };
    let completion_key = key.copy();
    let ghost k = step_key_view(key);
    let started = storage.log_step_start(key);
    match result {
        Ok(v) => {
            let _ = storage.log_step_completion(&completion_key, Some(v.clone()), None, false);
        },
        Err(DurableError::Suspended(_)) => {},
        Err(e) => {
            let _ = storage.log_step_completion(&completion_key, None, Some(e.message()), false);
        },
    }
}

/// Whether a suspended execution is due to resume: its confirmation or
/// signal has arrived, or its timer is due. Other suspensions wait.
pub fn should_resume<S: ExecutionLog>(storage: &S, meta: &ExecutionMetadata, now: u64) -> (r: bool)
    requires
        storage.log_wf(),
    ensures
        storage.log_reliable() ==> r == match meta.suspend_reason {
            Some(SuspendReason::WaitingForConfirmation { confirmation_id, .. }) => storage.log_signals().dom().contains(
                (meta.id, confirmation_id@),
            ),
            Some(SuspendReason::WaitingForSignal { signal_name }) => storage.log_signals().dom().contains(
                (meta.id, signal_name@),
            ),
            Some(SuspendReason::WaitingForTimer { fire_at_millis, .. }) => now >= fire_at_millis,
            _ => false,
        },
{
    match &meta.suspend_reason {
        Some(SuspendReason::WaitingForConfirmation { confirmation_id, .. }) => {
            match storage.peek_signal(meta.id, confirmation_id.as_str()) {
                Ok(Some(_)) => true,
                _ => false,
            }
        },
        Some(SuspendReason::WaitingForSignal { signal_name }) => {
            match storage.peek_signal(meta.id, signal_name.as_str()) {
                Ok(Some(_)) => true,
                _ => false,
            }
        },
        Some(SuspendReason::WaitingForTimer { fire_at_millis, .. }) => now >= *fire_at_millis,
        _ => false,
    }
}

/// The agent a command is for: the one it names, else the one its
/// execution was run by, else the only agent registered, else `default`.
pub open spec fn resolved_agent(explicit: Option<Seq<char>>, mapped: Option<Seq<char>>, registered: Seq<Seq<char>>) -> Seq<char> {
    match explicit {
        Some(e) => e,
        None => match mapped {
            Some(m) => m,
            None => if registered.len() == 1 {
                registered[0]
            } else {
                "default"@
            },
        },
    }
}

/// The agent a command is for, among the registered ones.
pub fn resolve_agent(explicit: Option<&str>, mapped: Option<&str>, registered: &[String]) -> (r: String)
    ensures
        r@ == resolved_agent(
            match explicit {
                Some(e) => Some(e@),
                None => None,
            },
            match mapped {
                Some(m) => Some(m@),
                None => None,
            },
            registered@.map_values(|s: String| s@),
        ),
{
    match explicit {
        Some(e) => e.to_string(),
        None => match mapped {
            Some(m) => m.to_string(),
            None => if registered.len() == 1 {
                registered[0].clone()
            } else {
                "default".to_string()
            },
        },
    }
}

/// What a command does before the session is authenticated.
#[derive(Debug, Clone, PartialEq, Eq)]
pub enum AuthStep {
    /// The session is (already) authenticated: handle the command.
    Proceed,
    /// The token matched: the session is now authenticated.
    Accepted,
    /// Answer with an error and wait for the next command.
    Refused,
    /// The token did not match: answer with an error and end the session.
    Rejected,
}

/// The authentication step for a command of a type carrying a token,
/// when a token is expected.
pub fn auth_step(authenticated: bool, msg_type: &str, token: &str, expected: Option<&str>) -> (a: AuthStep)
    ensures
        authenticated ==> a == AuthStep::Proceed,
        !authenticated && msg_type@ == "auth"@ ==> a == (if (expected matches Some(e) && e@ == token@) {
            AuthStep::Accepted
        } else {
            AuthStep::Rejected
        }),
        !authenticated && msg_type@ != "auth"@ ==> a == AuthStep::Refused,
{
    if authenticated {
        return AuthStep::Proceed;
    }
    if str_eq(msg_type, "auth") {
        match expected {
            Some(e) => {
                if str_eq(e, token) {
                    AuthStep::Accepted
                } else {
                    AuthStep::Rejected
                }
            },
            None => AuthStep::Rejected,
        }
    } else {
        AuthStep::Refused
    }
}

} // verus!
