//! The execution context of one agent run: step numbering, memoised
//! steps, signals, timers and suspension.
//!
//! Values that steps take and return travel as their JSON text.

use vstd::prelude::*;
use vstd::string::StringSliceAdditionalSpecFns;
use crate::cancel::CancellationToken;
use crate::error::{message_spec, DurableError, DurableResult, SuspendReason};
use crate::hash::{fnv1a_spec, hash_params};
use crate::memory::step_key_view;
use crate::storage::ExecutionLog;
use crate::text::{dec_text, push_decimal};
use core::time::Duration;
use crate::time::{duration_millis, millis_of, now_millis};
use crate::types::{ExecutionId, ExecutionStatus, StepKey, StepRecord, StepStatus};
use crate::uuid::hyphenated;

verus! {

/// The slot of the log a step occupies: its execution, number, name and
/// the hash of its parameters' text.
pub open spec fn step_slot(id: ExecutionId, n: u64, name: Seq<char>, params: Seq<u8>) -> (
    ExecutionId,
    (u64, Seq<char>, u64),
) {
    (id, (n, name, fnv1a_spec(params)))
}

/// The log answers a step without running it: the step completed, or it
/// failed and may not be retried.
pub open spec fn log_answers(steps: Map<(ExecutionId, (u64, Seq<char>, u64)), StepRecord>, slot: (
    ExecutionId,
    (u64, Seq<char>, u64),
)) -> bool {
    &&& steps.dom().contains(slot)
    &&& (steps[slot].status == StepStatus::Completed || (steps[slot].status == StepStatus::Failed
        && !steps[slot].retryable))
}

/// The value a completed step gives back: its stored result, or `null`.
pub open spec fn cached_value(rec: StepRecord) -> Seq<char> {
    match rec.result {
        Some(v) => v@,
        None => "null"@,
    }
}

/// The message of a stored failure, or a default.
pub open spec fn failure_text(rec: StepRecord) -> Seq<char> {
    match rec.error {
        Some(e) => e@,
        None => "unknown error"@,
    }
}

/// The answer of the log for a step of execution `id` numbered `n`: the
/// cached value of a completed step, or the stored permanent failure.
pub open spec fn answer_given(rec: StepRecord, r: DurableResult<String>, name: Seq<char>, id: ExecutionId, n: u64) -> bool {
    if rec.status == StepStatus::Completed {
        r matches Ok(v) && v@ == cached_value(rec)
    } else {
        r matches Err(DurableError::StepFailed { step_name, message, retryable, execution_id, step_number })
            && step_name@ == name && message@ == failure_text(rec) && !retryable
            && (execution_id matches Some(t) && t@ == hyphenated(id.0@)) && step_number == Some(n)
    }
}

/// Whether a step's error is recorded as retryable: the flag of the
/// errors that carry one, otherwise not.
pub open spec fn outcome_retryable(e: DurableError) -> bool {
    match e {
        DurableError::StepFailed { retryable, .. } => retryable,
        DurableError::ToolError { retryable, .. } => retryable,
        DurableError::LlmError { retryable, .. } => retryable,
        _ => false,
    }
}

/// The record a finished run of a step leaves: completed with its value,
/// or failed with the error's message and whether it may be retried.
pub open spec fn outcome_recorded(rec: StepRecord, out: DurableResult<String>) -> bool {
    match out {
        Ok(v) => rec.status == StepStatus::Completed && rec.result == Some(v) && rec.error is None,
        Err(e) => rec.status == StepStatus::Failed && rec.result is None && (rec.error matches Some(
            m,
        ) && m@ == message_spec(e)) && rec.retryable == outcome_retryable(e),
    }
}

/// What one context records of a step is what a later context over the
/// same log is answered at that slot: a completed step gives back its
/// value; a permanent failure is answered, without running the step
/// again, as a failed step with the first error's message; a retryable
/// failure is not answered, so the step runs again.
pub proof fn law_recorded_outcome_answers(
    steps: Map<(ExecutionId, (u64, Seq<char>, u64)), StepRecord>,
    slot: (ExecutionId, (u64, Seq<char>, u64)),
    out: DurableResult<String>,
    r2: DurableResult<String>,
    name: Seq<char>,
    id: ExecutionId,
    n: u64,
)
    requires
        steps.dom().contains(slot),
        outcome_recorded(steps[slot], out),
    ensures
        out is Ok ==> log_answers(steps, slot),
        out matches Err(e) ==> (log_answers(steps, slot) <==> !outcome_retryable(e)),
        out is Ok && answer_given(steps[slot], r2, name, id, n) ==> (r2 matches Ok(w) && w@ == out->Ok_0@),
        out is Err && !outcome_retryable(out->Err_0) && answer_given(steps[slot], r2, name, id, n) ==> (r2 matches Err(
            DurableError::StepFailed { message, retryable, .. },
        ) && message@ == message_spec(out->Err_0) && !retryable),
{
}

/// The name of the signal that carries the input awaited at a step count.
pub open spec fn input_signal_name(n: u64) -> Seq<char> {
    "__input_"@ + dec_text(n as nat)
}

/// The name of the signal that confirms a tool call.
pub open spec fn confirmation_name(tool: Seq<char>, id: ExecutionId, n: u64) -> Seq<char> {
    "confirm_"@ + tool + "_"@ + hyphenated(id.0@) + "_"@ + dec_text(n as nat)
}

/// How a confirmation signal was answered: approved, or rejected with a
/// reason when one was given.
#[derive(Debug, Clone)]
pub enum Verdict {
    Approved,
    Rejected(Option<String>),
}

/// The execution context for a single agent run.
pub struct ExecutionContext<S: ExecutionLog> {
    pub id: ExecutionId,
    storage: S,
    step_counter: u64,
    suspend_reason: Option<SuspendReason>,
    cancel_token: CancellationToken,
}

impl<S: ExecutionLog> ExecutionContext<S> {
    /// The execution the context runs.
    pub closed spec fn ident(&self) -> ExecutionId {
        self.id
    }

    /// The storage the context writes to.
    pub closed spec fn log(&self) -> S {
        self.storage
    }

    /// The number of steps allocated so far.
    pub closed spec fn counter(&self) -> u64 {
        self.step_counter
    }

    /// The cancellation token the context observes.
    pub closed spec fn token(&self) -> CancellationToken {
        self.cancel_token
    }

    /// The suspension the context last entered, if not cleared.
    pub closed spec fn pending(&self) -> Option<SuspendReason> {
        self.suspend_reason
    }

    /// The context is usable: its storage is consistent.
    pub open spec fn wf(&self) -> bool {
        self.log().log_wf()
    }

    /// A context for a new execution, at step 0.
    pub fn new(id: ExecutionId, storage: S) -> (c: Self)
        ensures
            c.ident() == id,
            c.log() == storage,
            c.counter() == 0,
            c.pending() is None,
    {
        ExecutionContext {
            id,
            storage,
            step_counter: 0,
            suspend_reason: None,
            cancel_token: CancellationToken::new(),
        }
    }

    /// A context that observes an external cancellation token.
    pub fn with_cancel_token(id: ExecutionId, storage: S, token: CancellationToken) -> (c: Self)
        ensures
            c.token() == token,
            c.ident() == id,
            c.log() == storage,
            c.counter() == 0,
            c.pending() is None,
    {
        ExecutionContext { id, storage, step_counter: 0, suspend_reason: None, cancel_token: token }
    }

    /// A context that resumes an execution from a step count.
    pub fn resume(id: ExecutionId, storage: S, step_count: u64) -> (c: Self)
        ensures
            c.ident() == id,
            c.log() == storage,
            c.counter() == step_count,
            c.pending() is None,
    {
        ExecutionContext {
            id,
            storage,
            step_counter: step_count,
            suspend_reason: None,
            cancel_token: CancellationToken::new(),
        }
    }

    /// The cancellation token (for external cancellation).
    pub fn cancel_token(&self) -> (t: &CancellationToken)
        ensures
            *t == self.token(),
    {
        &self.cancel_token
    }

    /// The storage backend.
    pub fn storage(&self) -> (s: &S)
        ensures
            *s == self.log(),
    {
        &self.storage
    }

    /// Give the storage back, ending the context.
    pub fn into_storage(self) -> (s: S)
        ensures
            s == self.log(),
    {
        self.storage
    }

    /// Allocate the next step number (the counter wraps at its limit).
    pub fn next_step(&mut self) -> (n: u64)
        ensures
            final(self).token() == old(self).token(),
            n == old(self).counter(),
            final(self).counter() == if n == u64::MAX { 0 } else { (n + 1) as u64 },
            final(self).log() == old(self).log(),
            final(self).pending() == old(self).pending(),
            final(self).ident() == old(self).ident(),
    {
        let n = self.step_counter;
        self.step_counter = n.wrapping_add(1);
        n
    }

    /// The current step count.
    pub fn step_count(&self) -> (n: u64)
        ensures
            n == self.counter(),
    {
        self.step_counter
    }

    /// Reset the step counter for replay.
    pub fn reset_counter(&mut self)
        ensures
            final(self).token() == old(self).token(),
            final(self).counter() == 0,
            final(self).log() == old(self).log(),
            final(self).pending() == old(self).pending(),
            final(self).ident() == old(self).ident(),
    {
        self.step_counter = 0;
    }

    /// Execute a memoised step with parameters given as JSON text.
    ///
    /// A step the log has completed gives back its stored value without
    /// running `f`; a step that failed permanently gives back its failure.
    /// Otherwise the start is logged, `f` runs, and its outcome is logged
    /// (a suspension is not). Every value a step gives back is, afterwards,
    /// the value the log holds for it.
    pub fn step<F>(&mut self, name: &str, params_json: &str, f: F) -> (r: DurableResult<String>) where
        F: FnOnce() -> DurableResult<String>,

        requires
            old(self).wf(),
            old(self).counter() < u64::MAX,
            f.requires(()),
        ensures
            final(self).token() == old(self).token(),
            final(self).wf(),
            final(self).ident() == old(self).ident(),
            final(self).pending() == old(self).pending(),
            final(self).log().log_reliable() == old(self).log().log_reliable(),
            final(self).counter() == old(self).counter() ==> (r matches Err(DurableError::Cancelled))
                && final(self).log() == old(self).log(),
            final(self).counter() == old(self).counter() || final(self).counter() == old(self).counter() + 1,
            ({
                let slot = step_slot(old(self).ident(), old(self).counter(), name@, params_json.spec_bytes());
                let steps = old(self).log().log_steps();
                final(self).counter() == old(self).counter() + 1 ==> {
                    &&& log_answers(steps, slot) && old(self).log().log_reliable() ==> final(self).log()
                        == old(self).log() && answer_given(steps[slot], r, name@, old(self).ident(), old(self).counter())
                    &&& !log_answers(steps, slot) ==> (r matches Err(DurableError::Storage(_))
                        && !old(self).log().log_reliable()) || (f.ensures((), r) && ((r matches Err(
                        DurableError::Suspended(_),
                    )) || (final(self).log().log_steps().dom().contains(slot) && outcome_recorded(
                        final(self).log().log_steps()[slot],
                        r,
                    ))))
                    &&& r matches Ok(v) ==> final(self).log().log_steps().dom().contains(slot)
                        && final(self).log().log_steps()[slot].status == StepStatus::Completed
                        && cached_value(final(self).log().log_steps()[slot]) == v@
                }
            }),
    {
        if self.cancel_token.is_cancelled() {
            return Err(DurableError::Cancelled);
        }
        let step_number = self.next_step();
        let param_hash = hash_params(params_json);
        let key = StepKey {
            execution_id: self.id,
            step_number,
            step_name: name.to_string(),
            param_hash,
        };
        let ghost slot = step_key_view(key);
        assert(slot == step_slot(self.ident(), step_number, name@, params_json.spec_bytes()));
        match self.storage.get_step(&key) {
            Ok(Some(record)) => {
                match record.status {
                    StepStatus::Completed => {
                        return match record.result {
                            Some(v) => Ok(v),
                            None => Ok("null".to_string()),
                        };
                    },
                    StepStatus::Failed => {
                        if !record.retryable {
                            let message = match record.error {
                                Some(e) => e,
                                None => "unknown error".to_string(),
                            };
                            return Err(
                                DurableError::StepFailed {
                                    step_name: name.to_string(),
                                    message,
                                    retryable: false,
                                    execution_id: Some(self.id.to_text()),
                                    step_number: Some(step_number),
                                },
                            );
                        }
                    },
                    _ => {},
                }
            },
            _ => {},
        }
        let key_for_completion = key.copy();
        match self.storage.log_step_start(key) {
            Ok(_) => {},
            Err(e) => {
                let mut m = "failed to log step start: ".to_string();
                m.push_str(e.as_str());
                return Err(DurableError::Storage(m));
            },
        }
        let out = f();
        match out {
            Ok(result) => {
                let stored = result.clone();
                match self.storage.log_step_completion(&key_for_completion, Some(stored), None, false) {
                    Ok(()) => Ok(result),
                    Err(e) => {
                        let mut m = "failed to log step completion: ".to_string();
                        m.push_str(e.as_str());
                        Err(DurableError::Storage(m))
                    },
                }
            },
            Err(err) => {
                let retryable = match &err {
                    DurableError::Suspended(_) => {
                        return Err(err);
                    },
                    DurableError::StepFailed { retryable, .. } => *retryable,
                    DurableError::ToolError { retryable, .. } => *retryable,
                    DurableError::LlmError { retryable, .. } => *retryable,
                    _ => false,
                };
                let err_msg = err.message();
                match self.storage.log_step_completion(&key_for_completion, None, Some(err_msg), retryable) {
                    Ok(()) => Err(err),
                    Err(e) => {
                        let mut m = "failed to log step failure: ".to_string();
                        m.push_str(e.as_str());
                        Err(DurableError::Storage(m))
                    },
                }
            },
        }
    }

    /// The context's own record of a suspension and the stored execution
    /// agree on a reason, and the execution is suspended.
    pub open spec fn suspended_on(&self, reason: SuspendReason) -> bool {
        &&& self.pending() == Some(reason)
        &&& self.log().log_executions().dom().contains(self.ident())
        &&& self.log().log_executions()[self.ident()].suspend_reason == Some(reason)
        &&& self.log().log_executions()[self.ident()].status == ExecutionStatus::Suspended
    }

    /// Record a suspension in the context and in the stored execution.
    fn enter_suspension(&mut self, reason: SuspendReason) -> (r: DurableResult<()>)
        requires
            old(self).wf(),
        ensures
            final(self).token() == old(self).token(),
            final(self).wf(),
            final(self).ident() == old(self).ident(),
            final(self).counter() == old(self).counter(),
            final(self).pending() == Some(reason),
            final(self).log().log_reliable() == old(self).log().log_reliable(),
            final(self).log().log_steps() == old(self).log().log_steps(),
            final(self).log().log_signals() == old(self).log().log_signals(),
            final(self).log().log_timers() == old(self).log().log_timers(),
            old(self).log().log_reliable() && old(self).log().log_executions().dom().contains(old(self).ident())
                ==> r is Ok,
            r is Ok ==> final(self).suspended_on(reason),
            r matches Err(e) ==> e is Storage,
    {
        self.suspend_reason = Some(reason.copy());
        match self.storage.set_suspend_reason(self.id, Some(reason.copy())) {
            Ok(()) => {},
            Err(e) => return Err(DurableError::Storage(e)),
        }
        match self.storage.update_execution_status(self.id, ExecutionStatus::Suspended) {
            Ok(()) => Ok(()),
            Err(e) => Err(DurableError::Storage(e)),
        }
    }

    /// What waiting for a signal does, from the context `self` to `after`
    /// with the result `r`: the signal's data when it has arrived (it is
    /// consumed), otherwise a suspension waiting for it.
    pub open spec fn waited_for_signal(self, after: Self, name: Seq<char>, r: DurableResult<String>) -> bool {
        &&& after.token() == self.token()
        &&& after.wf()
        &&& after.ident() == self.ident()
        &&& after.counter() == self.counter()
        &&& after.log().log_reliable() == self.log().log_reliable()
        &&& after.log().log_steps() == self.log().log_steps()
        &&& after.log().log_timers() == self.log().log_timers()
        &&& ({
            let key = (self.ident(), name);
            let signals = self.log().log_signals();
            &&& r matches Ok(d) ==> signals.dom().contains(key) && d == signals[key]
                && after.log().log_signals() == signals.remove(key)
            &&& r matches Err(DurableError::Suspended(reason)) ==> !signals.dom().contains(key)
                && (reason matches SuspendReason::WaitingForSignal { signal_name: n } && n@ == name)
                && after.suspended_on(reason)
            &&& r is Err ==> (r matches Err(DurableError::Suspended(_))) || (r matches Err(DurableError::Storage(_))
                && !(self.log().log_reliable() && self.log().log_executions().dom().contains(self.ident())))
            &&& self.log().log_reliable() && signals.dom().contains(key) ==> r is Ok
            &&& self.log().log_reliable() && !signals.dom().contains(key)
                && self.log().log_executions().dom().contains(self.ident())
                ==> (r matches Err(DurableError::Suspended(_)))
        })
    }

    /// Wait for an external signal: give back its data (JSON text) if it
    /// has arrived, consuming it; otherwise suspend the execution.
    pub fn await_signal(&mut self, signal_name: &str) -> (r: DurableResult<String>)
        requires
            old(self).wf(),
        ensures
            final(self).token() == old(self).token(),
            old(self).waited_for_signal(*final(self), signal_name@, r),
    {
        match self.storage.peek_signal(self.id, signal_name) {
            Ok(Some(_)) => {
                match self.storage.consume_signal(self.id, signal_name) {
                    Ok(Some(data)) => Ok(data),
                    Ok(None) => {
                        // Peeked a moment ago; a consistent backend has it.
                        Err(DurableError::Storage("signal vanished before it was consumed".to_string()))
                    },
                    Err(e) => Err(DurableError::Storage(e)),
                }
            },
            Ok(None) => {
                let reason = SuspendReason::WaitingForSignal { signal_name: signal_name.to_string() };
                match self.enter_suspension(reason.copy()) {
                    Ok(()) => Err(DurableError::Suspended(reason)),
                    Err(e) => Err(e),
                }
            },
            Err(e) => Err(DurableError::Storage(e)),
        }
    }

    /// Wait for user input: the same as waiting for the signal named
    /// after the current step count (the prompt does not change the outcome).
    pub fn await_input(&mut self, prompt: &str) -> (r: DurableResult<String>)
        requires
            old(self).wf(),
        ensures
            final(self).token() == old(self).token(),
            old(self).waited_for_signal(*final(self), input_signal_name(old(self).counter()), r),
    {
        let mut name = "__input_".to_string();
        push_decimal(&mut name, self.step_counter);
        proof {
            assert(name@ =~= input_signal_name(self.counter()));
        }
        self.await_signal(name.as_str())
    }

    /// Register a durable timer `duration` from now and suspend until it
    /// fires. The fire time wraps at the 64-bit limit.
    pub fn schedule_timer(&mut self, name: &str, duration: Duration) -> (r: DurableResult<()>)
        requires
            old(self).wf(),
        ensures
            final(self).token() == old(self).token(),
            final(self).wf(),
            final(self).ident() == old(self).ident(),
            final(self).counter() == old(self).counter(),
            final(self).log().log_reliable() == old(self).log().log_reliable(),
            final(self).log().log_steps() == old(self).log().log_steps(),
            final(self).log().log_signals() == old(self).log().log_signals(),
            r is Err,
            r matches Err(DurableError::Suspended(reason)) ==> (reason matches SuspendReason::WaitingForTimer {
                fire_at_millis,
                timer_name,
            } && timer_name@ == name@ && (exists|t: u64| fire_at_millis == #[trigger] timer_fire_at(t, duration)) && final(self).log().log_timers() == old(self).log().log_timers().insert(
                (old(self).ident(), name@),
                fire_at_millis,
            )) && final(self).suspended_on(reason),
            old(self).log().log_reliable() && old(self).log().log_executions().dom().contains(old(self).ident())
                ==> (r matches Err(DurableError::Suspended(_))),
            r matches Err(e) ==> e is Suspended || e is Storage,
    {
        let now = now_millis();
        let r = self.schedule_timer_at(name, duration, now);
        proof {
            if let Err(DurableError::Suspended(SuspendReason::WaitingForTimer { fire_at_millis, .. })) = r {
                assert(fire_at_millis == timer_fire_at(now, duration));
            }
        }
        r
    }

    /// Register a durable timer `duration` after the clock reading `now`
    /// and suspend until it fires. The fire time wraps at the 64-bit limit.
    pub fn schedule_timer_at(&mut self, name: &str, duration: Duration, now: u64) -> (r: DurableResult<()>)
        requires
            old(self).wf(),
        ensures
            final(self).token() == old(self).token(),
            final(self).wf(),
            final(self).ident() == old(self).ident(),
            final(self).counter() == old(self).counter(),
            final(self).log().log_reliable() == old(self).log().log_reliable(),
            final(self).log().log_steps() == old(self).log().log_steps(),
            final(self).log().log_signals() == old(self).log().log_signals(),
            r is Err,
            r matches Err(DurableError::Suspended(reason)) ==> (reason matches SuspendReason::WaitingForTimer {
                fire_at_millis,
                timer_name,
            } && timer_name@ == name@ && fire_at_millis == timer_fire_at(now, duration) && final(self).log().log_timers() == old(self).log().log_timers().insert(
                (old(self).ident(), name@),
                fire_at_millis,
            )) && final(self).suspended_on(reason),
            old(self).log().log_reliable() && old(self).log().log_executions().dom().contains(old(self).ident())
                ==> (r matches Err(DurableError::Suspended(_))),
            r matches Err(e) ==> e is Suspended || e is Storage,
    {
        let ms = millis_of(&duration);
        #[verifier::truncate]
        let span = ms as u64;
        let fire_at = now.wrapping_add(span);
        proof {
            assert(span == ms % 0x1_0000_0000_0000_0000) by (bit_vector)
                requires
                    span == ms as u64,
            ;
            vstd::arithmetic::div_mod::lemma_add_mod_noop_right(now as int, ms as int, 0x1_0000_0000_0000_0000);
            assert(now as int % 0x1_0000_0000_0000_0000 == now);
            assert(fire_at == timer_fire_at(now, duration));
        }
        match self.storage.create_timer(self.id, name, fire_at) {
            Ok(()) => {},
            Err(e) => return Err(DurableError::Storage(e)),
        }
        let reason = SuspendReason::WaitingForTimer { fire_at_millis: fire_at, timer_name: name.to_string() };
        match self.enter_suspension(reason.copy()) {
            Ok(()) => Err(DurableError::Suspended(reason)),
            Err(e) => Err(e),
        }
    }

    /// Ask for human confirmation of a tool call (its arguments as JSON
    /// text). If the confirmation signal has arrived it is consumed and
    /// `judge` reads its JSON payload: approval gives `true`, anything
    /// else a rejection (with the payload's reason, or a default).
    /// Otherwise the execution suspends until it arrives.
    pub fn request_confirmation<J>(&mut self, tool_name: &str, arguments_json: &str, judge: J) -> (r:
        DurableResult<bool>) where J: FnOnce(String) -> DurableResult<Verdict>,

        requires
            old(self).wf(),
            forall|d: String| judge.requires((d,)),
        ensures
            final(self).token() == old(self).token(),
            final(self).wf(),
            final(self).ident() == old(self).ident(),
            final(self).counter() == old(self).counter(),
            final(self).log().log_reliable() == old(self).log().log_reliable(),
            final(self).log().log_steps() == old(self).log().log_steps(),
            final(self).log().log_timers() == old(self).log().log_timers(),
            ({
                let key = (old(self).ident(), confirmation_name(tool_name@, old(self).ident(), old(self).counter()));
                let signals = old(self).log().log_signals();
                &&& !signals.dom().contains(key) ==> (r matches Err(DurableError::Suspended(reason))
                    ==> (reason matches SuspendReason::WaitingForConfirmation { tool_name: t, arguments, confirmation_id }
                        && t@ == tool_name@ && arguments@ == arguments_json@ && confirmation_id@ == key.1)
                    && final(self).suspended_on(reason))
                &&& old(self).log().log_reliable() && signals.dom().contains(key) ==> final(self).log().log_signals()
                    == signals.remove(key) && exists|v: DurableResult<Verdict>| judge.ensures((signals[key],), v)
                    && verdict_answer(tool_name@, v, r)
                &&& r matches Ok(b) ==> b && signals.dom().contains(key)
                &&& old(self).log().log_reliable() && !signals.dom().contains(key)
                    && old(self).log().log_executions().dom().contains(old(self).ident())
                    ==> (r matches Err(DurableError::Suspended(_)))
            }),
    {
        let mut confirmation_id = "confirm_".to_string();
        confirmation_id.push_str(tool_name);
        confirmation_id.push_str("_");
        let id_text = self.id.to_text();
        confirmation_id.push_str(id_text.as_str());
        confirmation_id.push_str("_");
        push_decimal(&mut confirmation_id, self.step_counter);
        match self.storage.peek_signal(self.id, confirmation_id.as_str()) {
            Ok(Some(_)) => {
                match self.storage.consume_signal(self.id, confirmation_id.as_str()) {
                    Ok(Some(data)) => {
                        let v = judge(data);
                        confirmation_result(tool_name, v)
                    },
                    Ok(None) => Err(DurableError::Storage("signal vanished before it was consumed".to_string())),
                    Err(e) => Err(DurableError::Storage(e)),
                }
            },
            Ok(None) => {
                let reason = SuspendReason::WaitingForConfirmation {
                    tool_name: tool_name.to_string(),
                    arguments: arguments_json.to_string(),
                    confirmation_id,
                };
                match self.enter_suspension(reason.copy()) {
                    Ok(()) => Err(DurableError::Suspended(reason)),
                    Err(e) => Err(e),
                }
            },
            Err(e) => Err(DurableError::Storage(e)),
        }
    }

    /// The current suspension, if any.
    pub fn suspend_reason(&self) -> (r: Option<SuspendReason>)
        ensures
            r == self.pending(),
    {
        match &self.suspend_reason {
            Some(reason) => Some(reason.copy()),
            None => None,
        }
    }

    /// Clear the suspension (on resume): the execution runs again.
    pub fn clear_suspension(&mut self) -> (r: DurableResult<()>)
        requires
            old(self).wf(),
        ensures
            !old(self).log().log_executions().dom().contains(old(self).ident()) ==> r is Err,
            final(self).log().log_executions().dom() == old(self).log().log_executions().dom(),
            final(self).token() == old(self).token(),
            final(self).wf(),
            final(self).ident() == old(self).ident(),
            final(self).counter() == old(self).counter(),
            final(self).pending() is None,
            final(self).log().log_reliable() == old(self).log().log_reliable(),
            final(self).log().log_steps() == old(self).log().log_steps(),
            final(self).log().log_signals() == old(self).log().log_signals(),
            final(self).log().log_timers() == old(self).log().log_timers(),
            old(self).log().log_reliable() && old(self).log().log_executions().dom().contains(old(self).ident())
                ==> r is Ok,
            r is Ok ==> final(self).log().log_executions().dom().contains(old(self).ident())
                && final(self).log().log_executions()[old(self).ident()].suspend_reason is None
                && final(self).log().log_executions()[old(self).ident()].status == ExecutionStatus::Running,
            r matches Err(e) ==> e is Storage,
    {
        self.suspend_reason = None;
        match self.storage.set_suspend_reason(self.id, None) {
            Ok(()) => {},
            Err(e) => return Err(DurableError::Storage(e)),
        }
        match self.storage.update_execution_status(self.id, ExecutionStatus::Running) {
            Ok(()) => Ok(()),
            Err(e) => Err(DurableError::Storage(e)),
        }
    }
}

/// The fire time of a timer set `d` after the clock reading `now`: the
/// sum of the reading and the duration's whole milliseconds, wrapped at
/// the 64-bit limit.
pub open spec fn timer_fire_at(now: u64, d: Duration) -> u64 {
    ((now as int + duration_millis(d)) % 0x1_0000_0000_0000_0000) as u64
}

/// What a confirmation answers for a verdict on its payload: `true` when
/// approved; a rejection of the tool, with the given reason or a default,
/// when rejected; the error when the payload could not be read.
pub open spec fn verdict_answer(tool: Seq<char>, v: DurableResult<Verdict>, r: DurableResult<bool>) -> bool {
    match v {
        Ok(Verdict::Approved) => r == Ok::<bool, DurableError>(true),
        Ok(Verdict::Rejected(reason)) => r matches Err(DurableError::Rejected { tool_name, reason: why })
            && tool_name@ == tool && why@ == (match reason {
            Some(t) => t@,
            None => "rejected by human"@,
        }),
        Err(e) => r == Err::<bool, DurableError>(e),
    }
}

/// The answer to a confirmation for a verdict on its payload.
pub fn confirmation_result(tool_name: &str, v: DurableResult<Verdict>) -> (r: DurableResult<bool>)
    ensures
        verdict_answer(tool_name@, v, r),
{
    match v {
        Ok(Verdict::Approved) => Ok(true),
        Ok(Verdict::Rejected(reason)) => {
            let why = match reason {
                Some(t) => t,
                None => "rejected by human".to_string(),
            };
            Err(DurableError::Rejected { tool_name: tool_name.to_string(), reason: why })
        },
        Err(e) => Err(e),
    }
}

} // verus!
