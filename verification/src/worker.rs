//! The background worker's settings and decisions: timers that are due
//! fire as signals, and a suspended execution is resumed once the signal
//! it waits for has arrived.

use vstd::prelude::*;
use core::time::Duration;
use crate::agent::input_signal;
use crate::error::SuspendReason;
use crate::memory::due_listed;
use crate::storage::ExecutionLog;
use crate::time::{duration_from_secs, duration_millis};
use crate::types::{ExecutionId, ExecutionMetadata};
use crate::uuid::hyphenated;

verus! {

/// Worker configuration.
#[derive(Clone, Copy, Debug)]
pub struct WorkerConfig {
    /// How often to poll for work.
    pub poll_interval: Duration,
    /// Maximum concurrent executions (backpressure).
    pub max_concurrent: usize,
    /// Graceful shutdown timeout.
    pub shutdown_timeout: Duration,
}

impl Default for WorkerConfig {
    /// Poll every second, at most 4 executions at once, 30 seconds to
    /// shut down.
    fn default() -> (c: Self)
        ensures
            duration_millis(c.poll_interval) == 1000,
            c.max_concurrent == 4,
            duration_millis(c.shutdown_timeout) == 30000,
    {
        WorkerConfig {
            poll_interval: duration_from_secs(1),
            max_concurrent: 4,
            shutdown_timeout: duration_from_secs(30),
        }
    }
}

/// The signal whose arrival lets the worker resume an execution
/// suspended for a reason: the awaited signal, the confirmation, the
/// user's input, the timer (fired as a signal of its name) or the child's
/// completion. Contract violations, exhausted budgets and shutdowns wait
/// for a person.
pub open spec fn awaited_signal(reason: Option<SuspendReason>) -> Option<Seq<char>> {
    match reason {
        Some(SuspendReason::WaitingForSignal { signal_name }) => Some(signal_name@),
        Some(SuspendReason::WaitingForConfirmation { confirmation_id, .. }) => Some(confirmation_id@),
        Some(SuspendReason::WaitingForInput { .. }) => Some("__user_input"@),
        Some(SuspendReason::WaitingForTimer { timer_name, .. }) => Some(timer_name@),
        Some(SuspendReason::WaitingForChild { child_id }) => Some("__child_"@ + hyphenated(child_id.0@)),
        _ => None,
    }
}

/// The name of the signal that resumes an execution suspended for a
/// reason, if one does.
pub fn awaited_signal_name(reason: &Option<SuspendReason>) -> (r: Option<String>)
    ensures
        match awaited_signal(*reason) {
            Some(n) => r matches Some(x) && x@ == n,
            None => r is None,
        },
{
    match reason {
        Some(SuspendReason::WaitingForSignal { signal_name }) => Some(signal_name.clone()),
        Some(SuspendReason::WaitingForConfirmation { confirmation_id, .. }) => Some(confirmation_id.clone()),
        Some(SuspendReason::WaitingForInput { .. }) => Some("__user_input".to_string()),
        Some(SuspendReason::WaitingForTimer { timer_name, .. }) => Some(timer_name.clone()),
        Some(SuspendReason::WaitingForChild { child_id }) => {
            let mut n = "__child_".to_string();
            n.push_str(child_id.to_text().as_str());
            Some(n)
        },
        _ => None,
    }
}

/// Whether the worker resumes a suspended execution: the signal it waits
/// for is stored (a failed read counts as not yet).
pub fn worker_should_resume<S: ExecutionLog>(storage: &S, meta: &ExecutionMetadata) -> (r: bool)
    requires
        storage.log_wf(),
    ensures
        r ==> awaited_signal(meta.suspend_reason) is Some
            && storage.log_signals().dom().contains((meta.id, awaited_signal(meta.suspend_reason)->0)),
        storage.log_reliable() ==> (r <==> (awaited_signal(meta.suspend_reason) is Some
            && storage.log_signals().dom().contains((meta.id, awaited_signal(meta.suspend_reason)->0)))),
{
    match awaited_signal_name(&meta.suspend_reason) {
        Some(name) => match storage.peek_signal(meta.id, name.as_str()) {
            Ok(Some(_)) => true,
            _ => false,
        },
        None => false,
    }
}

/// An execution suspended for a confirmation, a signal, the user's input
/// or a timer is resumed by the worker exactly when the signal it names
/// is stored: the confirmation's id, the signal's name, the signal under
/// which user input is stored, or the timer's name (a due timer fires as
/// a signal of its name). So an approved confirmation, a delivered signal
/// or input, or a fired timer is never left waiting. A child's
/// completion comes as the signal `__child_` followed by the child's id.
/// An execution held for a person (a contract violation, an exhausted
/// budget, a shutdown) is never resumed by the worker.
pub proof fn law_worker_resumes_on_named_signal(
    reason: SuspendReason,
    id: ExecutionId,
    signals: Map<(ExecutionId, Seq<char>), String>,
)
    ensures
        ({
            let worker_resumes = awaited_signal(Some(reason)) is Some && signals.dom().contains(
                (id, awaited_signal(Some(reason))->0),
            );
            &&& reason matches SuspendReason::WaitingForConfirmation { confirmation_id, .. } ==> (worker_resumes
                <==> signals.dom().contains((id, confirmation_id@)))
            &&& reason matches SuspendReason::WaitingForSignal { signal_name } ==> (worker_resumes
                <==> signals.dom().contains((id, signal_name@)))
            &&& reason is WaitingForInput ==> (worker_resumes <==> signals.dom().contains(
                (id, input_signal(Some(reason))),
            ))
            &&& reason matches SuspendReason::WaitingForTimer { timer_name, .. } ==> (worker_resumes
                <==> signals.dom().contains((id, timer_name@)))
            &&& reason matches SuspendReason::WaitingForChild { child_id } ==> (worker_resumes
                <==> signals.dom().contains((id, "__child_"@ + hyphenated(child_id.0@))))
            &&& (reason is ContractViolation || reason is BudgetExhausted || reason is GracefulShutdown) ==> !worker_resumes
        }),
{
}

/// Fire the timers that are due: each becomes a signal of its name with
/// data `true`, and the timer is removed (failures are ignored). Gives
/// the timers found due.
pub fn fire_expired_timers<S: ExecutionLog>(storage: &mut S) -> (fired: Vec<(ExecutionId, String, u64)>)
    requires
        old(storage).log_wf(),
    ensures
        final(storage).log_wf(),
        final(storage).log_reliable() == old(storage).log_reliable(),
        final(storage).log_executions() == old(storage).log_executions(),
        final(storage).log_steps() == old(storage).log_steps(),
        old(storage).log_reliable() ==> exists|now: u64| #[trigger] due_listed(old(storage).log_timers(), fired@, now),
        old(storage).log_reliable() ==> forall|i: int| 0 <= i < fired@.len() ==> {
            &&& !final(storage).log_timers().dom().contains((#[trigger] fired@[i].0, fired@[i].1@))
            &&& final(storage).log_signals().dom().contains((fired@[i].0, fired@[i].1@))
            &&& final(storage).log_signals()[(fired@[i].0, fired@[i].1@)]@ == "true"@
        },
{
    let expired = match storage.get_expired_timers() {
        Ok(v) => v,
        Err(_) => return Vec::new(),
    };
    let ghost start = *storage;
    let mut i: usize = 0;
    while i < expired.len()
        invariant
            i <= expired@.len(),
            storage.log_wf(),
            storage.log_reliable() == start.log_reliable(),
            storage.log_executions() == start.log_executions(),
            storage.log_steps() == start.log_steps(),
            start.log_reliable() ==> forall|j: int| 0 <= j < i ==> {
                &&& !storage.log_timers().dom().contains((#[trigger] expired@[j].0, expired@[j].1@))
                &&& storage.log_signals().dom().contains((expired@[j].0, expired@[j].1@))
                &&& storage.log_signals()[(expired@[j].0, expired@[j].1@)]@ == "true"@
            },
        decreases expired@.len() - i,
    {
        let id = expired[i].0;
        let name = expired[i].1.as_str();
        let ghost before = *storage;
        let _ = storage.delete_timer(id, name);
        let _ = storage.store_signal(id, name, "true");
        proof {
            if start.log_reliable() {
                assert forall|j: int| 0 <= j < i + 1 implies {
                    &&& !storage.log_timers().dom().contains((#[trigger] expired@[j].0, expired@[j].1@))
                    &&& storage.log_signals().dom().contains((expired@[j].0, expired@[j].1@))
                    &&& storage.log_signals()[(expired@[j].0, expired@[j].1@)]@ == "true"@
                } by {
                    if j < i {
                        assert(before.log_signals().dom().contains((expired@[j].0, expired@[j].1@)));
                    }
                }
            }
        }
        i += 1;
    }
    expired
}

} // verus!
