use lib::cancel::CancellationToken;
use lib::context::{confirmation_result, ExecutionContext, Verdict};
use lib::error::{DurableError, SuspendReason};
use lib::memory::InMemoryStorage;
use lib::types::{ExecutionId, ExecutionStatus, StepStatus};
use std::time::Duration;

fn context() -> (ExecutionId, ExecutionContext<InMemoryStorage>) {
    let id = ExecutionId::new();
    let mut storage = InMemoryStorage::new();
    storage.create_execution(id).unwrap();
    (id, ExecutionContext::new(id, storage))
}

#[test]
fn step_runs_once_and_replays_from_the_log() {
    let (id, mut ctx) = context();
    let r = ctx.step("fetch", "{\"q\":1}", || Ok("{\"answer\":42}".to_string()));
    assert_eq!(r.unwrap(), "{\"answer\":42}");
    assert_eq!(ctx.step_count(), 1);
    // Replay: a fresh context over the same log at step 0.
    let storage = ctx.into_storage();
    let mut replay = ExecutionContext::resume(id, storage, 0);
    let r2 = replay.step("fetch", "{\"q\":1}", || panic!("must not run on replay"));
    assert_eq!(r2.unwrap(), "{\"answer\":42}");
}

#[test]
fn step_with_other_params_runs_again() {
    let (id, mut ctx) = context();
    ctx.step("fetch", "{\"q\":1}", || Ok("1".to_string())).unwrap();
    let storage = ctx.into_storage();
    let mut replay = ExecutionContext::resume(id, storage, 0);
    let r = replay.step("fetch", "{\"q\":2}", || Ok("2".to_string()));
    assert_eq!(r.unwrap(), "2");
}

#[test]
fn permanent_failure_is_replayed() {
    let (id, mut ctx) = context();
    let r = ctx.step("boom", "null", || {
        Err(DurableError::ToolError { tool_name: "t".to_string(), message: "bad".to_string(), retryable: false })
    });
    assert!(matches!(r, Err(DurableError::ToolError { .. })));
    let record = ctx.storage().get_step_by_number(id, 0).unwrap().unwrap();
    assert_eq!(record.status, StepStatus::Failed);
    assert_eq!(record.error.as_deref(), Some("tool 't' error: bad"));
    let storage = ctx.into_storage();
    let mut replay = ExecutionContext::resume(id, storage, 0);
    match replay.step("boom", "null", || Ok("x".to_string())) {
        Err(DurableError::StepFailed { step_name, message, retryable, step_number, execution_id }) => {
            assert_eq!(step_name, "boom");
            assert_eq!(message, "tool 't' error: bad");
            assert!(!retryable);
            assert_eq!(step_number, Some(0));
            assert_eq!(execution_id, Some(id.to_text()));
        }
        other => panic!("unexpected {:?}", other),
    }
}

#[test]
fn retryable_failure_runs_again() {
    let (id, mut ctx) = context();
    let _ = ctx.step("flaky", "null", || Err(DurableError::LlmError { message: "busy".to_string(), retryable: true }));
    let storage = ctx.into_storage();
    let mut replay = ExecutionContext::resume(id, storage, 0);
    assert_eq!(replay.step("flaky", "null", || Ok("ok".to_string())).unwrap(), "ok");
}

#[test]
fn cancelled_context_does_not_run_steps() {
    let (_, mut ctx) = context();
    ctx.cancel_token().cancel();
    let r = ctx.step("x", "null", || panic!("cancelled"));
    assert!(matches!(r, Err(DurableError::Cancelled)));
    assert_eq!(ctx.step_count(), 0);
}

#[test]
fn await_signal_suspends_then_delivers() {
    let (id, mut ctx) = context();
    match ctx.await_signal("approval") {
        Err(DurableError::Suspended(SuspendReason::WaitingForSignal { signal_name })) => assert_eq!(signal_name, "approval"),
        other => panic!("unexpected {:?}", other),
    }
    assert!(ctx.suspend_reason().is_some());
    let meta = ctx.storage().get_execution(id).unwrap().unwrap();
    assert_eq!(meta.status, ExecutionStatus::Suspended);
    let mut storage = ctx.into_storage();
    storage.store_signal(id, "approval", "{\"ok\":true}").unwrap();
    let mut ctx = ExecutionContext::resume(id, storage, 0);
    assert_eq!(ctx.await_signal("approval").unwrap(), "{\"ok\":true}");
    // Consumed: a second wait suspends again.
    assert!(matches!(ctx.await_signal("approval"), Err(DurableError::Suspended(_))));
    ctx.clear_suspension().unwrap();
    assert!(ctx.suspend_reason().is_none());
    let meta = ctx.storage().get_execution(id).unwrap().unwrap();
    assert_eq!(meta.status, ExecutionStatus::Running);
}

#[test]
fn await_input_uses_the_step_count() {
    let (id, mut ctx) = context();
    match ctx.await_input("name?") {
        Err(DurableError::Suspended(SuspendReason::WaitingForSignal { signal_name })) => assert_eq!(signal_name, "__input_0"),
        other => panic!("unexpected {:?}", other),
    }
    let mut storage = ctx.into_storage();
    storage.store_signal(id, "__input_0", "\"Ada\"").unwrap();
    let mut ctx = ExecutionContext::resume(id, storage, 0);
    assert_eq!(ctx.await_input("name?").unwrap(), "\"Ada\"");
}

#[test]
fn schedule_timer_registers_and_suspends() {
    let (id, mut ctx) = context();
    match ctx.schedule_timer("wake", Duration::from_millis(500)) {
        Err(DurableError::Suspended(SuspendReason::WaitingForTimer { fire_at_millis, timer_name })) => {
            assert_eq!(timer_name, "wake");
            assert!(fire_at_millis >= 500);
        }
        other => panic!("unexpected {:?}", other),
    }
    let meta = ctx.storage().get_execution(id).unwrap().unwrap();
    assert_eq!(meta.status, ExecutionStatus::Suspended);
}

#[test]
fn confirmation_flow() {
    let (id, mut ctx) = context();
    let expected = format!("confirm_deploy_{}_0", id.to_text());
    match ctx.request_confirmation("deploy", "{\"env\":\"prod\"}", |_| Ok(Verdict::Approved)) {
        Err(DurableError::Suspended(SuspendReason::WaitingForConfirmation { tool_name, arguments, confirmation_id })) => {
            assert_eq!(tool_name, "deploy");
            assert_eq!(arguments, "{\"env\":\"prod\"}");
            assert_eq!(confirmation_id, expected);
        }
        other => panic!("unexpected {:?}", other),
    }
    let mut storage = ctx.into_storage();
    storage.store_signal(id, &expected, "true").unwrap();
    let mut ctx = ExecutionContext::resume(id, storage, 0);
    let r = ctx.request_confirmation("deploy", "{}", |data| {
        assert_eq!(data, "true");
        Ok(Verdict::Approved)
    });
    assert!(r.unwrap());
}

#[test]
fn confirmation_rejections() {
    match confirmation_result("rm", Ok(Verdict::Rejected(None))) {
        Err(DurableError::Rejected { tool_name, reason }) => {
            assert_eq!(tool_name, "rm");
            assert_eq!(reason, "rejected by human");
        }
        other => panic!("unexpected {:?}", other),
    }
    match confirmation_result("rm", Ok(Verdict::Rejected(Some("too risky".to_string())))) {
        Err(DurableError::Rejected { reason, .. }) => assert_eq!(reason, "too risky"),
        other => panic!("unexpected {:?}", other),
    }
    assert!(matches!(confirmation_result("rm", Err(DurableError::Serialization("x".to_string()))), Err(DurableError::Serialization(_))));
}

#[test]
fn step_counter_and_reset() {
    let (_, mut ctx) = context();
    assert_eq!(ctx.next_step(), 0);
    assert_eq!(ctx.next_step(), 1);
    assert_eq!(ctx.step_count(), 2);
    ctx.reset_counter();
    assert_eq!(ctx.step_count(), 0);
}

#[test]
fn context_observes_the_token_it_was_given() {
    let token = CancellationToken::new();
    assert!(!token.is_cancelled());
    let id = ExecutionId::new();
    let ctx = ExecutionContext::with_cancel_token(id, InMemoryStorage::new(), token.clone());
    assert!(!ctx.cancel_token().is_cancelled());
    token.cancel();
    assert!(ctx.cancel_token().is_cancelled());
    assert!(ctx.storage().get_step_by_number(id, 0).unwrap().is_none());
}

#[test]
fn a_later_context_is_answered_from_the_record() {
    let id = ExecutionId::new();
    let mut storage = InMemoryStorage::new();
    storage.create_execution(id).unwrap();
    let mut c1 = ExecutionContext::new(id, storage);
    let r = c1.step("charge", "{}", || Err(DurableError::InvalidState("card declined".to_string())));
    assert!(matches!(r, Err(DurableError::InvalidState(_))));
    let mut c2 = ExecutionContext::new(id, c1.into_storage());
    let mut ran = false;
    let r = c2.step("charge", "{}", || {
        ran = true;
        Ok("1".to_string())
    });
    match r {
        Err(DurableError::StepFailed { message, retryable, .. }) => {
            assert_eq!(message, "invalid state: card declined");
            assert!(!retryable);
        }
        other => panic!("unexpected {:?}", other),
    }
    assert!(!ran);
}
