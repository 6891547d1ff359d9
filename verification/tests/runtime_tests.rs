use lib::agent::{auth_step, call_budget_check, compensation_status, error_plan, mirror_step, reply_action, should_resume, step_usage, transition_status, wall_time_check, AuthStep, ErrorAction, ErrorPlan, ReplyAction};
use lib::engine::{RetryMode, StepExecutor};
use lib::error::{DurableError, SuspendReason};
use lib::journal::JournalOp;
use lib::jsontext::{object_of, push_quoted, set_member, ParseError};
use lib::log::{log_line, LogLevel, Logger, NullLogger, StderrJsonLogger};
use lib::memory::InMemoryStorage;
use lib::response::AgentOutcome;
use lib::types::{ExecutionId, ExecutionStatus, StepStatus};
use lib::worker::{awaited_signal_name, fire_expired_timers, worker_should_resume};

#[test]
fn log_levels_and_loggers() {
    assert_eq!(LogLevel::Warn.as_str(), "WARN");
    let l = StderrJsonLogger::new(LogLevel::Info);
    assert!(l.is_enabled(LogLevel::Error));
    assert!(!l.is_enabled(LogLevel::Debug));
    assert_eq!(l.min_level(), LogLevel::Info);
    assert_eq!(StderrJsonLogger::default().min_level(), LogLevel::Info);
    assert!(!NullLogger.is_enabled(LogLevel::Warn));
    l.log(LogLevel::Info, &[("k", "v")], "written to stderr");
}

#[test]
fn log_lines_are_sorted_objects() {
    let line = log_line("T", LogLevel::Info, &[("execution_id", "e1"), ("msg", "override")], "hello");
    assert_eq!(line, "{\"execution_id\":\"e1\",\"level\":\"INFO\",\"msg\":\"override\",\"ts\":\"T\"}");
}

#[test]
fn json_strings_are_escaped() {
    let mut s = String::new();
    push_quoted(&mut s, "a\"b\\c\nd\te\u{1}");
    assert_eq!(s, "\"a\\\"b\\\\c\\nd\\te\\u0001\"");
    let mut p = Vec::new();
    set_member(&mut p, "b".to_string(), "2".to_string());
    set_member(&mut p, "a".to_string(), "1".to_string());
    set_member(&mut p, "b".to_string(), "3".to_string());
    assert_eq!(object_of(&p), "{\"a\":\"1\",\"b\":\"3\"}");
}

#[test]
fn journal_lines() {
    let op = JournalOp::WriteSignal { execution_id: "e".to_string(), name: "n".to_string(), data: "{\"x\":1}".to_string() };
    assert_eq!(op.to_json_text(), "{\"data\":\"{\\\"x\\\":1}\",\"execution_id\":\"e\",\"name\":\"n\",\"op\":\"write_signal\"}");
    let del = JournalOp::DeleteTimer { execution_id: "e".to_string(), name: "t".to_string() };
    assert_eq!(del.to_json_text(), "{\"execution_id\":\"e\",\"name\":\"t\",\"op\":\"delete_timer\"}");
}

#[test]
fn parse_error_messages() {
    assert_eq!(ParseError::UnexpectedChar(3, 'x').message(), "unexpected character 'x' at position 3");
    assert_eq!(ParseError::DepthExceeded(129).message(), "nesting depth 129 exceeds maximum");
    assert_eq!(ParseError::UnexpectedEof.message(), "unexpected end of input");
}

#[test]
fn status_transitions_are_stored() {
    let mut st = InMemoryStorage::new();
    let id = ExecutionId::new();
    st.create_execution(id).unwrap();
    transition_status(&mut st, id, ExecutionStatus::Running, ExecutionStatus::Completed).unwrap();
    assert_eq!(st.get_execution(id).unwrap().unwrap().status, ExecutionStatus::Completed);
    match transition_status(&mut st, id, ExecutionStatus::Completed, ExecutionStatus::Running) {
        Err(DurableError::InvalidState(m)) => assert_eq!(m, "invalid transition: Completed -> Running"),
        other => panic!("unexpected {:?}", other),
    }
    assert!(matches!(transition_status(&mut st, ExecutionId::new(), ExecutionStatus::Running, ExecutionStatus::Failed), Err(DurableError::Storage(_))));
}

#[test]
fn error_handling_plans() {
    let susp = DurableError::Suspended(SuspendReason::GracefulShutdown);
    assert!(matches!(error_plan(susp, None), ErrorPlan::Outcome(AgentOutcome::Suspended { .. })));
    let e = DurableError::Io("x".to_string());
    assert!(matches!(error_plan(e.clone(), Some(ErrorAction::Fail(DurableError::Cancelled))), ErrorPlan::Outcome(AgentOutcome::Error { error: DurableError::Cancelled })));
    assert!(matches!(error_plan(e.clone(), Some(ErrorAction::Retry)), ErrorPlan::WindDown(DurableError::Io(_))));
    assert!(matches!(error_plan(e, None), ErrorPlan::WindDown(_)));
    assert_eq!(compensation_status(true), ExecutionStatus::Compensated);
    assert_eq!(compensation_status(false), ExecutionStatus::CompensationFailed);
}

#[test]
fn budget_and_time_limits() {
    assert!(wall_time_check(None, 5).is_none());
    assert!(wall_time_check(Some(10), 9).is_none());
    match wall_time_check(Some(10), 12) {
        Some(SuspendReason::BudgetExhausted { dimension, limit, used }) => {
            assert_eq!((dimension.as_str(), limit.as_str(), used.as_str()), ("wall_time", "10ms", "12ms"));
        }
        other => panic!("unexpected {:?}", other),
    }
    match call_budget_check(Some(2), 2, Some(1), 5, None, 0, 0) {
        Some(SuspendReason::BudgetExhausted { dimension, limit, used }) => {
            assert_eq!((dimension.as_str(), limit.as_str(), used.as_str()), ("llm_calls", "2", "2"));
        }
        other => panic!("unexpected {:?}", other),
    }
    match call_budget_check(None, 0, Some(1), 5, None, 0, 0) {
        Some(SuspendReason::BudgetExhausted { dimension, .. }) => assert_eq!(dimension, "tool_calls"),
        other => panic!("unexpected {:?}", other),
    }
    assert!(call_budget_check(None, 0, None, 0, Some(100), 0, 1000).is_none());
    match call_budget_check(None, 0, None, 0, Some(100), 50, 200) {
        Some(SuspendReason::BudgetExhausted { limit, used, .. }) => assert_eq!((limit.as_str(), used.as_str()), ("100ms", "150ms")),
        other => panic!("unexpected {:?}", other),
    }
}

#[test]
fn llm_replies() {
    assert!(matches!(reply_action("text", "hi", 0), ReplyAction::Complete(t) if t == "hi"));
    assert!(matches!(reply_action("tool_calls", "", 0), ReplyAction::Complete(t) if t.is_empty()));
    assert!(matches!(reply_action("tool_calls", "", 2), ReplyAction::RunTools));
    match reply_action("audio", "", 0) {
        ReplyAction::Fail(DurableError::InvalidState(m)) => assert_eq!(m, "unknown LLM response type: audio"),
        other => panic!("unexpected {:?}", other),
    }
    assert_eq!(step_usage("llm_call"), (1, 0));
    assert_eq!(step_usage("llm_call_2"), (1, 0));
    assert_eq!(step_usage("tool_search"), (0, 1));
    assert_eq!(step_usage("other"), (0, 0));
}

#[test]
fn steps_are_mirrored() {
    let mut st = InMemoryStorage::new();
    let id = ExecutionId::new();
    st.create_execution(id).unwrap();
    mirror_step(&mut st, id, 1, "llm_call", "{}", &Ok("\"x\"".to_string()));
    let r = st.get_step_by_number(id, 0).unwrap().unwrap();
    assert_eq!(r.status, StepStatus::Completed);
    assert_eq!(r.result.as_deref(), Some("\"x\""));
    mirror_step(&mut st, id, 2, "tool_a", "{}", &Err(DurableError::Cancelled));
    let r = st.get_step_by_number(id, 1).unwrap().unwrap();
    assert_eq!(r.error.as_deref(), Some("execution cancelled"));
}

#[test]
fn resumption_is_due() {
    let mut st = InMemoryStorage::new();
    let id = ExecutionId::new();
    st.create_execution(id).unwrap();
    st.set_suspend_reason(id, Some(SuspendReason::WaitingForSignal { signal_name: "go".to_string() })).unwrap();
    let meta = st.get_execution(id).unwrap().unwrap();
    assert!(!should_resume(&st, &meta, 0));
    st.store_signal(id, "go", "1").unwrap();
    assert!(should_resume(&st, &meta, 0));
    st.set_suspend_reason(id, Some(SuspendReason::WaitingForTimer { fire_at_millis: 100, timer_name: "t".to_string() })).unwrap();
    let meta = st.get_execution(id).unwrap().unwrap();
    assert!(!should_resume(&st, &meta, 99));
    assert!(should_resume(&st, &meta, 100));
}

#[test]
fn authentication_steps() {
    assert_eq!(auth_step(true, "anything", "", Some("t")), AuthStep::Proceed);
    assert_eq!(auth_step(false, "auth", "t", Some("t")), AuthStep::Accepted);
    assert_eq!(auth_step(false, "auth", "x", Some("t")), AuthStep::Rejected);
    assert_eq!(auth_step(false, "create_agent", "", Some("t")), AuthStep::Refused);
}

#[test]
fn retry_decisions() {
    let flaky = DurableError::ToolError { tool_name: "t".to_string(), message: "m".to_string(), retryable: true };
    assert!(StepExecutor::should_retry(&flaky, 1, 3));
    assert!(!StepExecutor::should_retry(&flaky, 3, 3));
    assert!(StepExecutor::should_retry(&DurableError::Io("x".to_string()), 1, 3));
    assert!(!StepExecutor::should_retry(&DurableError::Storage("x".to_string()), 1, 3));
    assert!(StepExecutor::should_retry_replayed(&DurableError::Storage("x".to_string()), 1, RetryMode::UseDefault, 3));
    assert!(StepExecutor::should_retry_replayed(&DurableError::Cancelled, 1, RetryMode::ForceRetry, 3));
    assert!(!StepExecutor::should_retry_replayed(&flaky, 1, RetryMode::NeverRetry, 3));
    assert!(!StepExecutor::should_retry_replayed(&DurableError::Suspended(SuspendReason::GracefulShutdown), 1, RetryMode::ForceRetry, 3));
}

#[test]
fn journal_fields_read_back() {
    match JournalOp::from_fields(Some("write_step"), Some("e1"), Some("3_00ab.json"), None, Some("{}")).unwrap() {
        JournalOp::WriteStep { execution_id, step_file, data } => {
            assert_eq!(execution_id, "e1");
            assert_eq!(step_file, "3_00ab.json");
            assert_eq!(data, "{}");
        }
        other => panic!("unexpected {:?}", other),
    }
    match JournalOp::from_fields(Some("delete_signal"), None, None, Some("go"), None).unwrap() {
        JournalOp::DeleteSignal { execution_id, name } => {
            assert_eq!(execution_id, "");
            assert_eq!(name, "go");
        }
        other => panic!("unexpected {:?}", other),
    }
    assert_eq!(JournalOp::from_fields(None, Some("e"), None, None, None).unwrap_err(), "missing op field");
    assert_eq!(JournalOp::from_fields(Some("rename"), None, None, None, None).unwrap_err(), "unknown journal op: rename");
}

#[test]
fn worker_fires_timers_and_resumes_on_signals() {
    let mut st = InMemoryStorage::new();
    let id = ExecutionId::new();
    st.create_execution(id).unwrap();
    st.create_timer(id, "nap", 0).unwrap();
    st.create_timer(id, "later", u64::MAX).unwrap();
    st.set_suspend_reason(id, Some(SuspendReason::WaitingForTimer { fire_at_millis: 0, timer_name: "nap".to_string() })).unwrap();
    let meta = st.get_execution(id).unwrap().unwrap();
    assert!(!worker_should_resume(&st, &meta));
    let fired = fire_expired_timers(&mut st);
    assert_eq!(fired.len(), 1);
    assert_eq!(fired[0].1, "nap");
    assert_eq!(st.peek_signal(id, "nap").unwrap().as_deref(), Some("true"));
    assert_eq!(st.get_expired_timers().unwrap().len(), 0);
    assert!(worker_should_resume(&st, &meta));

    let child = ExecutionId::new();
    let waiting = Some(SuspendReason::WaitingForChild { child_id: child });
    assert_eq!(awaited_signal_name(&waiting), Some(format!("__child_{}", child.to_text())));
    let input = Some(SuspendReason::WaitingForInput { prompt: "?".to_string() });
    assert_eq!(awaited_signal_name(&input).as_deref(), Some("__user_input"));
    assert_eq!(awaited_signal_name(&Some(SuspendReason::GracefulShutdown)), None);
    assert_eq!(awaited_signal_name(&None), None);
}
