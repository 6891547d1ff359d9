use lib::agent::{contract_outcome, loop_step, LoopAction, LoopEvent, LoopState};
use lib::context::ExecutionContext;
use lib::conversation::Conversation;
use lib::error::{DurableError, SuspendReason};
use lib::event::EventType;
use lib::inspect::ExecutionInspector;
use lib::llm::Message;
use lib::log::{LogLevel, StderrJsonLogger};
use lib::memory::InMemoryStorage;
use lib::response::AgentOutcome;
use lib::time::parse_duration;
use lib::tool::{ToolCall, ToolResult};
use lib::types::ExecutionId;
use lib::uuid::Uuid;
use std::time::Duration;

#[test]
fn timer_fires_the_duration_after_the_reading() {
    let id = ExecutionId::new();
    let mut st = InMemoryStorage::new();
    st.create_execution(id).unwrap();
    let mut ctx = ExecutionContext::new(id, st);
    match ctx.schedule_timer_at("wake", Duration::from_millis(1500), 10_000) {
        Err(DurableError::Suspended(SuspendReason::WaitingForTimer { fire_at_millis, timer_name })) => {
            assert_eq!(fire_at_millis, 11_500);
            assert_eq!(timer_name, "wake");
        }
        other => panic!("unexpected {:?}", other),
    }
    match ctx.schedule_timer_at("wrap", Duration::from_millis(10), u64::MAX - 4) {
        Err(DurableError::Suspended(SuspendReason::WaitingForTimer { fire_at_millis, .. })) => assert_eq!(fire_at_millis, 5),
        other => panic!("unexpected {:?}", other),
    }
}

#[test]
fn suspension_messages_spell_out_the_reason() {
    let e = DurableError::Suspended(SuspendReason::WaitingForSignal { signal_name: "a\"b\n".to_string() });
    assert_eq!(e.message(), "suspended: WaitingForSignal { signal_name: \"a\\\"b\\n\" }");
    let e = DurableError::Suspended(SuspendReason::WaitingForTimer { fire_at_millis: 42, timer_name: "t".to_string() });
    assert_eq!(e.message(), "suspended: WaitingForTimer { fire_at_millis: 42, timer_name: \"t\" }");
    let child = ExecutionId::from_uuid(Uuid::from_bytes([0x11; 16]));
    let e = DurableError::Suspended(SuspendReason::WaitingForChild { child_id: child });
    assert_eq!(
        e.message(),
        "suspended: WaitingForChild { child_id: ExecutionId(Uuid(11111111-1111-1111-1111-111111111111)) }"
    );
    let e = DurableError::Suspended(SuspendReason::BudgetExhausted {
        dimension: "llm_calls".to_string(),
        limit: "3".to_string(),
        used: "3".to_string(),
    });
    assert_eq!(e.message(), "suspended: BudgetExhausted { dimension: \"llm_calls\", limit: \"3\", used: \"3\" }");
    let e = DurableError::Suspended(SuspendReason::WaitingForInput { prompt: "x\u{1}".to_string() });
    assert_eq!(e.message(), "suspended: WaitingForInput { prompt: \"x\\u{1}\" }");
}

#[test]
fn missing_steps_and_executions() {
    let id = ExecutionId::new();
    let mut st = InMemoryStorage::new();
    assert!(st.set_suspend_reason(id, None).is_err());
    let mut ctx = ExecutionContext::new(id, InMemoryStorage::new());
    assert!(matches!(ctx.clear_suspension(), Err(DurableError::Storage(_))));
    st.create_execution(id).unwrap();
    let inspector = ExecutionInspector::new(&st);
    assert!(inspector.get_step(id, 0).unwrap().is_none());
}

#[test]
fn logger_writes_only_at_its_level() {
    let l = StderrJsonLogger::new(LogLevel::Warn);
    assert!(l.entry("t0", LogLevel::Info, &[], "quiet").is_none());
    let line = l.entry("t0", LogLevel::Error, &[("k", "v")], "loud").unwrap();
    assert_eq!(line, "{\"k\":\"v\",\"level\":\"ERROR\",\"msg\":\"loud\",\"ts\":\"t0\"}");
}

#[test]
fn durations_are_whole_milliseconds() {
    assert_eq!(parse_duration("5s").unwrap(), Duration::from_secs(5));
    assert_eq!(parse_duration("100ms").unwrap(), Duration::from_millis(100));
    assert_eq!(parse_duration("2m").unwrap(), Duration::from_secs(120));
    assert_eq!(parse_duration("1h").unwrap(), Duration::from_secs(3600));
    assert_eq!(parse_duration(" 5s ").unwrap(), Duration::from_secs(5));
}

#[test]
fn uuid_length_counts_bytes() {
    let text = "é".repeat(16);
    assert_eq!(Uuid::parse(&text).unwrap_err(), format!("invalid hex in UUID: {}", text));
    let text = format!("{}é", "0".repeat(31));
    assert_eq!(Uuid::parse(&text).unwrap_err(), format!("invalid UUID length: {}", text));
}

#[test]
fn agent_loop_decisions() {
    let mut c = Conversation::new();
    c.push(Message::user("hi".to_string()));
    let done = LoopState { iteration: 2, max_iterations: 2 };
    match loop_step(done, &mut c, LoopEvent::Begin { elapsed_millis: 0, timeout_millis: None, max_messages: None }).1 {
        LoopAction::Finish(AgentOutcome::MaxIterations { last_response }) => assert_eq!(last_response, ""),
        other => panic!("unexpected {:?}", other),
    }
    let s = LoopState { iteration: 0, max_iterations: 2 };
    match loop_step(s, &mut c, LoopEvent::Begin { elapsed_millis: 50, timeout_millis: Some(50), max_messages: None }).1 {
        LoopAction::Finish(AgentOutcome::Suspended { .. }) => {}
        other => panic!("unexpected {:?}", other),
    }
    assert!(matches!(
        loop_step(s, &mut c, LoopEvent::Begin { elapsed_millis: 1, timeout_millis: Some(50), max_messages: None }).1,
        LoopAction::CallLlm
    ));
    let call = ToolCall { id: "1".to_string(), name: "t".to_string(), arguments: "{}".to_string() };
    match loop_step(s, &mut c, LoopEvent::Reply { kind: "tool_calls".to_string(), text: String::new(), calls: vec![call] }).1 {
        LoopAction::RunTools(calls) => assert_eq!(calls[0].id, "1"),
        other => panic!("unexpected {:?}", other),
    }
    let (next, action) = loop_step(
        s,
        &mut c,
        LoopEvent::ToolResults(vec![ToolResult { call_id: "1".to_string(), output: "2".to_string(), is_error: false }]),
    );
    assert!(matches!(action, LoopAction::NextRound));
    assert_eq!(next.iteration, 1);
    match loop_step(next, &mut c, LoopEvent::Reply { kind: "text".to_string(), text: "ok".to_string(), calls: vec![] }).1 {
        LoopAction::Complete { text, save_conversation } => {
            assert_eq!(text, "ok");
            assert!(save_conversation);
        }
        other => panic!("unexpected {:?}", other),
    }
    assert_eq!(c.len(), 4);
}

#[test]
fn contract_checks_record_and_stop() {
    let (ev, verdict) = contract_outcome("max-charge", "tool_pay", Err("too much".to_string()));
    match ev {
        EventType::ContractChecked { passed, reason, .. } => {
            assert!(!passed);
            assert_eq!(reason.as_deref(), Some("too much"));
        }
        other => panic!("unexpected {:?}", other),
    }
    match verdict {
        Err(DurableError::Suspended(SuspendReason::ContractViolation { contract_name, step_name, reason })) => {
            assert_eq!((contract_name.as_str(), step_name.as_str(), reason.as_str()), ("max-charge", "tool_pay", "too much"));
        }
        other => panic!("unexpected {:?}", other),
    }
    assert!(contract_outcome("c", "tool_x", Ok(())).1.is_ok());
}
