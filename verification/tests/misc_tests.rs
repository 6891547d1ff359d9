use lib::error::{DurableError, Retryable, SuspendReason};
use lib::inspect::{summarise, ExecutionInspector};
use lib::llm::{ProcessLlmClient, TokenUsage};
use lib::memory::InMemoryStorage;
use lib::response::AgentResponse;
use lib::time::{iso8601_from_millis, now_iso8601, now_millis, parse_duration, trim_text};
use lib::tool::{check_arguments, find_definition, hash_tool_definitions, requires_confirmation, sort_by_name, ArgKind, ProcessToolHandler, ToolDefinition};
use lib::types::{ExecutionId, ExecutionStatus, StepKey, StepStatus};
use lib::hash::fnv1a_hash;
use std::time::Duration;

#[test]
fn durations_parse() {
    assert_eq!(parse_duration("100ms").unwrap(), Duration::from_millis(100));
    assert_eq!(parse_duration(" 5s ").unwrap(), Duration::from_secs(5));
    assert_eq!(parse_duration("2m").unwrap(), Duration::from_secs(120));
    assert_eq!(parse_duration("1h").unwrap(), Duration::from_secs(3600));
    assert_eq!(parse_duration("+3s").unwrap(), Duration::from_secs(3));
    assert_eq!(parse_duration("5x").unwrap_err(), "invalid duration format: 5x");
    assert_eq!(parse_duration("abcs").unwrap_err(), "invalid duration: abcs");
    assert_eq!(parse_duration("ms").unwrap_err(), "invalid duration: ms");
    assert_eq!(parse_duration("").unwrap_err(), "invalid duration format: ");
}

#[test]
fn trimming() {
    assert_eq!(trim_text("  a b \t\n"), "a b");
    assert_eq!(trim_text("\u{3000}x\u{2029}"), "x");
    assert_eq!(trim_text("   "), "");
}

#[test]
fn iso8601_texts() {
    assert_eq!(iso8601_from_millis(0), "1970-01-01T00:00:00.000Z");
    assert_eq!(iso8601_from_millis(951782400000), "2000-02-29T00:00:00.000Z");
    assert_eq!(iso8601_from_millis(1700000000123), "2023-11-14T22:13:20.123Z");
    assert_eq!(iso8601_from_millis(1704067199999), "2023-12-31T23:59:59.999Z");
    let now = now_iso8601();
    assert_eq!(now.len(), 24);
    assert!(now_millis() > 1_600_000_000_000);
}

#[test]
fn status_transitions() {
    assert!(ExecutionStatus::Running.transition_to(&ExecutionStatus::Completed).is_ok());
    assert!(ExecutionStatus::Suspended.transition_to(&ExecutionStatus::Running).is_ok());
    match ExecutionStatus::Completed.transition_to(&ExecutionStatus::Running) {
        Err(DurableError::InvalidState(m)) => assert_eq!(m, "invalid transition: Completed -> Running"),
        other => panic!("unexpected {:?}", other),
    }
    assert_eq!(ExecutionStatus::CompensationFailed.as_str(), "compensation_failed");
    assert_eq!(StepStatus::Completed.as_str(), "completed");
}

#[test]
fn error_messages_and_retryability() {
    let e = DurableError::StepFailed {
        step_name: "s".to_string(),
        message: "m".to_string(),
        retryable: true,
        execution_id: Some("x".to_string()),
        step_number: Some(3),
    };
    assert_eq!(e.message(), "step 's' (#3) in exec x failed: m");
    assert!(e.is_retryable());
    assert_eq!(DurableError::Cancelled.message(), "execution cancelled");
    assert!(!DurableError::Cancelled.is_retryable());
    assert!(DurableError::Io("x".to_string()).is_retryable());
    assert_eq!(DurableError::PromptDrift { stored_hash: 1, current_hash: 255 }.message(),
        "system prompt changed between execution and resume (stored 0000000000000001, current 00000000000000ff) — replay determinism violation (Invariant I)");
    assert!("anything".to_string().is_retryable());
    let s = DurableError::Suspended(SuspendReason::GracefulShutdown).message();
    assert_eq!(s, "suspended: GracefulShutdown");
}

#[test]
fn tool_definitions_hash() {
    let a = ToolDefinition { name: "b".to_string(), description: "B".to_string(), parameters: "{}".to_string(), requires_confirmation: false };
    let b = ToolDefinition { name: "a".to_string(), description: "A".to_string(), parameters: "{\"x\":1}".to_string(), requires_confirmation: true };
    let h1 = hash_tool_definitions(&[a.clone(), b.clone()]);
    let h2 = hash_tool_definitions(&[b.clone(), a.clone()]);
    assert_eq!(h1, h2);
    assert_eq!(h1, fnv1a_hash(b"a:A:{\"x\":1}|b:B:{}"));
    let sorted = sort_by_name(&[a.clone(), b.clone()]);
    assert_eq!(sorted[0].name, "a");
    assert_eq!(hash_tool_definitions(&[]), fnv1a_hash(b""));
}

#[test]
fn builders() {
    let h = ProcessToolHandler::new("tool.sh".to_string())
        .with_args(vec!["-v".to_string()])
        .with_cwd("/tmp".to_string())
        .with_timeout(5);
    assert_eq!(h.command, "tool.sh");
    assert_eq!(h.args, vec!["-v".to_string()]);
    assert_eq!(h.cwd.as_deref(), Some("/tmp"));
    assert!(h.env.is_empty());
    assert_eq!(h.timeout_secs, 5);
    let c = ProcessLlmClient::new("llm".to_string()).with_timeout(9);
    assert_eq!(c.timeout_secs, 9);
    assert_eq!(ProcessLlmClient::new("llm".to_string()).timeout_secs, 120);
    assert_eq!(TokenUsage { input_tokens: 3, output_tokens: 4 }.total(), 7);
}

#[test]
fn agent_responses() {
    let id = ExecutionId::new();
    let r = AgentResponse::completed(id, "hi".to_string());
    assert_eq!(r.text(), Some("hi"));
    assert!(r.is_completed());
    assert!(!r.is_suspended());
    assert_eq!(r.display_text(), "hi");
    let s = AgentResponse::suspended(id, SuspendReason::GracefulShutdown);
    assert!(s.is_suspended());
    assert_eq!(s.execution_id(), id);
    assert_eq!(s.display_text(), "[suspended: GracefulShutdown]");
    let m = AgentResponse::max_iterations(id, String::new());
    assert_eq!(m.text(), None);
    assert_eq!(*m.status(), ExecutionStatus::Running);
    assert_eq!(m.display_text(), "");
}

#[test]
fn inspector_summary() {
    let id = ExecutionId::new();
    let mut st = InMemoryStorage::new();
    st.create_execution(id).unwrap();
    let k0 = StepKey { execution_id: id, step_number: 0, step_name: "a".to_string(), param_hash: 1 };
    let k1 = StepKey { execution_id: id, step_number: 1, step_name: "b".to_string(), param_hash: 2 };
    st.log_step_start(k0.clone()).unwrap();
    st.log_step_completion(&k0, Some("1".to_string()), None, false).unwrap();
    st.log_step_start(k1.clone()).unwrap();
    let insp = ExecutionInspector::new(&st);
    let sum = insp.execution_summary(id).unwrap();
    assert_eq!(sum.total_steps, 2);
    assert_eq!(sum.completed_steps, 1);
    assert_eq!(sum.running_steps, 1);
    assert_eq!(sum.failed_steps, 0);
    let cur = sum.current_step.unwrap();
    assert_eq!((cur.number, cur.name.as_str(), cur.status), (1, "b", StepStatus::Running));
    assert_eq!(insp.get_step(id, 0).unwrap().unwrap().result.as_deref(), Some("1"));
    assert_eq!(insp.get_steps(id).unwrap().len(), 2);
    assert!(insp.get_execution(id).unwrap().is_some());
    assert!(matches!(insp.execution_summary(ExecutionId::new()), Err(DurableError::NotFound(_))));
    let meta = insp.get_execution(id).unwrap().unwrap();
    let steps = insp.get_steps(id).unwrap();
    assert_eq!(summarise(id, meta, &steps).total_steps, 2);
}

#[test]
fn tool_arguments_against_schema() {
    let required = vec!["name".to_string(), "city".to_string()];
    let props = vec![
        ("age".to_string(), Some("integer".to_string())),
        ("name".to_string(), Some("string".to_string())),
        ("note".to_string(), None),
    ];
    let args = vec![
        ("age".to_string(), ArgKind::Number { integral: false }),
        ("name".to_string(), ArgKind::Str),
        ("note".to_string(), ArgKind::Null),
    ];
    assert_eq!(
        check_arguments(true, Some(args), &required, &props).unwrap_err(),
        vec!["missing required field 'city'".to_string(), "field 'age': expected type 'integer', got 'number'".to_string()]
    );
    assert_eq!(check_arguments(false, None, &required, &props), Ok(()));
    assert_eq!(check_arguments(true, None, &required, &props).unwrap_err(), vec!["arguments must be a JSON object".to_string()]);
    let num = vec![("n".to_string(), Some("number".to_string())), ("i".to_string(), Some("integer".to_string()))];
    let ok_args = vec![("n".to_string(), ArgKind::Number { integral: true }), ("i".to_string(), ArgKind::Number { integral: true })];
    assert_eq!(check_arguments(true, Some(ok_args), &vec![], &num), Ok(()));
    let bad = vec![("n".to_string(), ArgKind::Bool)];
    assert_eq!(check_arguments(true, Some(bad), &vec![], &num).unwrap_err(), vec!["field 'n': expected type 'number', got 'boolean'".to_string()]);
}

#[test]
fn tool_definition_lookup() {
    let defs = vec![
        ToolDefinition::new("search".to_string(), "Search".to_string()),
        ToolDefinition::new("pay".to_string(), "Pay".to_string()).with_confirmation(),
    ];
    assert_eq!(find_definition(&defs, "pay"), Some(1));
    assert_eq!(find_definition(&defs, "nope"), None);
    assert!(requires_confirmation(&defs, "pay"));
    assert!(!requires_confirmation(&defs, "search"));
    assert!(!requires_confirmation(&defs, "nope"));
}
