use lib::event::{Event, EventType, ExecutionState};
use lib::replay::{check_prompt_drift, check_version, compensation_event, compensation_order, compensation_step_name, created_event, step_outcome, ReplayState, StepPlan};
use lib::error::DurableError;
use lib::hash::fnv1a_hash;
use lib::types::{ExecutionId, ExecutionStatus};

fn ev(id: ExecutionId, n: u64, t: EventType) -> Event {
    Event {
        event_id: n,
        execution_id: id,
        timestamp: 1000 + n,
        event_type: t,
        idempotency_key: None,
        prev_hash: 0,
        schema_version: 1,
        lamport_ts: n,
    }
}

fn started(n: u64, name: &str, params: &str) -> EventType {
    EventType::StepStarted {
        step_number: n,
        step_name: name.to_string(),
        param_hash: fnv1a_hash(params.as_bytes()),
        params: params.to_string(),
    }
}

fn history(id: ExecutionId) -> Vec<Event> {
    vec![
        ev(id, 1, EventType::ExecutionCreated { version: Some("v1".to_string()), prompt_hash: Some(7), prompt_text: None }),
        ev(id, 2, started(0, "plan", "{}")),
        ev(id, 3, EventType::StepCompleted { step_number: 0, step_name: "plan".to_string(), result: "\"p\"".to_string() }),
        ev(id, 4, started(1, "call", "{\"x\":1}")),
        ev(id, 5, EventType::StepFailed { step_number: 1, step_name: "call".to_string(), error: "denied".to_string(), retryable: false }),
        ev(id, 6, EventType::SignalReceived { name: "go".to_string(), data: "1".to_string() }),
        ev(id, 7, EventType::Suspended { reason: "{}".to_string() }),
    ]
}

#[test]
fn projection_of_a_history() {
    let id = ExecutionId::new();
    let s = ExecutionState::from_events(id, &history(id));
    assert_eq!(s.status, ExecutionStatus::Suspended);
    assert_eq!(s.step_count, 2);
    assert_eq!(s.created_at, 1001);
    assert_eq!(s.updated_at, 1007);
    assert_eq!(s.version.as_deref(), Some("v1"));
    let plan = s.step_occurrence(&"plan".to_string(), 0).unwrap();
    assert!(plan.completed);
    assert_eq!(plan.result.as_deref(), Some("\"p\""));
    let call = s.step_at(1).unwrap();
    assert_eq!(call.error.as_deref(), Some("denied"));
    assert_eq!(s.pending_signal(&"go".to_string()).map(|d| d.as_str()), Some("1"));
}

#[test]
fn projection_signals_timers_tags_leases() {
    let id = ExecutionId::new();
    let child = ExecutionId::new();
    let events = vec![
        ev(id, 1, EventType::SignalReceived { name: "a".to_string(), data: "x".to_string() }),
        ev(id, 2, EventType::SignalConsumed { name: "a".to_string() }),
        ev(id, 3, EventType::TimerCreated { name: "t".to_string(), fire_at_millis: 99 }),
        ev(id, 4, EventType::TagSet { key: "k".to_string(), value: "v".to_string() }),
        ev(id, 5, EventType::ChildFlowStarted { child_id: child, input: "{}".to_string() }),
        ev(id, 6, EventType::ChildFlowCompleted { child_id: child, result: "done".to_string() }),
        ev(id, 7, EventType::LeaseAcquired { generation: 5, holder: "w".to_string(), ttl_millis: 10, acquired_at: 100 }),
    ];
    let s = ExecutionState::from_events(id, &events);
    assert!(s.pending_signal(&"a".to_string()).is_none());
    assert_eq!(s.timer(&"t".to_string()), Some(99));
    assert_eq!(s.tag(&"k".to_string()).map(|v| v.as_str()), Some("v"));
    assert_eq!(s.child_flow(&child.to_text()), Some(&Some("done".to_string())));
    assert_eq!(s.generation, 5);
    assert!(!s.lease_expired_at(109));
    assert!(s.lease_expired_at(110));
    let mut s2 = s;
    s2.apply(&ev(id, 8, EventType::LeaseReleased { generation: 5 }));
    assert!(s2.lease_holder.is_none());
    assert!(s2.lease_expired_at(0));
}

#[test]
fn replay_answers_recorded_steps() {
    let id = ExecutionId::new();
    let state = ExecutionState::from_events(id, &history(id));
    let mut rs = ReplayState::resumed(state, 2, None);
    match rs.begin_step("plan", "{}", false) {
        StepPlan::Answered(Ok(v)) => assert_eq!(v, "\"p\""),
        _ => panic!("plan should replay"),
    }
    assert!(rs.was_last_step_replay());
    match rs.begin_step("call", "{\"x\":1}", false) {
        StepPlan::Answered(Err(DurableError::StepFailed { message, step_number, .. })) => {
            assert_eq!(message, "denied");
            assert_eq!(step_number, Some(1));
        }
        _ => panic!("call should replay its failure"),
    }
    match rs.begin_step("next", "{}", false) {
        StepPlan::Live(l) => {
            assert_eq!(l.step_number, 2);
            assert_eq!(l.occurrence, 0);
            assert_eq!(l.started_key, format!("{}:next:0:started", id.to_text()));
            assert_eq!(l.completed_key, format!("{}:next:0:completed", id.to_text()));
        }
        _ => panic!("next is live"),
    }
    assert!(!rs.was_last_step_replay());
}

#[test]
fn replay_detects_changed_parameters() {
    let id = ExecutionId::new();
    let state = ExecutionState::from_events(id, &history(id));
    let mut rs = ReplayState::resumed(state, 2, None);
    rs.begin_step("plan", "{}", false);
    match rs.begin_step("call", "{\"x\":2}", false) {
        StepPlan::Answered(Err(DurableError::NonDeterminismDetected { step_number, expected_name, actual_name })) => {
            assert_eq!(step_number, 1);
            assert_eq!(expected_name, format!("call[0](hash:{:016x})", fnv1a_hash(b"{\"x\":1}")));
            assert_eq!(actual_name, format!("call[0](hash:{:016x})", fnv1a_hash(b"{\"x\":2}")));
        }
        _ => panic!("expected a mismatch"),
    }
}

#[test]
fn lenient_replay_ignores_parameters() {
    let id = ExecutionId::new();
    let state = ExecutionState::from_events(id, &history(id));
    let mut rs = ReplayState::resumed(state, 2, None);
    match rs.begin_step("plan", "{\"changed\":true}", true) {
        StepPlan::Answered(Ok(v)) => assert_eq!(v, "\"p\""),
        _ => panic!("lenient replay"),
    }
}

#[test]
fn step_outcomes_record_events() {
    let id = ExecutionId::new();
    let mut rs = ReplayState::fresh(id, None, None);
    let live = match rs.begin_step("s", "{}", false) {
        StepPlan::Live(l) => l,
        _ => panic!("fresh steps are live"),
    };
    match step_outcome(&live, Ok("7".to_string())) {
        (Some(EventType::StepCompleted { step_number, step_name, result }), Ok(v)) => {
            assert_eq!((step_number, step_name.as_str(), result.as_str(), v.as_str()), (0, "s", "7", "7"));
        }
        _ => panic!("completion"),
    }
    match step_outcome(&live, Err(DurableError::ToolError { tool_name: "t".to_string(), message: "m".to_string(), retryable: true })) {
        (Some(EventType::StepFailed { error, retryable, .. }), Err(_)) => {
            assert_eq!(error, "tool 't' error: m");
            assert!(retryable);
        }
        _ => panic!("failure"),
    }
    assert!(matches!(step_outcome(&live, Err(DurableError::Cancelled)), (Some(EventType::StepFailed { retryable: false, .. }), _)));
}

#[test]
fn resume_checks() {
    assert!(check_prompt_drift(None, Some("x")).is_ok());
    let h = fnv1a_hash(b"prompt");
    assert!(check_prompt_drift(Some(h), Some("prompt")).is_ok());
    match check_prompt_drift(Some(h), Some("other")) {
        Err(DurableError::PromptDrift { stored_hash, current_hash }) => {
            assert_eq!(stored_hash, h);
            assert_eq!(current_hash, fnv1a_hash(b"other"));
        }
        _ => panic!("drift"),
    }
    assert!(check_version(&Some("v1".to_string()), "v1").is_ok());
    match check_version(&Some("v1".to_string()), "v2") {
        Err(DurableError::InvalidState(m)) => assert_eq!(m, "version mismatch: execution has 'v1', code is 'v2'"),
        _ => panic!("version"),
    }
    match created_event(Some("v3"), Some("sys")) {
        EventType::ExecutionCreated { version, prompt_hash, prompt_text } => {
            assert_eq!(version.as_deref(), Some("v3"));
            assert_eq!(prompt_hash, Some(fnv1a_hash(b"sys")));
            assert_eq!(prompt_text.as_deref(), Some("sys"));
        }
        _ => panic!("created"),
    }
}

#[test]
fn version_and_sleep_decisions() {
    let id = ExecutionId::new();
    let mut rs = ReplayState::fresh(id, None, None);
    assert!(rs.cached_version("feature").is_none());
    let (a, b) = rs.version_events("feature", 2);
    match (a, b) {
        (EventType::StepStarted { step_name, params, .. }, EventType::StepCompleted { result, .. }) => {
            assert_eq!(step_name, "__version_feature");
            assert_eq!(params, "{\"change_id\":\"feature\"}");
            assert_eq!(result, "2");
        }
        _ => panic!("version events"),
    }
    assert!(!rs.sleep_done("nap"));
    assert!(rs.snapshot_due(1));
    assert!(!rs.snapshot_due(0));
}

#[test]
fn recorded_step_numbers_in_order() {
    let id = ExecutionId::new();
    let events = vec![
        ev(id, 1, started(3, "c", "{}")),
        ev(id, 2, started(0, "a", "{}")),
        ev(id, 3, started(7, "d", "{}")),
        ev(id, 4, started(3, "c", "{}")),
    ];
    let s = ExecutionState::from_events(id, &events);
    assert_eq!(s.step_numbers(), vec![0, 3, 7]);
}

#[test]
fn compensations_run_last_first() {
    assert_eq!(compensation_order(3), vec![2, 1, 0]);
    assert!(compensation_order(0).is_empty());
    assert_eq!(compensation_step_name("book"), "__compensate_book");
    match compensation_event("book", &Err(DurableError::InvalidState("x".to_string()))) {
        EventType::CompensationFailed { step_name, error } => {
            assert_eq!(step_name, "book");
            assert_eq!(error, "invalid state: x");
        }
        other => panic!("unexpected {:?}", other),
    }
}
