use lib::memory::InMemoryStorage;
use lib::types::{ExecutionId, ExecutionStatus, StepKey, StepStatus};
use lib::uuid::Uuid;

fn key(id: ExecutionId, n: u64, name: &str) -> StepKey {
    StepKey { execution_id: id, step_number: n, step_name: name.to_string(), param_hash: n * 10 }
}

#[test]
fn executions_and_status() {
    let mut st = InMemoryStorage::new();
    let id = ExecutionId::new();
    assert!(st.get_execution(id).unwrap().is_none());
    assert_eq!(
        st.update_execution_status(id, ExecutionStatus::Failed).unwrap_err(),
        format!("execution {} not found", id.to_text())
    );
    st.create_execution(id).unwrap();
    st.update_execution_status(id, ExecutionStatus::Suspended).unwrap();
    let m = st.get_execution(id).unwrap().unwrap();
    assert_eq!(m.status, ExecutionStatus::Suspended);
    assert_eq!(st.list_executions(Some(ExecutionStatus::Suspended)).unwrap().len(), 1);
    assert_eq!(st.list_executions(Some(ExecutionStatus::Running)).unwrap().len(), 0);
    st.delete_execution(id).unwrap();
    assert!(st.get_execution(id).unwrap().is_none());
}

#[test]
fn steps_are_recorded_and_found() {
    let mut st = InMemoryStorage::new();
    let id = ExecutionId::new();
    st.create_execution(id).unwrap();
    st.log_step_start(key(id, 1, "b")).unwrap();
    st.log_step_start(key(id, 0, "a")).unwrap();
    st.log_step_completion(&key(id, 0, "a"), None, Some("oops".to_string()), true).unwrap();
    let r = st.get_step(&key(id, 0, "a")).unwrap().unwrap();
    assert_eq!(r.status, StepStatus::Failed);
    assert!(r.retryable);
    let steps = st.get_steps(id).unwrap();
    assert_eq!(steps.iter().map(|s| s.key.step_number).collect::<Vec<_>>(), vec![0, 1]);
    assert_eq!(st.get_step_by_number(id, 1).unwrap().unwrap().key.step_name, "b");
    assert!(st.log_step_completion(&key(id, 5, "z"), None, None, false).is_err());
}

#[test]
fn signals_timers_tags() {
    let mut st = InMemoryStorage::new();
    let id = ExecutionId::new();
    st.store_signal(id, "s", "1").unwrap();
    assert_eq!(st.peek_signal(id, "s").unwrap().as_deref(), Some("1"));
    assert_eq!(st.consume_signal(id, "s").unwrap().as_deref(), Some("1"));
    assert!(st.consume_signal(id, "s").unwrap().is_none());
    st.create_timer(id, "t", 5).unwrap();
    let due = st.expired_timers_at(10);
    assert_eq!(due.len(), 1);
    assert_eq!(due[0].1, "t");
    assert!(st.expired_timers_at(4).is_empty());
    st.delete_timer(id, "t").unwrap();
    assert!(st.expired_timers_at(10).is_empty());
    st.set_tag(id, "k", "v").unwrap();
    assert_eq!(st.get_tag(id, "k").unwrap().as_deref(), Some("v"));
}

#[test]
fn cleanup_removes_old_executions() {
    let mut st = InMemoryStorage::new();
    let id = ExecutionId::new();
    st.create_execution(id).unwrap();
    assert_eq!(st.cleanup_created_before(0), 0);
    assert_eq!(st.cleanup_created_before(u64::MAX), 1);
    assert!(st.get_execution(id).unwrap().is_none());
}

#[test]
fn executions_are_listed_by_identifier() {
    let mut st = InMemoryStorage::new();
    let mk = |first: u8, last: u8| {
        let mut b = [0u8; 16];
        b[0] = first;
        b[15] = last;
        ExecutionId::from_uuid(Uuid::from_bytes(b))
    };
    let ids = [mk(0xb0, 1), mk(0x0a, 9), mk(0xb0, 0), mk(0xff, 0)];
    for id in ids {
        st.create_execution(id).unwrap();
    }
    let listed: Vec<String> = st.list_executions(None).unwrap().iter().map(|m| m.id.to_text()).collect();
    assert_eq!(
        listed,
        vec![
            "0a000000-0000-0000-0000-000000000009".to_string(),
            "b0000000-0000-0000-0000-000000000000".to_string(),
            "b0000000-0000-0000-0000-000000000001".to_string(),
            "ff000000-0000-0000-0000-000000000000".to_string(),
        ]
    );
}

#[test]
fn inspector_lists_what_the_store_lists() {
    let mut st = InMemoryStorage::new();
    let id = ExecutionId::new();
    st.create_execution(id).unwrap();
    st.log_step_start(key(id, 2, "c")).unwrap();
    st.log_step_start(key(id, 0, "a")).unwrap();
    st.log_step_start(key(id, 1, "b")).unwrap();
    let direct: Vec<u64> = st.get_steps(id).unwrap().iter().map(|s| s.key.step_number).collect();
    let inspector = lib::inspect::ExecutionInspector::new(&st);
    let seen: Vec<u64> = inspector.get_steps(id).unwrap().iter().map(|s| s.key.step_number).collect();
    assert_eq!(direct, vec![0, 1, 2]);
    assert_eq!(seen, direct);
}
