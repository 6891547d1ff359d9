use lib::coordinator::AgentCoordinator;
use lib::dag::{validate_graph, DagExecutor, DagNode};
use lib::hash::fnv1a_hash;
use lib::types::ExecutionId;
use lib::uuid::Uuid;

fn node(id: &str, deps: &[&str]) -> DagNode {
    DagNode { id: id.to_string(), dependencies: deps.iter().map(|d| d.to_string()).collect() }
}

#[test]
fn valid_dag_levels() {
    let mut d = DagExecutor::new();
    d.add_step("a".to_string(), vec![]);
    d.add_step("b".to_string(), vec!["a".to_string()]);
    d.add_step("c".to_string(), vec!["a".to_string()]);
    d.add_step("d".to_string(), vec!["b".to_string(), "c".to_string()]);
    assert!(d.validate().is_ok());
    assert_eq!(d.compute_levels(), vec![vec![0], vec![1, 2], vec![3]]);
}

#[test]
fn missing_dependency_is_reported() {
    let mut d = DagExecutor::new();
    d.add_step("a".to_string(), vec!["ghost".to_string()]);
    assert_eq!(d.validate().unwrap_err(), "step 'a' depends on 'ghost' which doesn't exist");
}

#[test]
fn cycle_is_reported() {
    let mut d = DagExecutor::new();
    d.add_step("a".to_string(), vec!["b".to_string()]);
    d.add_step("b".to_string(), vec!["a".to_string()]);
    assert_eq!(d.validate().unwrap_err(), "cycle detected in step DAG");
}

#[test]
fn self_dependency_and_duplicates_are_cycles() {
    assert_eq!(validate_graph(&vec![node("a", &["a"])], "worker").unwrap_err(), "cycle detected in worker DAG");
    assert_eq!(validate_graph(&vec![node("a", &[]), node("a", &[])], "step").unwrap_err(), "cycle detected in step DAG");
}

#[test]
fn empty_dag() {
    let d = DagExecutor::new();
    assert!(d.validate().is_ok());
    assert_eq!(d.compute_levels(), vec![Vec::<usize>::new()]);
}

#[test]
fn levels_follow_longest_chain() {
    let nodes = vec![node("x", &["w"]), node("w", &["v"]), node("v", &[]), node("y", &["v"])];
    assert!(validate_graph(&nodes, "step").is_ok());
    assert_eq!(lib::dag::compute_levels(&nodes), vec![vec![2], vec![1, 3], vec![0]]);
}

#[test]
fn coordinator_graph_checks() {
    let mut c = AgentCoordinator::new();
    c.add_worker("research".to_string(), vec![]);
    c.add_worker("write".to_string(), vec!["research".to_string()]);
    assert!(c.validate().is_ok());
    assert_eq!(c.compute_levels(), vec![vec![0], vec![1]]);
    assert_eq!(c.workers().len(), 2);
    c.add_worker("edit".to_string(), vec!["proofread".to_string()]);
    assert_eq!(c.validate().unwrap_err(), "worker 'edit' depends on 'proofread' which doesn't exist");
    let mut d = AgentCoordinator::default();
    d.add_worker("x".to_string(), vec!["y".to_string()]);
    d.add_worker("y".to_string(), vec!["x".to_string()]);
    assert_eq!(d.validate().unwrap_err(), "cycle detected in worker DAG");
}

#[test]
fn coordinator_child_ids_are_deterministic() {
    let coord = ExecutionId::from_uuid(Uuid::parse("550e8400-e29b-41d4-a716-446655440000").unwrap());
    let id = AgentCoordinator::child_id(&coord, "researcher");
    let seed = format!("{}:{}", coord.to_text(), "researcher");
    let hash1 = fnv1a_hash(seed.as_bytes());
    let hash2 = fnv1a_hash(b"researcher");
    let expected = format!(
        "{:08x}-{:04x}-4{:03x}-{:04x}-{:012x}",
        (hash1 >> 32) as u32,
        (hash1 >> 16) as u16,
        (hash1 & 0xFFF) as u16,
        (0x8000 | (hash2 & 0x3FFF)) as u16,
        hash2 & 0xFFFFFFFFFFFF,
    );
    assert_eq!(id.to_text(), expected);
    assert!(AgentCoordinator::child_id(&coord, "researcher").same(&id));
    assert!(!AgentCoordinator::child_id(&coord, "writer").same(&id));
}
