use nodestat::models::{Node, NodeState};

fn node(state: NodeState, tc: u32, uc: u32, tm: u32, um: u32) -> Node {
    Node {
        id: String::from("n1"),
        state,
        total_cores: tc,
        used_cores: uc,
        total_mem_mb: tm,
        used_mem_mb: um,
        partitions: vec![String::from("batch")],
        jobs: Vec::new(),
    }
}

#[test]
fn available_cores_is_clamped_difference() {
    assert_eq!(node(NodeState::Idle, 16, 4, 8000, 2000).available_cores(), 12);
    assert_eq!(node(NodeState::Idle, 16, 16, 8000, 2000).available_cores(), 0);
    // used may exceed total through reporting noise; the result clamps at 0
    assert_eq!(node(NodeState::Idle, 16, 20, 8000, 2000).available_cores(), 0);
}

#[test]
fn available_mem_gb_divides_by_decimal_thousand() {
    assert_eq!(node(NodeState::Idle, 16, 0, 8000, 2000).available_mem_gb(), 6);
    assert_eq!(node(NodeState::Idle, 16, 0, 8000, 7500).available_mem_gb(), 0);
    assert_eq!(node(NodeState::Idle, 16, 0, 2000, 8000).available_mem_gb(), 0);
    assert_eq!(node(NodeState::Idle, 16, 0, 1024, 0).total_mem_gb(), 1);
    assert_eq!(node(NodeState::Idle, 16, 0, 8000, 1999).used_mem_gb(), 1);
}

#[test]
fn is_available_requires_state_cores_and_memory() {
    assert!(node(NodeState::Idle, 16, 4, 8000, 2000).is_available());
    assert!(node(NodeState::Running, 16, 4, 8000, 2000).is_available());
    assert!(!node(NodeState::Down, 16, 4, 8000, 2000).is_available());
    assert!(!node(NodeState::Offline, 16, 4, 8000, 2000).is_available());
    assert!(!node(NodeState::Busy, 16, 4, 8000, 2000).is_available());
    assert!(!node(NodeState::Drained, 16, 4, 8000, 2000).is_available());
    // no spare core
    assert!(!node(NodeState::Idle, 16, 16, 8000, 2000).is_available());
    // less than one whole spare gigabyte
    assert!(!node(NodeState::Idle, 16, 4, 8000, 7100).is_available());
}
