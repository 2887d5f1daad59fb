use nodestat::models::{ClusterStats, Node, NodeState};
use nodestat::pipeline::{calculate_stats, sort_nodes, Dashboard};
use nodestat::scheduler::FetchError;
use nodestat::slurm::SlurmScheduler;

fn node(id: &str, state: NodeState, tc: u32, uc: u32, tm: u32, um: u32) -> Node {
    Node {
        id: id.to_string(),
        state,
        total_cores: tc,
        used_cores: uc,
        total_mem_mb: tm,
        used_mem_mb: um,
        partitions: vec!["batch".to_string()],
        jobs: Vec::new(),
    }
}

fn ids(nodes: &[Node]) -> Vec<String> {
    nodes.iter().map(|n| n.id.clone()).collect()
}

#[test]
fn sort_puts_available_first_by_power_then_running_then_busy() {
    let input = vec![
        node("down", NodeState::Down, 16, 0, 8000, 0),
        node("busy", NodeState::Busy, 16, 16, 8000, 8000),
        node("weak", NodeState::Idle, 16, 12, 8000, 4000),
        node("run-full", NodeState::Running, 16, 16, 8000, 4000),
        node("strong", NodeState::Idle, 16, 0, 8000, 0),
    ];
    let sorted = sort_nodes(input);
    assert_eq!(ids(&sorted), vec!["strong", "weak", "run-full", "busy", "down"]);
}

#[test]
fn sort_is_stable_for_equal_rank() {
    let input = vec![
        node("a", NodeState::Idle, 16, 8, 8000, 4000),
        node("b", NodeState::Idle, 16, 8, 8000, 4000),
        node("x", NodeState::Down, 16, 0, 8000, 0),
        node("y", NodeState::Down, 16, 0, 8000, 0),
    ];
    let sorted = sort_nodes(input);
    assert_eq!(ids(&sorted), vec!["a", "b", "x", "y"]);
}

#[test]
fn stats_sum_exactly_and_clamp_available() {
    let nodes = vec![
        node("a", NodeState::Idle, 16, 4, 8000, 2000),
        node("b", NodeState::Down, 32, 30, 16000, 12000),
    ];
    let s: ClusterStats = calculate_stats(&nodes);
    assert_eq!(s.total_nodes, 2);
    assert_eq!(s.avail_nodes, 1);
    assert_eq!(s.total_cores, 48);
    assert_eq!(s.used_cores, 34);
    assert_eq!(s.avail_cores, 14);
    assert_eq!(s.total_memory_gb, 24);
    assert_eq!(s.used_memory_gb, 14);
    assert_eq!(s.avail_memory_gb, 10);
}

#[test]
fn failed_fetch_keeps_data_and_sets_message_until_a_success() {
    let mut d = Dashboard::new("batch".to_string(), "alice".to_string());
    d.apply_node_fetch(Ok(vec![node("a", NodeState::Idle, 16, 4, 8000, 2000)]));
    assert_eq!(ids(&d.nodes), vec!["a"]);
    assert!(d.error_message.is_none());
    let before_cores = d.stats.total_cores;

    d.apply_node_fetch(Err(FetchError::CommandFailed {
        command: "scontrol".to_string(),
        detail: "boom".to_string(),
    }));
    assert_eq!(ids(&d.nodes), vec!["a"]);
    assert_eq!(d.stats.total_cores, before_cores);
    assert_eq!(
        d.error_message.as_deref(),
        Some("Failed to get nodes: scontrol command failed: boom")
    );

    d.apply_node_fetch(Ok(vec![node("b", NodeState::Idle, 32, 0, 16000, 0)]));
    assert_eq!(ids(&d.nodes), vec!["b"]);
    assert!(d.error_message.is_none());
    assert_eq!(d.stats.total_cores, 32);
}

#[test]
fn empty_partition_error_message_names_the_partition() {
    let mut d = Dashboard::new("batch".to_string(), "alice".to_string());
    let out = "NodeName=c01 State=IDLE CPUTot=16 Partitions=other\n";
    let r = SlurmScheduler::nodes_from_output(true, out, "", "batch");
    d.apply_node_fetch(r);
    assert_eq!(
        d.error_message.as_deref(),
        Some("Failed to get nodes: No nodes found in partition: batch")
    );
}

#[test]
fn refresh_is_deterministic_for_identical_output() {
    let out = "NodeName=c01 State=IDLE CPUAlloc=0 CPUTot=16 RealMemory=8000 Partitions=batch\n\
               NodeName=c02 State=MIXED CPUAlloc=8 CPUTot=16 AllocMem=4000 RealMemory=8000 Partitions=batch\n";
    let mut d1 = Dashboard::new("batch".to_string(), "alice".to_string());
    let mut d2 = Dashboard::new("batch".to_string(), "alice".to_string());
    d1.apply_node_fetch(SlurmScheduler::nodes_from_output(true, out, "", "batch"));
    d2.apply_node_fetch(SlurmScheduler::nodes_from_output(true, out, "", "batch"));
    assert_eq!(ids(&d1.nodes), ids(&d2.nodes));
    assert_eq!(d1.stats.total_cores, d2.stats.total_cores);
    assert_eq!(d1.stats.used_cores, d2.stats.used_cores);
    assert_eq!(d1.stats.avail_cores, d2.stats.avail_cores);
    assert_eq!(d1.stats.total_memory_gb, d2.stats.total_memory_gb);
    assert_eq!(d1.stats.used_memory_gb, d2.stats.used_memory_gb);
    assert_eq!(d1.stats.avail_memory_gb, d2.stats.avail_memory_gb);
    assert_eq!(d1.stats.total_nodes, d2.stats.total_nodes);
    assert_eq!(d1.stats.avail_nodes, d2.stats.avail_nodes);
    // a second refresh of the same dashboard leaves the order unchanged too
    let before = ids(&d1.nodes);
    d1.apply_node_fetch(SlurmScheduler::nodes_from_output(true, out, "", "batch"));
    assert_eq!(ids(&d1.nodes), before);
}

#[test]
fn job_fetch_failures_are_absorbed() {
    let mut d = Dashboard::new("batch".to_string(), "alice".to_string());
    let jobs = SlurmScheduler::jobs_from_output(
        true,
        "h\nbatch|c01|1|u|j|R|1|1|100Mn|00:01:00|00:01:00|00:01:00\n",
        "",
        "batch",
        0,
    );
    d.apply_jobs_fetch(jobs);
    assert_eq!(d.jobs.len(), 1);
    d.apply_jobs_fetch(Err(FetchError::CommandFailed {
        command: "sacct".to_string(),
        detail: "down".to_string(),
    }));
    assert_eq!(d.jobs.len(), 1);
    assert!(d.error_message.is_none());
}

#[test]
fn selection_moves_wrap_and_clamp() {
    let mut d = Dashboard::new("batch".to_string(), "alice".to_string());
    d.next_node();
    assert_eq!(d.selected, None);
    d.apply_node_fetch(Ok(vec![
        node("a", NodeState::Idle, 16, 0, 8000, 0),
        node("b", NodeState::Idle, 16, 4, 8000, 0),
        node("c", NodeState::Down, 16, 0, 8000, 0),
    ]));
    d.next_node();
    assert_eq!(d.selected, Some(0));
    d.next_node();
    assert_eq!(d.selected, Some(1));
    d.previous_node();
    assert_eq!(d.selected, Some(0));
    d.previous_node();
    assert_eq!(d.selected, Some(2));
    d.next_node();
    assert_eq!(d.selected, Some(0));
    d.select_row(2);
    assert_eq!(d.selected, Some(2));
    d.select_row(9);
    assert_eq!(d.selected, Some(2));
    // the selection is clamped when the collection shrinks
    d.apply_node_fetch(Ok(vec![node("only", NodeState::Idle, 16, 0, 8000, 0)]));
    assert_eq!(d.selected, Some(0));
    d.apply_node_fetch(Err(FetchError::CommandFailed {
        command: "x".to_string(),
        detail: "y".to_string(),
    }));
    assert_eq!(d.selected, Some(0));
}

#[test]
fn user_job_highlighting_matches_running_jobs_on_the_node() {
    let mut d = Dashboard::new("batch".to_string(), "alice".to_string());
    let jobs = SlurmScheduler::user_jobs_from_output(
        true,
        "h\nbatch|c01,c02|1|alice|j|R|1|1|100Mn|00:01:00|00:01:00|00:01:00\n",
        "",
        0,
    );
    d.apply_user_jobs_fetch(jobs);
    assert!(d.user_has_jobs_on_node("c01"));
    assert!(d.user_has_jobs_on_node("c02"));
    assert!(!d.user_has_jobs_on_node("c03"));
}
