use nodestat::mock::{
    MockScheduler, BATCH_CORE_BASE, BATCH_CORE_SPAN, BATCH_NODE_COUNT, GPU_NODE_COUNT,
    HIGHMEM_NODE_COUNT,
};
use nodestat::models::{JobState, NodeState};
use nodestat::scheduler::FetchError;

#[test]
fn batch_partition_has_the_documented_shape() {
    let m = MockScheduler::new();
    let nodes = m.get_nodes("batch").expect("nodes");
    assert_eq!(nodes.len(), BATCH_NODE_COUNT);
    assert_eq!(nodes[0].id, "batch001");
    assert_eq!(nodes[24].id, "batch025");
    for n in &nodes {
        assert!(n.total_cores >= BATCH_CORE_BASE);
        assert!(n.total_cores < BATCH_CORE_BASE + BATCH_CORE_SPAN);
        assert!(n.total_mem_mb >= 128_000 && n.total_mem_mb < 384_000);
        assert!(n.used_cores <= n.total_cores);
        assert!(n.used_mem_mb <= n.total_mem_mb);
        assert_eq!(n.partitions, vec!["batch".to_string()]);
        assert!(matches!(
            n.state,
            NodeState::Idle | NodeState::Running | NodeState::Down | NodeState::Busy
        ));
        if n.state == NodeState::Idle {
            assert_eq!(n.used_cores, 0);
        }
        if n.state == NodeState::Busy {
            assert_eq!(n.used_cores, n.total_cores);
        }
        let expect_jobs = n.state == NodeState::Running && n.used_cores > 0;
        assert_eq!(!n.jobs.is_empty(), expect_jobs);
        assert!(n.jobs.len() <= 3);
    }
}

#[test]
fn other_partitions_have_their_counts_and_prefixes() {
    let m = MockScheduler::new();
    let h = m.get_nodes("highmem_q").expect("nodes");
    assert_eq!(h.len(), HIGHMEM_NODE_COUNT);
    assert_eq!(h[0].id, "highmem001");
    let g = m.get_nodes("gpu_q").expect("nodes");
    assert_eq!(g.len(), GPU_NODE_COUNT);
    assert_eq!(g[0].id, "gpu001");
}

#[test]
fn unknown_partition_is_an_invalid_partition_error() {
    let m = MockScheduler::new();
    match m.get_nodes("nope") {
        Err(FetchError::NoNodesInPartition { partition }) => assert_eq!(partition, "nope"),
        _ => panic!("expected the invalid-partition error"),
    }
}

#[test]
fn generated_jobs_stay_in_their_bands() {
    let m = MockScheduler::new();
    let jobs = m.get_jobs("batch", 123).expect("jobs");
    assert!(jobs.len() >= 10 && jobs.len() < 30);
    for (i, j) in jobs.iter().enumerate() {
        assert_eq!(j.state, JobState::Running);
        assert_eq!(j.partition, "batch");
        assert_eq!(j.name, format!("job_{}", i + 1));
        assert!(j.req_nodes >= 1 && j.req_nodes < 5);
        assert!(j.req_cpus >= 8 && j.req_cpus < 40);
        assert!(j.req_mem_mb >= 16_000 && j.req_mem_mb < 144_000);
        assert_eq!(j.time_limit, 86_400);
        assert!(j.elapsed < 86_400);
        assert_eq!(j.submit_time, 123);
        assert_eq!(j.node_list.len(), 1);
        assert!(j.node_list[0].starts_with("batch"));
    }
}

#[test]
fn generated_user_jobs_belong_to_the_user() {
    let m = MockScheduler::new();
    let jobs = m.get_user_jobs("someone", 5).expect("jobs");
    assert!(jobs.len() < 4);
    for (i, j) in jobs.iter().enumerate() {
        assert_eq!(j.user, "someone");
        assert_eq!(j.name, format!("my_job_{}", i + 1));
        assert_eq!(j.partition, "batch");
        assert_eq!(j.time_limit, 43_200);
        assert!(j.node_list[0].starts_with("batch"));
    }
}
