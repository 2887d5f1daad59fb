use nodestat::models::{JobState, NodeState};
use nodestat::scheduler::FetchError;
use nodestat::slurm::SlurmScheduler;

#[test]
fn duration_reads_last_three_colon_groups() {
    assert_eq!(SlurmScheduler::parse_duration("01:02:03"), 3723);
    // a leading day component is ignored by design
    assert_eq!(SlurmScheduler::parse_duration("1-01:02:03"), 3723);
    assert_eq!(SlurmScheduler::parse_duration("00:00:00"), 0);
    assert_eq!(SlurmScheduler::parse_duration("02:03"), 0);
    assert_eq!(SlurmScheduler::parse_duration(""), 0);
    assert_eq!(SlurmScheduler::parse_duration("xx:02:03"), 123);
}

#[test]
fn node_states_map_case_insensitively() {
    assert_eq!(SlurmScheduler::parse_node_state("idle"), NodeState::Idle);
    assert_eq!(SlurmScheduler::parse_node_state("IDLE"), NodeState::Idle);
    assert_eq!(SlurmScheduler::parse_node_state("Mixed"), NodeState::Running);
    assert_eq!(SlurmScheduler::parse_node_state("alloc"), NodeState::Running);
    assert_eq!(SlurmScheduler::parse_node_state("down"), NodeState::Down);
    assert_eq!(SlurmScheduler::parse_node_state("DOWN*"), NodeState::Down);
    assert_eq!(SlurmScheduler::parse_node_state("drained"), NodeState::Drained);
    assert_eq!(SlurmScheduler::parse_node_state("anything"), NodeState::Offline);
}

#[test]
fn job_states_map_by_first_letter() {
    assert_eq!(SlurmScheduler::parse_job_state("RUNNING"), JobState::Running);
    assert_eq!(SlurmScheduler::parse_job_state("PD"), JobState::Pending);
    assert_eq!(SlurmScheduler::parse_job_state("COMPLETED"), JobState::Completed);
    assert_eq!(SlurmScheduler::parse_job_state("FAILED"), JobState::Failed);
    assert_eq!(SlurmScheduler::parse_job_state(""), JobState::Failed);
    assert_eq!(SlurmScheduler::parse_job_state("X"), JobState::Failed);
}

#[test]
fn node_block_parses_recognized_keys() {
    let block = "NodeName=c01 State=MIXED CPUAlloc=4 CPUTot=16 AllocMem=2000 \
                 RealMemory=8000 Partitions=batch,debug Weight=1";
    let n = SlurmScheduler::parse_node_info(block, "batch").expect("node");
    assert_eq!(n.id, "c01");
    assert_eq!(n.state, NodeState::Running);
    assert_eq!(n.used_cores, 4);
    assert_eq!(n.total_cores, 16);
    assert_eq!(n.used_mem_mb, 2000);
    assert_eq!(n.total_mem_mb, 8000);
    assert_eq!(n.partitions, vec!["batch".to_string(), "debug".to_string()]);
    assert!(n.jobs.is_empty());
}

#[test]
fn node_block_outside_partition_or_nameless_is_dropped() {
    let block = "NodeName=c01 State=IDLE CPUTot=16 Partitions=batch";
    assert!(SlurmScheduler::parse_node_info(block, "gpu_q").is_none());
    let nameless = "State=IDLE CPUTot=16 Partitions=batch";
    assert!(SlurmScheduler::parse_node_info(nameless, "batch").is_none());
}

#[test]
fn unparseable_numeric_values_are_ignored() {
    let block = "NodeName=c01 State=IDLE CPUAlloc=oops CPUTot=16 Partitions=batch";
    let n = SlurmScheduler::parse_node_info(block, "batch").expect("node");
    assert_eq!(n.used_cores, 0);
    assert_eq!(n.total_cores, 16);
}

#[test]
fn job_line_parses_all_fields() {
    let line = "batch|c[01-02],c05|1234|alice|sim|RUNNING|2|8|4000Mn|01:00:00|00:30:00|02:00:00";
    let j = SlurmScheduler::parse_job_line(line, "batch", 77).expect("job");
    assert_eq!(j.id, "1234");
    assert_eq!(j.user, "alice");
    assert_eq!(j.name, "sim");
    assert_eq!(j.state, JobState::Running);
    assert_eq!(j.partition, "batch");
    assert_eq!(j.node_list, vec!["c[01-02]".to_string(), "c05".to_string()]);
    assert_eq!(j.req_nodes, 2);
    assert_eq!(j.req_cpus, 8);
    assert_eq!(j.req_mem_mb, 4000);
    assert_eq!(j.time_limit, 3600);
    assert_eq!(j.elapsed, 1800);
    assert_eq!(j.cpu_time, 7200);
    assert_eq!(j.submit_time, 77);
}

#[test]
fn job_line_filters_partition_extern_and_state() {
    let base = "batch|c01|1234|alice|sim|RUNNING|1|8|4000Mn|01:00:00|00:30:00|02:00:00";
    assert!(SlurmScheduler::parse_job_line(base, "gpu_q", 0).is_none());
    let ext = "batch|c01|1234.extern|alice|sim|RUNNING|1|8|4000Mn|01:00:00|00:30:00|02:00:00";
    assert!(SlurmScheduler::parse_job_line(ext, "batch", 0).is_none());
    let pending = "batch|c01|1234|alice|sim|PENDING|1|8|4000Mn|01:00:00|00:30:00|02:00:00";
    assert!(SlurmScheduler::parse_job_line(pending, "batch", 0).is_none());
    let short = "batch|c01|1234|alice|sim|RUNNING|1|8";
    assert!(SlurmScheduler::parse_job_line(short, "batch", 0).is_none());
}

#[test]
fn memory_suffixes_use_the_literal_replacements() {
    let g = "batch|c01|1|u|j|R|1|1|4Gn|01:00:00|01:00:00|01:00:00";
    assert_eq!(SlurmScheduler::parse_job_line(g, "batch", 0).unwrap().req_mem_mb, 4000);
    let mc = "batch|c01|1|u|j|R|1|1|512Mc|01:00:00|01:00:00|01:00:00";
    assert_eq!(SlurmScheduler::parse_job_line(mc, "batch", 0).unwrap().req_mem_mb, 512);
    let bad = "batch|c01|1|u|j|R|1|1|weird|01:00:00|01:00:00|01:00:00";
    assert_eq!(SlurmScheduler::parse_job_line(bad, "batch", 0).unwrap().req_mem_mb, 0);
}

#[test]
fn nodes_from_output_splits_blocks_and_keeps_order() {
    let out = "NodeName=c01 State=IDLE CPUAlloc=0 CPUTot=16\n\
               \x20  AllocMem=0 RealMemory=8000\n\
               \x20  Partitions=batch\n\
               NodeName=c02 State=MIXED CPUAlloc=8 CPUTot=16\n\
               \x20  AllocMem=4000 RealMemory=8000\n\
               \x20  Partitions=batch\n";
    let nodes = SlurmScheduler::nodes_from_output(true, out, "", "batch").expect("nodes");
    assert_eq!(nodes.len(), 2);
    assert_eq!(nodes[0].id, "c01");
    assert_eq!(nodes[1].id, "c02");
    assert_eq!(nodes[1].used_mem_mb, 4000);
}

#[test]
fn failed_command_surfaces_command_and_stderr() {
    let r = SlurmScheduler::nodes_from_output(false, "", "permission denied", "batch");
    match r {
        Err(FetchError::CommandFailed { command, detail }) => {
            assert_eq!(command, "scontrol");
            assert_eq!(detail, "permission denied");
        }
        _ => panic!("expected a command failure"),
    }
}

#[test]
fn empty_partition_after_success_is_its_own_error() {
    let out = "NodeName=c01 State=IDLE CPUTot=16 Partitions=other\n";
    let r = SlurmScheduler::nodes_from_output(true, out, "", "batch");
    match r {
        Err(FetchError::NoNodesInPartition { partition }) => {
            assert_eq!(partition, "batch");
        }
        _ => panic!("expected the empty-partition error"),
    }
}

#[test]
fn jobs_output_skips_the_header_row() {
    let out = "Partition|NodeList|JobID|User|JobName|State|ReqNodes|ReqCPUS|ReqMem|Timelimit|Elapsed|CPUTime\n\
               batch|c01|1|u|j|R|1|1|100Mn|00:01:00|00:01:00|00:01:00\n";
    let jobs = SlurmScheduler::jobs_from_output(true, out, "", "batch", 5).expect("jobs");
    assert_eq!(jobs.len(), 1);
    assert_eq!(jobs[0].id, "1");
    let empty = SlurmScheduler::jobs_from_output(true, "", "", "batch", 5).expect("jobs");
    assert!(empty.is_empty());
}

#[test]
fn user_jobs_ignore_partition_but_keep_the_filters() {
    let out = "header\n\
               gpu_q|c01|1|u|j|R|1|1|100Mn|00:01:00|00:01:00|00:01:00\n\
               gpu_q|c01|2.extern|u|j|R|1|1|100Mn|00:01:00|00:01:00|00:01:00\n\
               gpu_q|c01|3|u|j|PD|1|1|100Mn|00:01:00|00:01:00|00:01:00\n";
    let jobs = SlurmScheduler::user_jobs_from_output(true, out, "", 5).expect("jobs");
    assert_eq!(jobs.len(), 1);
    assert_eq!(jobs[0].id, "1");
    assert_eq!(jobs[0].partition, "gpu_q");
}
