use nodestat::models::{JobState, NodeState};
use nodestat::scheduler::FetchError;
use nodestat::torque::TorqueScheduler;

#[test]
fn duration_reads_the_first_three_colon_groups() {
    assert_eq!(TorqueScheduler::parse_duration("01:02:03"), 3723);
    // a day prefix corrupts the hour field, which then counts as zero
    assert_eq!(TorqueScheduler::parse_duration("1-01:02:03"), 123);
    assert_eq!(TorqueScheduler::parse_duration("02:03"), 0);
    assert_eq!(TorqueScheduler::parse_duration(""), 0);
}

#[test]
fn torque_node_states_map_case_insensitively() {
    assert_eq!(TorqueScheduler::parse_node_state("idle"), NodeState::Idle);
    assert_eq!(TorqueScheduler::parse_node_state("Busy"), NodeState::Busy);
    assert_eq!(TorqueScheduler::parse_node_state("DOWN"), NodeState::Down);
    assert_eq!(TorqueScheduler::parse_node_state("offline"), NodeState::Offline);
    assert_eq!(TorqueScheduler::parse_node_state("Drained"), NodeState::Drained);
    assert_eq!(TorqueScheduler::parse_node_state("odd"), NodeState::Offline);
}

#[test]
fn job_states_map_by_exact_letter() {
    assert_eq!(TorqueScheduler::parse_job_state("R"), JobState::Running);
    assert_eq!(TorqueScheduler::parse_job_state("Q"), JobState::Pending);
    assert_eq!(TorqueScheduler::parse_job_state("H"), JobState::Pending);
    assert_eq!(TorqueScheduler::parse_job_state("C"), JobState::Completed);
    assert_eq!(TorqueScheduler::parse_job_state("E"), JobState::Failed);
    assert_eq!(TorqueScheduler::parse_job_state("RR"), JobState::Failed);
}

#[test]
fn node_line_reads_available_total_pairs() {
    let line = "node1     Idle      4:16      2000:8000    [batch]";
    let n = TorqueScheduler::parse_node_info(line, "batch").expect("node");
    assert_eq!(n.id, "node1");
    assert_eq!(n.state, NodeState::Idle);
    assert_eq!(n.used_cores, 12);
    assert_eq!(n.total_cores, 16);
    assert_eq!(n.used_mem_mb, 6000);
    assert_eq!(n.total_mem_mb, 8000);
    assert_eq!(n.partitions, vec!["batch".to_string()]);
}

#[test]
fn node_line_with_adjacent_second_tag_is_skipped() {
    let line = "node1  Idle  4:16  2000:8000  [batch][extra]";
    assert!(TorqueScheduler::parse_node_info(line, "batch").is_none());
    let other = "node1  Idle  4:16  2000:8000  [gpu]";
    assert!(TorqueScheduler::parse_node_info(other, "batch").is_none());
    let short = "node1  Idle  [batch]";
    assert!(TorqueScheduler::parse_node_info(short, "batch").is_none());
    let bad_pair = "node1  Idle  4:x  2000:8000  [batch]";
    assert!(TorqueScheduler::parse_node_info(bad_pair, "batch").is_none());
}

#[test]
fn job_block_extracts_attributes_by_substring() {
    let text = "Job Id: 42.master\n\
                \x20   Job_Name = sim\n\
                \x20   Job_Owner = alice@login1\n\
                \x20   resources_used.cput = 02:00:00\n\
                \x20   resources_used.walltime = 01:00:00\n\
                \x20   Resource_List.walltime = 10:00:00\n\
                \x20   job_state = R\n\
                \x20   Resource_List.mem = 2gb\n\
                \x20   Resource_List.nodes = 1:ppn=4\n\
                \x20   exec_host = n001/0-3\n";
    let j = TorqueScheduler::parse_job_info(text, 9).expect("job");
    assert_eq!(j.id, "42.master");
    assert_eq!(j.name, "sim");
    assert_eq!(j.user, "alice");
    assert_eq!(j.state, JobState::Running);
    assert_eq!(j.node_list, vec!["n001".to_string()]);
    assert_eq!(j.partition, "default");
    assert_eq!(j.req_nodes, 1);
    assert_eq!(j.req_cpus, 4);
    assert_eq!(j.req_mem_mb, 2000);
    assert_eq!(j.time_limit, 36000);
    assert_eq!(j.elapsed, 3600);
    assert_eq!(j.cpu_time, 7200);
    assert_eq!(j.submit_time, 9);
}

#[test]
fn only_running_job_blocks_are_kept() {
    let text = "Job Id: 42\n    job_state = Q\n";
    assert!(TorqueScheduler::parse_job_info(text, 0).is_none());
}

#[test]
fn memory_fallbacks_are_permissive() {
    let gb_bad = "Job Id: 1\n    job_state = R\n    Resource_List.mem = oddgb\n";
    assert_eq!(TorqueScheduler::parse_job_info(gb_bad, 0).unwrap().req_mem_mb, 1000);
    let mb = "Job Id: 1\n    job_state = R\n    Resource_List.mem = 512mb\n";
    assert_eq!(TorqueScheduler::parse_job_info(mb, 0).unwrap().req_mem_mb, 512);
    let none = "Job Id: 1\n    job_state = R\n";
    // the default is 1gb, scaled to megabytes
    assert_eq!(TorqueScheduler::parse_job_info(none, 0).unwrap().req_mem_mb, 1000);
}

#[test]
fn nodes_from_output_reports_both_error_kinds() {
    match TorqueScheduler::nodes_from_output(false, "", "boom", "batch") {
        Err(FetchError::CommandFailed { command, detail }) => {
            assert_eq!(command, "mdiag");
            assert_eq!(detail, "boom");
        }
        _ => panic!("expected a command failure"),
    }
    match TorqueScheduler::nodes_from_output(true, "header only\n", "", "batch") {
        Err(FetchError::NoNodesInPartition { partition }) => assert_eq!(partition, "batch"),
        _ => panic!("expected the empty-partition error"),
    }
}

#[test]
fn jobs_from_output_groups_blocks_under_headers() {
    let out = "Job Id: 1.m\n\
               \x20   job_state = R\n\
               \x20   Job_Owner = a@h\n\
               Job Id: 2.m\n\
               \x20   job_state = C\n\
               Job Id: 3.m\n\
               \x20   job_state = R\n\
               \x20   Job_Owner = b@h\n";
    let jobs = TorqueScheduler::jobs_from_output(true, out, "", 0).expect("jobs");
    assert_eq!(jobs.len(), 2);
    assert_eq!(jobs[0].id, "1.m");
    assert_eq!(jobs[0].user, "a");
    assert_eq!(jobs[1].id, "3.m");
}

#[test]
fn user_jobs_skip_two_headers_and_fixed_state_column() {
    let out = "Job ID    Username  Jobname  SessID  S  NDS  TSK  Node  Req'd-Time  x  Elap-Time\n\
               --------  --------  -------  ------  -  ---  ---  ----  ----------  -  ---------\n\
               11.m      alice     sim      1       R  1    4    n001  01:00:00    z  00:10:00\n\
               12.m      bob       sim2     2       C  1    4    n002  01:00:00    z  00:20:00\n";
    let jobs = TorqueScheduler::user_jobs_from_output(true, out, "", 3).expect("jobs");
    assert_eq!(jobs.len(), 1);
    assert_eq!(jobs[0].id, "11.m");
    assert_eq!(jobs[0].user, "alice");
    assert_eq!(jobs[0].name, "sim");
    assert_eq!(jobs[0].node_list, vec!["n001".to_string()]);
    assert_eq!(jobs[0].time_limit, 3600);
    assert_eq!(jobs[0].elapsed, 600);
    assert_eq!(jobs[0].req_mem_mb, 1000);
}
